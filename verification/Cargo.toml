[package]
name = "oshiro"
version = "0.1.0"
edition = "2021"
publish = false

[dependencies]
chrono = "=0.4.45"
tokio = { version = "=1.53.2", features = ["full"] }
futures = "=0.3.34"
tracing = "=0.1.44"
tracing-subscriber = "=0.3.23"
dotenv = "=0.15.0"
num_cpus = "=1.17.0"
simd-json = "=0.13.11"
twilight-cache-inmemory = "=0.15.4"
twilight-gateway = "=0.15.4"
twilight-http = "=0.15.4"
twilight-model = "=0.15.4"
twilight-util = { version = "=0.15.4", features = ["builder", "snowflake"] }
