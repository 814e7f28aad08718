use oshiro::ctx::{CommandContext, InteractionOption, MessagePayload, OptionValue, SlashPayload};
use oshiro::novelty::{uwu, uwu_transform};

fn text_ctx(remainder: &str) -> CommandContext {
    CommandContext::for_text(
        MessagePayload {
            content: format!("!uwu{}", remainder),
            channel_id: 1,
        },
        remainder.to_string(),
    )
}

fn slash_ctx(options: Vec<InteractionOption>) -> CommandContext {
    CommandContext::for_slash(SlashPayload {
        id: 3,
        token: "tok".to_string(),
        resolved_options: options,
    })
}

#[test]
fn consonants_soften_to_w() {
    assert_eq!(uwu_transform("lol"), "wow");
    assert_eq!(uwu_transform("raven"), "wawen");
}

#[test]
fn syllables_are_stretched() {
    assert_eq!(uwu_transform("banana"), "banyanya");
    assert_eq!(uwu_transform("fufu"), "fwufwu");
}

#[test]
fn every_other_y_word_gains_a_stutter() {
    assert_eq!(uwu_transform("yes yes yes"), "y-yes yes y-yes");
    assert_eq!(uwu_transform("you and you"), "y-you and you");
}

#[test]
fn spacing_is_preserved_word_for_word() {
    assert_eq!(uwu_transform("a  b"), "a  b");
    assert_eq!(uwu_transform(""), "");
}

#[test]
fn whole_sentence_comes_out_transformed() {
    assert_eq!(uwu_transform("i love you"), "i wowe y-you");
}

#[test]
fn text_command_transforms_the_remainder() {
    let out = uwu(&text_ctx(" LOL")).unwrap();
    // the leading space of the remainder yields a leading empty word
    assert_eq!(out, " wow");
}

#[test]
fn uppercase_input_is_lowercased_first() {
    let out = uwu(&text_ctx("LOL")).unwrap();
    assert_eq!(out, "wow");
}

#[test]
fn interaction_with_string_option_transforms_it() {
    let ctx = slash_ctx(vec![InteractionOption {
        name: "text".to_string(),
        value: OptionValue::Str("Hello World".to_string()),
    }]);
    assert_eq!(uwu(&ctx).unwrap(), "hewwo wowwd");
}

#[test]
fn interaction_without_options_is_refused() {
    let ctx = slash_ctx(vec![]);
    assert_eq!(uwu(&ctx).unwrap_err(), "missing text parameter");
}

#[test]
fn interaction_with_non_string_option_falls_back() {
    let ctx = slash_ctx(vec![InteractionOption {
        name: "text".to_string(),
        value: OptionValue::Other,
    }]);
    assert_eq!(uwu(&ctx).unwrap(), "something bwoke!");
}
