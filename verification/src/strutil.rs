//! Small verified building blocks for strings: converting between
//! `&str`/`String` and `Vec<char>`, equality, decimal rendering of
//! integers, prefix tests, whitespace tokenization and joining.

use vstd::prelude::*;
use vstd::string::StrSliceExecFns;
use vstd::string::StringExecFns;

verus! {

/// Relies on `String::push`: appends the given character at the end of
/// the string.
#[verifier::external_body]
pub(crate) fn push_char(s: &mut String, c: char)
    ensures
        final(s)@ == old(s)@.push(c),
{
    s.push(c);
}

/// Collects the characters of a string slice into a vector.
pub fn chars_of(s: &str) -> (r: Vec<char>)
    ensures
        r@ == s@,
{
    let n: usize = s.unicode_len();
    let mut r: Vec<char> = Vec::new();
    let mut i: usize = 0;
    while i < n
        invariant
            i <= n,
            n == s@.len(),
            r@ == s@.take(i as int),
        decreases n - i,
    {
        let c = s.get_char(i);
        r.push(c);
        i = i + 1;
        proof {
            assert(s@.take(i as int) =~= s@.take(i as int - 1).push(s@[i as int - 1]));
        }
    }
    proof {
        assert(s@.take(n as int) =~= s@);
    }
    r
}

/// Builds an owned string out of a vector of characters.
pub fn string_from_chars(v: &Vec<char>) -> (r: String)
    ensures
        r@ == v@,
{
    let mut r = String::new();
    let mut i: usize = 0;
    while i < v.len()
        invariant
            i <= v.len(),
            r@ == v@.take(i as int),
        decreases v.len() - i,
    {
        push_char(&mut r, v[i]);
        i = i + 1;
        proof {
            assert(v@.take(i as int) =~= v@.take(i as int - 1).push(v@[i as int - 1]));
        }
    }
    proof {
        assert(v@.take(v.len() as int) =~= v@);
    }
    r
}

/// Whether two string slices hold the same sequence of characters.
pub fn str_eq(a: &str, b: &str) -> (r: bool)
    ensures
        r == (a@ == b@),
{
    let sa = String::from_str(a);
    let sb = String::from_str(b);
    sa == sb
}

/// The character for one decimal digit.
pub open spec fn dec_digit(d: nat) -> char {
    if d == 0 {
        '0'
    } else if d == 1 {
        '1'
    } else if d == 2 {
        '2'
    } else if d == 3 {
        '3'
    } else if d == 4 {
        '4'
    } else if d == 5 {
        '5'
    } else if d == 6 {
        '6'
    } else if d == 7 {
        '7'
    } else if d == 8 {
        '8'
    } else {
        '9'
    }
}

/// The decimal rendering of a natural number, most significant digit
/// first, with no leading zeros (and `"0"` for zero itself).
pub open spec fn u64_dec(n: nat) -> Seq<char>
    decreases n,
{
    if n < 10 {
        seq![dec_digit(n)]
    } else {
        u64_dec(n / 10) + seq![dec_digit(n % 10)]
    }
}

/// The decimal rendering of a signed number: a minus sign in front of
/// the magnitude for negative values.
pub open spec fn i64_dec(n: int) -> Seq<char> {
    if n >= 0 {
        u64_dec(n as nat)
    } else {
        seq!['-'] + u64_dec((-n) as nat)
    }
}

fn dec_digit_char(d: u64) -> (c: char)
    requires
        d < 10,
    ensures
        c == dec_digit(d as nat),
{
    if d == 0 {
        '0'
    } else if d == 1 {
        '1'
    } else if d == 2 {
        '2'
    } else if d == 3 {
        '3'
    } else if d == 4 {
        '4'
    } else if d == 5 {
        '5'
    } else if d == 6 {
        '6'
    } else if d == 7 {
        '7'
    } else if d == 8 {
        '8'
    } else {
        '9'
    }
}

/// Renders an unsigned number in decimal.
pub fn u64_to_string(n: u64) -> (r: String)
    ensures
        r@ == u64_dec(n as nat),
{
    let mut digits: Vec<char> = Vec::new();
    if n == 0 {
        digits.push('0');
        return string_from_chars(&digits);
    }
    let mut m: u64 = n;
    while m > 0
        invariant
            n > 0,
            m > 0 ==> u64_dec(n as nat) == u64_dec(m as nat) + digits@,
            m == 0 ==> u64_dec(n as nat) == digits@,
        decreases m,
    {
        let ghost m0: nat = m as nat;
        let ghost pre: Seq<char> = digits@;
        let d = m % 10;
        let c = dec_digit_char(d);
        digits.insert(0, c);
        m = m / 10;
        proof {
            assert(digits@ =~= seq![dec_digit(m0 % 10)] + pre);
            if m0 < 10 {
                assert(u64_dec(m0) == seq![dec_digit(m0)]);
                assert(m0 % 10 == m0);
                assert(u64_dec(n as nat) =~= u64_dec(m0) + pre);
                assert(u64_dec(n as nat) =~= digits@);
            } else {
                assert(u64_dec(m0) == u64_dec(m0 / 10) + seq![dec_digit(m0 % 10)]);
                assert(u64_dec(n as nat) =~= u64_dec(m0 / 10) + (seq![dec_digit(m0 % 10)] + pre));
                assert(u64_dec(n as nat) =~= u64_dec(m as nat) + digits@);
            }
        }
    }
    string_from_chars(&digits)
}

/// Renders a signed number in decimal.
pub fn i64_to_string(n: i64) -> (r: String)
    ensures
        r@ == i64_dec(n as int),
{
    if n >= 0 {
        let r = u64_to_string(n as u64);
        r
    } else {
        let mag: u64 = ((-(n + 1)) as u64) + 1;
        assert(mag as nat == (-(n as int)) as nat);
        let digits = u64_to_string(mag);
        let mut sign: Vec<char> = Vec::new();
        sign.push('-');
        let mut r = string_from_chars(&sign);
        r.append(digits.as_str());
        proof {
            assert(r@ =~= seq!['-'] + u64_dec(mag as nat));
        }
        r
    }
}

/// Whether `p` is a prefix of `s`.
pub open spec fn spec_starts_with(s: Seq<char>, p: Seq<char>) -> bool {
    p.len() <= s.len() && s.take(p.len() as int) == p
}

/// Prefix test over the characters of two string slices.
pub fn starts_with(s: &str, p: &str) -> (r: bool)
    ensures
        r == spec_starts_with(s@, p@),
{
    let sl: usize = s.unicode_len();
    let pl: usize = p.unicode_len();
    if pl > sl {
        assert(!spec_starts_with(s@, p@));
        return false;
    }
    let mut i: usize = 0;
    while i < pl
        invariant
            i <= pl,
            pl <= sl,
            sl == s@.len(),
            pl == p@.len(),
            forall|k: int| 0 <= k < i ==> s@[k] == p@[k],
        decreases pl - i,
    {
        let cs = s.get_char(i);
        let cp = p.get_char(i);
        if cs != cp {
            assert(s@.take(pl as int)[i as int] != p@[i as int]);
            return false;
        }
        i = i + 1;
    }
    proof {
        assert(s@.take(pl as int) =~= p@);
    }
    true
}

/// The whitespace characters that delimit the command token of a text
/// message.
pub open spec fn is_wspace(c: char) -> bool {
    c == ' ' || c == '\t' || c == '\n' || c == '\r'
}

/// Length of the leading run of non-whitespace characters.
pub open spec fn token_len(s: Seq<char>) -> int
    decreases s.len(),
{
    if s.len() == 0 {
        0
    } else if is_wspace(s[0]) {
        0
    } else {
        1 + token_len(s.drop_first())
    }
}

/// The leading token is a whitespace-free prefix, ended by a whitespace
/// character whenever anything follows it.
pub proof fn lemma_token_len(s: Seq<char>)
    ensures
        0 <= token_len(s) <= s.len(),
        forall|k: int| 0 <= k < token_len(s) ==> !is_wspace(s[k]),
        token_len(s) < s.len() ==> is_wspace(s[token_len(s)]),
    decreases s.len(),
{
    if s.len() == 0 {
    } else if is_wspace(s[0]) {
    } else {
        lemma_token_len(s.drop_first());
        assert forall|k: int| 0 <= k < token_len(s) implies !is_wspace(s[k]) by {
            if k > 0 {
                assert(s[k] == s.drop_first()[k - 1]);
            }
        }
        if token_len(s) < s.len() {
            assert(s[token_len(s)] == s.drop_first()[token_len(s) - 1]);
        }
    }
}

fn is_wspace_char(c: char) -> (r: bool)
    ensures
        r == is_wspace(c),
{
    c == ' ' || c == '\t' || c == '\n' || c == '\r'
}

/// Index one past the leading whitespace-free token of `s`.
pub fn find_token_end(s: &str) -> (r: usize)
    ensures
        r as int == token_len(s@),
{
    let n: usize = s.unicode_len();
    let mut i: usize = 0;
    while i < n
        invariant
            i <= n,
            n == s@.len(),
            forall|k: int| 0 <= k < i ==> !is_wspace(s@[k]),
        decreases n - i,
    {
        let c = s.get_char(i);
        if is_wspace_char(c) {
            proof {
                lemma_token_len_from_props(s@, i as int);
            }
            return i;
        }
        i = i + 1;
    }
    proof {
        lemma_token_len_all_solid(s@);
    }
    n
}

proof fn lemma_token_len_from_props(s: Seq<char>, i: int)
    requires
        0 <= i < s.len(),
        forall|k: int| 0 <= k < i ==> !is_wspace(s[k]),
        is_wspace(s[i]),
    ensures
        token_len(s) == i,
    decreases s.len(),
{
    if i == 0 {
    } else {
        assert forall|k: int| 0 <= k < i - 1 implies !is_wspace(s.drop_first()[k]) by {
            assert(s.drop_first()[k] == s[k + 1]);
        }
        assert(s.drop_first()[i - 1] == s[i]);
        lemma_token_len_from_props(s.drop_first(), i - 1);
    }
}

proof fn lemma_token_len_all_solid(s: Seq<char>)
    requires
        forall|k: int| 0 <= k < s.len() ==> !is_wspace(s[k]),
    ensures
        token_len(s) == s.len(),
    decreases s.len(),
{
    if s.len() > 0 {
        assert forall|k: int| 0 <= k < s.drop_first().len() implies !is_wspace(s.drop_first()[k]) by {
            assert(s.drop_first()[k] == s[k + 1]);
        }
        lemma_token_len_all_solid(s.drop_first());
    }
}

/// The words joined with the separator between consecutive words.
pub open spec fn spec_join(ws: Seq<Seq<char>>, sep: Seq<char>) -> Seq<char>
    decreases ws.len(),
{
    if ws.len() == 0 {
        Seq::empty()
    } else if ws.len() == 1 {
        ws[0]
    } else {
        ws[0] + sep + spec_join(ws.drop_first(), sep)
    }
}

/// Appending one word to a join extends it by a separator and the word.
pub proof fn lemma_join_push(ws: Seq<Seq<char>>, w: Seq<char>, sep: Seq<char>)
    ensures
        ws.len() == 0 ==> spec_join(ws.push(w), sep) == w,
        ws.len() > 0 ==> spec_join(ws.push(w), sep) =~= spec_join(ws, sep) + sep + w,
    decreases ws.len(),
{
    if ws.len() == 0 {
        assert(ws.push(w)[0] == w);
    } else if ws.len() == 1 {
        assert(ws.push(w)[0] == ws[0]);
        assert(ws.push(w).drop_first() =~= seq![w]);
        assert(spec_join(seq![w], sep) == seq![w][0]);
        assert(seq![w][0] == w);
        assert(spec_join(ws.push(w), sep) == ws[0] + sep + w);
    } else {
        lemma_join_push(ws.drop_first(), w, sep);
        assert(ws.push(w).drop_first() =~= ws.drop_first().push(w));
        assert(ws.push(w)[0] == ws[0]);
        assert(spec_join(ws.push(w), sep) == ws[0] + sep + spec_join(ws.drop_first().push(w), sep));
        assert(spec_join(ws, sep) + sep + w =~= ws[0] + sep + (spec_join(ws.drop_first(), sep) + sep
            + w));
    }
}

/// Joins owned strings with a separator.
pub fn join_str(ws: &Vec<String>, sep: &str) -> (r: String)
    ensures
        r@ == spec_join(ws.deep_view(), sep@),
{
    let mut r = String::new();
    let mut i: usize = 0;
    while i < ws.len()
        invariant
            i <= ws.len(),
            r@ == spec_join(ws.deep_view().take(i as int), sep@),
        decreases ws.len() - i,
    {
        let ghost pre: Seq<Seq<char>> = ws.deep_view().take(i as int);
        if i > 0 {
            r.append(sep);
        }
        r.append(ws[i].as_str());
        proof {
            assert(ws.deep_view().take(i as int + 1) =~= pre.push(ws.deep_view()[i as int]));
            assert(ws.deep_view()[i as int] == ws@[i as int]@);
            lemma_join_push(pre, ws.deep_view()[i as int], sep@);
            if i == 0 {
                assert(r@ =~= spec_join(ws.deep_view().take(1), sep@));
            }
        }
        i = i + 1;
    }
    proof {
        assert(ws.deep_view().take(ws.len() as int) =~= ws.deep_view());
    }
    r
}

/// Membership of a string among a vector of strings.
pub fn contains_str(ws: &Vec<String>, x: &str) -> (r: bool)
    ensures
        r == ws.deep_view().contains(x@),
{
    let mut i: usize = 0;
    while i < ws.len()
        invariant
            i <= ws.len(),
            forall|k: int| 0 <= k < i ==> ws.deep_view()[k] != x@,
        decreases ws.len() - i,
    {
        if str_eq(ws[i].as_str(), x) {
            assert(ws.deep_view()[i as int] == x@);
            return true;
        }
        proof {
            assert(ws.deep_view()[i as int] == ws@[i as int]@);
        }
        i = i + 1;
    }
    false
}

} // verus!
