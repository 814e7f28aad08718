//! The uwu command's text transformation: lowercase the input, soften
//! consonants, stretch a few syllables, and stutter every other word
//! that starts with a `y`.  The transformation itself is plain
//! character work, pinned down step by step.

use vstd::prelude::*;
use vstd::string::StringExecFns;

use crate::ctx::{CommandContext, OptionValue};
use crate::strutil::{chars_of, spec_join, string_from_chars};

verus! {

/// What `str::to_lowercase` returns for the given characters; the
/// result depends on the characters alone.
pub uninterp spec fn lower_of(s: Seq<char>) -> Seq<char>;

/// Relies on `str::to_lowercase`: the Unicode lowercase mapping of the
/// string, a function of the characters alone.
#[verifier::external_body]
fn lowercase(s: &str) -> (r: String)
    ensures
        r@ == lower_of(s@),
{
    s.to_lowercase()
}

/// The consonant softening: `l`, `r` and `v` each become `w`.
pub open spec fn wmap(c: char) -> char {
    if c == 'l' || c == 'r' || c == 'v' {
        'w'
    } else {
        c
    }
}

fn map_wrv(v: &Vec<char>) -> (r: Vec<char>)
    ensures
        r@ == v@.map_values(|c: char| wmap(c)),
{
    let mut r: Vec<char> = Vec::new();
    let mut i: usize = 0;
    while i < v.len()
        invariant
            i <= v@.len(),
            r@.len() == i,
            forall|k: int| 0 <= k < i ==> r@[k] == wmap(v@[k]),
        decreases v@.len() - i,
    {
        let c = v[i];
        if c == 'l' || c == 'r' || c == 'v' {
            r.push('w');
        } else {
            r.push(c);
        }
        i = i + 1;
    }
    proof {
        assert(r@ =~= v@.map_values(|c: char| wmap(c)));
    }
    r
}

/// Every non-overlapping occurrence of `pat` replaced by `rep`,
/// scanning left to right, the way `str::replace` rewrites a string.
pub open spec fn spec_replace(s: Seq<char>, pat: Seq<char>, rep: Seq<char>) -> Seq<char>
    decreases s.len(),
{
    if pat.len() == 0 {
        s
    } else if s.len() < pat.len() {
        s
    } else if s.take(pat.len() as int) == pat {
        rep + spec_replace(s.skip(pat.len() as int), pat, rep)
    } else {
        seq![s[0]] + spec_replace(s.drop_first(), pat, rep)
    }
}

/// Whether `pat` occurs in `s` at position `i`.
fn eq_range(s: &Vec<char>, i: usize, pat: &Vec<char>) -> (r: bool)
    requires
        i + pat@.len() <= s@.len(),
    ensures
        r == (s@.subrange(i as int, i as int + pat@.len() as int) == pat@),
{
    let m = pat.len();
    let sn = s.len();
    let mut k: usize = 0;
    while k < m
        invariant
            k <= m,
            m == pat@.len(),
            sn == s@.len(),
            i + m <= sn,
            forall|t: int| 0 <= t < k ==> s@[i + t] == pat@[t],
        decreases m - k,
    {
        if s[i + k] != pat[k] {
            assert(s@.subrange(i as int, i as int + m as int)[k as int] != pat@[k as int]);
            return false;
        }
        k = k + 1;
    }
    proof {
        assert(s@.subrange(i as int, i as int + m as int) =~= pat@);
    }
    true
}

/// Replaces every non-overlapping occurrence of `pat` by `rep`.
pub fn replace_chars(s: &Vec<char>, pat: &Vec<char>, rep: &Vec<char>) -> (r: Vec<char>)
    requires
        pat@.len() > 0,
    ensures
        r@ == spec_replace(s@, pat@, rep@),
{
    let n = s.len();
    let m = pat.len();
    let mut out: Vec<char> = Vec::new();
    let mut i: usize = 0;
    proof {
        assert(s@.skip(0) =~= s@);
        assert(out@ + spec_replace(s@, pat@, rep@) =~= spec_replace(s@, pat@, rep@));
    }
    while i < n
        invariant
            i <= n,
            n == s@.len(),
            m == pat@.len(),
            m > 0,
            spec_replace(s@, pat@, rep@) == out@ + spec_replace(s@.skip(i as int), pat@, rep@),
        decreases n - i,
    {
        let ghost pre: Seq<char> = out@;
        let ghost t: Seq<char> = s@.skip(i as int);
        let matched = if m <= n - i {
            eq_range(s, i, pat)
        } else {
            false
        };
        proof {
            assert(t.len() == n - i);
            if m <= n - i {
                assert(t.take(m as int) =~= s@.subrange(i as int, i as int + m as int));
            }
        }
        if matched {
            let mut k: usize = 0;
            while k < rep.len()
                invariant
                    k <= rep@.len(),
                    out@ == pre + rep@.take(k as int),
                decreases rep@.len() - k,
            {
                out.push(rep[k]);
                proof {
                    assert(rep@.take(k as int + 1) =~= rep@.take(k as int).push(rep@[k as int]));
                }
                k = k + 1;
            }
            proof {
                assert(rep@.take(rep@.len() as int) =~= rep@);
                assert(out@ == pre + rep@);
            }
            i = i + m;
            proof {
                assert(t.skip(m as int) =~= s@.skip(i as int));
                assert(spec_replace(t, pat@, rep@) == rep@ + spec_replace(
                    s@.skip(i as int),
                    pat@,
                    rep@,
                ));
                assert(pre + (rep@ + spec_replace(s@.skip(i as int), pat@, rep@)) =~= (pre + rep@)
                    + spec_replace(s@.skip(i as int), pat@, rep@));
            }
        } else {
            let c = s[i];
            out.push(c);
            i = i + 1;
            proof {
                assert(t[0] == c);
                assert(t.drop_first() =~= s@.skip(i as int));
                if t.len() < m {
                    assert(spec_replace(t, pat@, rep@) == t);
                    assert(spec_replace(s@.skip(i as int), pat@, rep@) == s@.skip(i as int));
                    assert(t =~= seq![c] + s@.skip(i as int));
                } else {
                    assert(t.take(m as int) != pat@);
                    assert(spec_replace(t, pat@, rep@) == seq![c] + spec_replace(
                        t.drop_first(),
                        pat@,
                        rep@,
                    ));
                }
                assert(pre + (seq![c] + spec_replace(s@.skip(i as int), pat@, rep@)) =~= (
                pre.push(c)) + spec_replace(s@.skip(i as int), pat@, rep@));
            }
        }
    }
    proof {
        assert(s@.skip(n as int) =~= Seq::<char>::empty());
        assert(spec_replace(Seq::<char>::empty(), pat@, rep@) =~= Seq::<char>::empty());
        assert(out@ + Seq::<char>::empty() =~= out@);
    }
    out
}

/// The words of `s`, split on every single space character, the way
/// `str::split(' ')` yields them: consecutive spaces yield empty
/// words, and the empty string is one empty word.
pub open spec fn spec_split_sp(s: Seq<char>) -> Seq<Seq<char>>
    decreases s.len(),
{
    if s.len() == 0 {
        seq![Seq::<char>::empty()]
    } else if s[0] == ' ' {
        seq![Seq::<char>::empty()] + spec_split_sp(s.drop_first())
    } else {
        let rest = spec_split_sp(s.drop_first());
        seq![seq![s[0]] + rest[0]] + rest.drop_first()
    }
}

/// Splitting always yields at least one word.
pub proof fn lemma_split_nonempty(s: Seq<char>)
    ensures
        spec_split_sp(s).len() >= 1,
    decreases s.len(),
{
    if s.len() == 0 {
    } else {
        lemma_split_nonempty(s.drop_first());
    }
}

/// Splits on single spaces.
pub fn split_sp(v: &Vec<char>) -> (r: Vec<Vec<char>>)
    ensures
        r.deep_view() == spec_split_sp(v@),
{
    let n = v.len();
    let mut done: Vec<Vec<char>> = Vec::new();
    let mut cur: Vec<char> = Vec::new();
    let mut i: usize = 0;
    proof {
        assert(v@.skip(0) =~= v@);
        lemma_split_nonempty(v@);
        let ss = spec_split_sp(v@);
        assert(cur@ + ss[0] =~= ss[0]);
        assert(ss =~~= seq![ss[0]] + ss.drop_first());
        assert(done.deep_view() + (seq![cur@ + ss[0]] + ss.drop_first()) =~~= ss);
    }
    while i < n
        invariant
            i <= n,
            n == v@.len(),
            spec_split_sp(v@) == done.deep_view() + (seq![cur@ + spec_split_sp(
                v@.skip(i as int),
            )[0]] + spec_split_sp(v@.skip(i as int)).drop_first()),
        decreases n - i,
    {
        let ghost t: Seq<char> = v@.skip(i as int);
        let ghost dpre = done.deep_view();
        let ghost cpre = cur@;
        let c = v[i];
        proof {
            assert(t[0] == c);
            assert(t.drop_first() =~= v@.skip(i as int + 1));
            lemma_split_nonempty(t.drop_first());
        }
        if c == ' ' {
            done.push(cur);
            cur = Vec::new();
            proof {
                assert(done.deep_view() =~~= dpre.push(cpre));
                let rest = spec_split_sp(t.drop_first());
                assert(spec_split_sp(t) == seq![Seq::<char>::empty()] + rest);
                assert(cpre + spec_split_sp(t)[0] =~= cpre);
                assert(spec_split_sp(t).drop_first() =~= rest);
                assert(rest =~~= seq![rest[0]] + rest.drop_first());
                assert(cur@ + rest[0] =~= rest[0]);
                assert(dpre + (seq![cpre] + rest) =~~= dpre.push(cpre) + (seq![cur@ + rest[0]]
                    + rest.drop_first()));
            }
        } else {
            cur.push(c);
            proof {
                let rest = spec_split_sp(t.drop_first());
                assert(spec_split_sp(t) == seq![seq![c] + rest[0]] + rest.drop_first());
                assert(cpre + spec_split_sp(t)[0] =~= cpre + (seq![c] + rest[0]));
                assert(cpre + (seq![c] + rest[0]) =~= cur@ + rest[0]);
                assert(spec_split_sp(t).drop_first() =~= rest.drop_first());
                assert(done.deep_view() + (seq![cur@ + rest[0]] + rest.drop_first()) =~~= dpre + (
                seq![cpre + spec_split_sp(t)[0]] + spec_split_sp(t).drop_first()));
            }
        }
        i = i + 1;
    }
    let ghost dpre = done.deep_view();
    let ghost cpre = cur@;
    done.push(cur);
    proof {
        assert(v@.skip(n as int) =~= Seq::<char>::empty());
        let rest = spec_split_sp(v@.skip(n as int));
        assert(rest =~~= seq![Seq::<char>::empty()]);
        assert(cpre + rest[0] =~= cpre);
        assert(rest.drop_first() =~= Seq::<Seq<char>>::empty());
        assert(dpre + (seq![cpre + rest[0]] + rest.drop_first()) =~~= dpre.push(cpre));
        assert(done.deep_view() =~~= dpre.push(cpre));
    }
    done
}

/// Every other word that starts with a `y` gains a stuttered `y-` in
/// front, beginning with the first such word.
pub open spec fn spec_ydash(ws: Seq<Seq<char>>, dashy: bool) -> Seq<Seq<char>>
    decreases ws.len(),
{
    if ws.len() == 0 {
        ws
    } else {
        let w = ws[0];
        if w.len() > 0 && w[0] == 'y' {
            if dashy {
                seq![seq!['y', '-'] + w] + spec_ydash(ws.drop_first(), false)
            } else {
                seq![w] + spec_ydash(ws.drop_first(), true)
            }
        } else {
            seq![w] + spec_ydash(ws.drop_first(), dashy)
        }
    }
}

/// Applies the alternating `y-` stutter to a word list.
pub fn ydash_words(ws: Vec<Vec<char>>) -> (r: Vec<Vec<char>>)
    ensures
        r.deep_view() == spec_ydash(ws.deep_view(), true),
{
    let n = ws.len();
    let mut out: Vec<Vec<char>> = Vec::new();
    let mut dashy = true;
    let mut i: usize = 0;
    proof {
        assert(ws.deep_view().skip(0) =~= ws.deep_view());
        assert(out.deep_view() + spec_ydash(ws.deep_view(), true) =~~= spec_ydash(
            ws.deep_view(),
            true,
        ));
    }
    while i < n
        invariant
            i <= n,
            n == ws@.len(),
            spec_ydash(ws.deep_view(), true) == out.deep_view() + spec_ydash(
                ws.deep_view().skip(i as int),
                dashy,
            ),
        decreases n - i,
    {
        let ghost t: Seq<Seq<char>> = ws.deep_view().skip(i as int);
        let ghost opre = out.deep_view();
        let w = &ws[i];
        proof {
            assert(t[0] == ws.deep_view()[i as int]);
            assert(ws.deep_view()[i as int] == ws@[i as int]@);
            assert(t.drop_first() =~= ws.deep_view().skip(i as int + 1));
        }
        let starts_y = w.len() > 0 && w[0] == 'y';
        if starts_y {
            if dashy {
                let mut yd: Vec<char> = Vec::new();
                yd.push('y');
                yd.push('-');
                let mut yw = yd;
                let mut k: usize = 0;
                while k < ws[i].len()
                    invariant
                        k <= ws@[i as int]@.len(),
                        i < ws@.len(),
                        yw@ == seq!['y', '-'] + ws@[i as int]@.take(k as int),
                    decreases ws@[i as int]@.len() - k,
                {
                    yw.push(ws[i][k]);
                    proof {
                        assert(ws@[i as int]@.take(k as int + 1) =~= ws@[i as int]@.take(
                            k as int,
                        ).push(ws@[i as int]@[k as int]));
                    }
                    k = k + 1;
                }
                proof {
                    assert(ws@[i as int]@.take(ws@[i as int]@.len() as int) =~= ws@[i as int]@);
                }
                out.push(yw);
                dashy = false;
                proof {
                    assert(out.deep_view() =~~= opre.push(seq!['y', '-'] + t[0]));
                    assert(spec_ydash(t, true) == seq![seq!['y', '-'] + t[0]] + spec_ydash(
                        t.drop_first(),
                        false,
                    ));
                    assert(opre + spec_ydash(t, true) =~~= out.deep_view() + spec_ydash(
                        t.drop_first(),
                        false,
                    ));
                }
            } else {
                let wcopy = copy_word(w);
                out.push(wcopy);
                dashy = true;
                proof {
                    assert(out.deep_view() =~~= opre.push(t[0]));
                    assert(spec_ydash(t, false) == seq![t[0]] + spec_ydash(t.drop_first(), true));
                    assert(opre + spec_ydash(t, false) =~~= out.deep_view() + spec_ydash(
                        t.drop_first(),
                        true,
                    ));
                }
            }
        } else {
            let wcopy = copy_word(w);
            out.push(wcopy);
            proof {
                assert(out.deep_view() =~~= opre.push(t[0]));
                assert(spec_ydash(t, dashy) == seq![t[0]] + spec_ydash(t.drop_first(), dashy));
                assert(opre + spec_ydash(t, dashy) =~~= out.deep_view() + spec_ydash(
                    t.drop_first(),
                    dashy,
                ));
            }
        }
        i = i + 1;
    }
    proof {
        assert(ws.deep_view().skip(n as int) =~= Seq::<Seq<char>>::empty());
        assert(out.deep_view() + Seq::<Seq<char>>::empty() =~~= out.deep_view());
    }
    out
}

/// Copies one word.
fn copy_word(w: &Vec<char>) -> (r: Vec<char>)
    ensures
        r@ == w@,
{
    let mut r: Vec<char> = Vec::new();
    let mut k: usize = 0;
    while k < w.len()
        invariant
            k <= w@.len(),
            r@ == w@.take(k as int),
        decreases w@.len() - k,
    {
        r.push(w[k]);
        proof {
            assert(w@.take(k as int + 1) =~= w@.take(k as int).push(w@[k as int]));
        }
        k = k + 1;
    }
    proof {
        assert(w@.take(w@.len() as int) =~= w@);
    }
    r
}

/// Joins words with single spaces.
fn join_words(ws: &Vec<Vec<char>>) -> (r: Vec<char>)
    ensures
        r@ == spec_join(ws.deep_view(), seq![' ']),
{
    let mut r: Vec<char> = Vec::new();
    let mut i: usize = 0;
    while i < ws.len()
        invariant
            i <= ws@.len(),
            r@ == spec_join(ws.deep_view().take(i as int), seq![' ']),
        decreases ws@.len() - i,
    {
        let ghost pre: Seq<Seq<char>> = ws.deep_view().take(i as int);
        let ghost rpre: Seq<char> = r@;
        if i > 0 {
            r.push(' ');
        }
        let mut k: usize = 0;
        let ghost rmid: Seq<char> = r@;
        while k < ws[i].len()
            invariant
                k <= ws@[i as int]@.len(),
                i < ws@.len(),
                r@ == rmid + ws@[i as int]@.take(k as int),
            decreases ws@[i as int]@.len() - k,
        {
            r.push(ws[i][k]);
            proof {
                assert(ws@[i as int]@.take(k as int + 1) =~= ws@[i as int]@.take(k as int).push(
                    ws@[i as int]@[k as int],
                ));
            }
            k = k + 1;
        }
        proof {
            assert(ws@[i as int]@.take(ws@[i as int]@.len() as int) =~= ws@[i as int]@);
            assert(ws.deep_view().take(i as int + 1) =~= pre.push(ws.deep_view()[i as int]));
            assert(ws.deep_view()[i as int] == ws@[i as int]@);
            crate::strutil::lemma_join_push(pre, ws.deep_view()[i as int], seq![' ']);
            if i == 0 {
                assert(rpre =~= Seq::<char>::empty());
                assert(r@ =~= spec_join(ws.deep_view().take(1), seq![' ']));
            } else {
                assert(rmid =~= rpre.push(' '));
                assert(rmid =~= rpre + seq![' ']);
                assert(r@ =~= (rpre + seq![' ']) + ws.deep_view()[i as int]);
                assert(r@ =~= spec_join(pre, seq![' ']) + seq![' '] + ws.deep_view()[i as int]);
            }
        }
        i = i + 1;
    }
    proof {
        assert(ws.deep_view().take(ws@.len() as int) =~= ws.deep_view());
    }
    r
}

/// The whole transformation on an already lowercased text: soften
/// consonants, stretch `fu`, `na` and `ove`, then stutter alternating
/// `y` words.
pub open spec fn uwu_of(lowered: Seq<char>) -> Seq<char> {
    let a = lowered.map_values(|c: char| wmap(c));
    let b = spec_replace(a, seq!['f', 'u'], seq!['f', 'w', 'u']);
    let c = spec_replace(b, seq!['n', 'a'], seq!['n', 'y', 'a']);
    let d = spec_replace(c, seq!['o', 'v', 'e'], seq!['u', 'v']);
    spec_join(spec_ydash(spec_split_sp(d), true), seq![' '])
}

/// Applies the uwu transformation to an already lowercased text.
pub fn uwu_transform(lowered: &str) -> (r: String)
    ensures
        r@ == uwu_of(lowered@),
{
    let chars = chars_of(lowered);
    let a = map_wrv(&chars);
    let mut pat_fu: Vec<char> = Vec::new();
    pat_fu.push('f');
    pat_fu.push('u');
    let mut rep_fwu: Vec<char> = Vec::new();
    rep_fwu.push('f');
    rep_fwu.push('w');
    rep_fwu.push('u');
    let b = replace_chars(&a, &pat_fu, &rep_fwu);
    let mut pat_na: Vec<char> = Vec::new();
    pat_na.push('n');
    pat_na.push('a');
    let mut rep_nya: Vec<char> = Vec::new();
    rep_nya.push('n');
    rep_nya.push('y');
    rep_nya.push('a');
    let c = replace_chars(&b, &pat_na, &rep_nya);
    let mut pat_ove: Vec<char> = Vec::new();
    pat_ove.push('o');
    pat_ove.push('v');
    pat_ove.push('e');
    let mut rep_uv: Vec<char> = Vec::new();
    rep_uv.push('u');
    rep_uv.push('v');
    let d = replace_chars(&c, &pat_ove, &rep_uv);
    let words = split_sp(&d);
    let dashed = ydash_words(words);
    let joined = join_words(&dashed);
    proof {
        assert(pat_fu@ =~= seq!['f', 'u']);
        assert(rep_fwu@ =~= seq!['f', 'w', 'u']);
        assert(pat_na@ =~= seq!['n', 'a']);
        assert(rep_nya@ =~= seq!['n', 'y', 'a']);
        assert(pat_ove@ =~= seq!['o', 'v', 'e']);
        assert(rep_uv@ =~= seq!['u', 'v']);
    }
    string_from_chars(&joined)
}

/// The uwu command itself: picks the input text from the execution
/// context -- the argument remainder of a text message, or the first
/// string option of an interaction -- and transforms it.  An
/// interaction without options is refused; one whose first option is
/// no string falls back to a fixed complaint, which is transformed
/// like any input.
pub fn uwu(ctx: &CommandContext) -> (r: Result<String, String>)
    requires
        ctx.wf(),
    ensures
        ctx.command_type is TEXT ==> (ctx.stripped matches Some(st) && (r matches Ok(out) && out@
            == uwu_of(lower_of(st@)))),
        ctx.command_type is SLASH ==> (ctx.slash matches Some(s) && (if s.resolved_options@.len()
            == 0 {
            r matches Err(e) && e@ == "missing text parameter"@
        } else {
            &&& (s.resolved_options@[0].value matches OptionValue::Str(t) ==> (r matches Ok(out)
                && out@ == uwu_of(lower_of(t@))))
            &&& (!(s.resolved_options@[0].value is Str) ==> (r matches Ok(out) && out@ == uwu_of(
                lower_of("Something broke!"@),
            )))
        })),
{
    match ctx.command_type {
        crate::cmd::CommandType::TEXT => {
            let st = ctx.stripped_text();
            let low = lowercase(st.as_str());
            Ok(uwu_transform(low.as_str()))
        },
        crate::cmd::CommandType::SLASH => {
            let s = ctx.slash_payload();
            if s.resolved_options.len() == 0 {
                return Err(String::from_str("missing text parameter"));
            }
            match &s.resolved_options[0].value {
                OptionValue::Str(t) => {
                    let low = lowercase(t.as_str());
                    Ok(uwu_transform(low.as_str()))
                },
                _ => {
                    let low = lowercase("Something broke!");
                    Ok(uwu_transform(low.as_str()))
                },
            }
        },
    }
}

} // verus!
