//! Pig latin: each whitespace-separated word is rewritten — a word opening
//! with a vowel gains "way", any other word moves its first character to the
//! end, lowercased, and gains "ay" (recapitalizing what remains when the
//! word was capitalized); trailing ASCII punctuation stays at the end.
use vstd::prelude::*;

use crate::strutil::{chars_to_string, str_chars};

verus! {

/// Whether std's `char::is_whitespace` holds of the character — the Unicode
/// white-space property. A pure function of the character.
pub uninterp spec fn is_white_char(c: char) -> bool;

/// Relies on `char::is_whitespace`: the Unicode white-space property.
#[verifier::external_body]
pub(crate) fn char_is_whitespace(c: char) -> (r: bool)
    ensures
        r == is_white_char(c),
{
    c.is_whitespace()
}

/// Whether std's `char::is_uppercase` holds of the character — the Unicode
/// uppercase property. A pure function of the character.
pub uninterp spec fn is_upper_char(c: char) -> bool;

/// Relies on `char::is_uppercase`: the Unicode uppercase property.
#[verifier::external_body]
fn char_is_uppercase(c: char) -> (r: bool)
    ensures
        r == is_upper_char(c),
{
    c.is_uppercase()
}

/// What std's `char::to_uppercase` yields for the character: one character
/// or several. A pure function of the character.
pub uninterp spec fn upper_chars_of(c: char) -> Seq<char>;

/// Relies on `char::to_uppercase`: the Unicode uppercase mapping of the
/// character, collected in order.
#[verifier::external_body]
fn char_to_uppercase(c: char) -> (r: Vec<char>)
    ensures
        r@ == upper_chars_of(c),
{
    c.to_uppercase().collect()
}

/// ASCII punctuation, as std defines it: `!`..`/`, `:`..`@`, `[`..'`',
/// `{`..`~`.
pub open spec fn is_ascii_punct(c: char) -> bool {
    ('!' <= c && c <= '/') || (':' <= c && c <= '@') || ('[' <= c && c <= '`') || ('{' <= c && c
        <= '~')
}

fn exec_is_ascii_punct(c: char) -> (r: bool)
    ensures
        r == is_ascii_punct(c),
{
    ('!' <= c && c <= '/') || (':' <= c && c <= '@') || ('[' <= c && c <= '`') || ('{' <= c && c
        <= '~')
}

/// The ten characters counted as vowels.
pub open spec fn is_vowel_char(c: char) -> bool {
    c == 'a' || c == 'e' || c == 'i' || c == 'o' || c == 'u' || c == 'A' || c == 'E' || c == 'I'
        || c == 'O' || c == 'U'
}

fn exec_is_vowel_char(c: char) -> (r: bool)
    ensures
        r == is_vowel_char(c),
{
    c == 'a' || c == 'e' || c == 'i' || c == 'o' || c == 'u' || c == 'A' || c == 'E' || c == 'I'
        || c == 'O' || c == 'U'
}

/// An ASCII uppercase letter lowered by the fixed offset; anything else
/// unchanged.
pub open spec fn ascii_lower(c: char) -> char {
    if 'A' <= c && c <= 'Z' {
        ((c as u8) + 32) as char
    } else {
        c
    }
}

fn exec_ascii_lower(c: char) -> (r: char)
    ensures
        r == ascii_lower(c),
{
    if 'A' <= c && c <= 'Z' {
        ((c as u8) + 32) as char
    } else {
        c
    }
}

/// The length of the leading run of non-whitespace characters.
pub open spec fn word_len(s: Seq<char>) -> nat
    decreases s.len(),
{
    if s.len() == 0 || is_white_char(s[0]) {
        0
    } else {
        1 + word_len(s.drop_first())
    }
}

/// The whitespace-separated words of a character sequence, in order, empty
/// pieces dropped.
pub open spec fn split_ws(s: Seq<char>) -> Seq<Seq<char>>
    decreases s.len(),
{
    if s.len() == 0 {
        Seq::<Seq<char>>::empty()
    } else if is_white_char(s[0]) {
        split_ws(s.drop_first())
    } else {
        let wl = if word_len(s) <= s.len() {
            word_len(s) as int
        } else {
            s.len() as int
        };
        seq![s.take(wl)] + split_ws(s.skip(wl))
    }
}

/// The length of the trailing run of ASCII punctuation.
pub open spec fn punct_len(s: Seq<char>) -> nat
    decreases s.len(),
{
    if s.len() > 0 && is_ascii_punct(s.last()) {
        1 + punct_len(s.drop_last())
    } else {
        0
    }
}

/// The first character replaced by its uppercase mapping.
pub open spec fn cap_first(s: Seq<char>) -> Seq<char> {
    if s.len() == 0 {
        s
    } else {
        upper_chars_of(s[0]) + s.drop_first()
    }
}

/// One word rewritten: trailing punctuation is held back and reattached;
/// a vowel start gains `way`; otherwise the first character, lowercased if
/// it was uppercase (recapitalizing the remainder), moves before `ay`.
pub open spec fn pig_word(w: Seq<char>) -> Seq<char>
    recommends
        w.len() >= 1,
        punct_len(w) <= w.len(),
{
    let cut = w.len() - punct_len(w);
    let core = w.take(cut);
    let suffix = w.skip(cut);
    let c = w[0];
    if is_vowel_char(c) {
        core + seq!['w', 'a', 'y'] + suffix
    } else {
        let rest0 = if core.len() >= 1 {
            core.drop_first()
        } else {
            Seq::<char>::empty()
        };
        if is_upper_char(c) {
            cap_first(rest0) + seq![ascii_lower(c)] + seq!['a', 'y'] + suffix
        } else {
            rest0 + seq![c] + seq!['a', 'y'] + suffix
        }
    }
}

/// Words joined by single spaces.
pub open spec fn join_sp(ws: Seq<Seq<char>>) -> Seq<char>
    decreases ws.len(),
{
    if ws.len() == 0 {
        Seq::<char>::empty()
    } else if ws.len() == 1 {
        ws[0]
    } else {
        ws[0] + seq![' '] + join_sp(ws.drop_first())
    }
}

/// The whole translation: every word rewritten, joined by single spaces.
pub open spec fn pig_latin_of(s: Seq<char>) -> Seq<char> {
    join_sp(split_ws(s).map_values(|w: Seq<char>| pig_word(w)))
}

/// The trailing punctuation run is never longer than the word.
pub proof fn lemma_punct_len_le(s: Seq<char>)
    ensures
        punct_len(s) <= s.len(),
    decreases s.len(),
{
    if s.len() > 0 && is_ascii_punct(s.last()) {
        lemma_punct_len_le(s.drop_last());
    }
}

/// A scan that saw punctuation from `k` to the end, stopped by a
/// non-punctuation character or the start, pins the trailing run's length.
pub proof fn lemma_punct_len_at(w: Seq<char>, k: int)
    requires
        0 <= k <= w.len(),
        forall|j: int| k <= j < w.len() ==> is_ascii_punct(#[trigger] w[j]),
        k == 0 || !is_ascii_punct(w[k - 1]),
    ensures
        punct_len(w) == w.len() - k,
    decreases w.len(),
{
    if k == w.len() {
        if w.len() > 0 {
            assert(!is_ascii_punct(w.last()));
        }
    } else {
        assert(is_ascii_punct(w.last()));
        lemma_punct_len_at(w.drop_last(), k);
    }
}

/// A scan that saw no whitespace before `e`, stopped by whitespace or the
/// end, pins the leading word's length.
pub proof fn lemma_word_len_at(s: Seq<char>, e: int)
    requires
        0 <= e <= s.len(),
        forall|j: int| 0 <= j < e ==> !is_white_char(#[trigger] s[j]),
        e == s.len() || is_white_char(s[e]),
    ensures
        word_len(s) == e,
    decreases e,
{
    if e == 0 {
    } else {
        lemma_word_len_at(s.drop_first(), e - 1);
    }
}

/// Append the characters of `cs` from `a` (inclusive) to `b` (exclusive).
fn push_range(out: &mut Vec<char>, cs: &Vec<char>, a: usize, b: usize)
    requires
        a <= b <= cs@.len(),
    ensures
        final(out)@ == old(out)@ + cs@.subrange(a as int, b as int),
{
    let mut i: usize = a;
    while i < b
        invariant
            a <= i <= b <= cs@.len(),
            out@ =~= old(out)@ + cs@.subrange(a as int, i as int),
        decreases b - i,
    {
        out.push(cs[i]);
        proof {
            assert(old(out)@ + cs@.subrange(a as int, i + 1) =~= (old(out)@ + cs@.subrange(
                a as int,
                i as int,
            )).push(cs@[i as int]));
        }
        i = i + 1;
    }
}

/// Rewrite the word `cs[ws..we)` and append it.
#[verifier::loop_isolation(false)]
#[verifier::rlimit(60)]
fn push_pig_word(out: &mut Vec<char>, cs: &Vec<char>, ws: usize, we: usize)
    requires
        ws < we <= cs@.len(),
    ensures
        final(out)@ == old(out)@ + pig_word(cs@.subrange(ws as int, we as int)),
{
    let ghost w = cs@.subrange(ws as int, we as int);
    proof {
        lemma_punct_len_le(w);
    }
    // find where the trailing punctuation begins
    let mut pend: usize = we;
    while pend > ws && exec_is_ascii_punct(cs[pend - 1])
        invariant
            ws <= pend <= we,
            forall|j: int| pend <= j < we ==> is_ascii_punct(#[trigger] cs@[j]),
        decreases pend,
    {
        pend = pend - 1;
    }
    proof {
        assert forall|j: int| pend - ws <= j < w.len() implies is_ascii_punct(#[trigger] w[j]) by {
            assert(w[j] == cs@[ws + j]);
        }
        if pend > ws {
            assert(!is_ascii_punct(w[pend - ws - 1]));
        }
        lemma_punct_len_at(w, pend - ws);
        assert(w.take(pend - ws) =~= cs@.subrange(ws as int, pend as int));
        assert(w.skip(pend - ws) =~= cs@.subrange(pend as int, we as int));
    }
    let c = cs[ws];
    proof {
        assert(c == w[0]);
    }
    if exec_is_vowel_char(c) {
        push_range(out, cs, ws, pend);
        out.push('w');
        out.push('a');
        out.push('y');
        push_range(out, cs, pend, we);
        proof {
            assert(out@ =~= old(out)@ + pig_word(w));
        }
    } else {
        let upper = char_is_uppercase(c);
        let ghost core = w.take(pend - ws);
        let ghost rest0 = if core.len() >= 1 {
            core.drop_first()
        } else {
            Seq::<char>::empty()
        };
        proof {
            if pend > ws {
                assert(rest0 =~= cs@.subrange(ws + 1, pend as int));
            } else {
                assert(rest0 =~= cs@.subrange(ws + 1, ws + 1));
            }
        }
        if upper {
            // recapitalize the remainder, then the lowered first character
            if pend > ws + 1 {
                let mut up = char_to_uppercase(cs[ws + 1]);
                out.append(&mut up);
                push_range(out, cs, ws + 2, pend);
                proof {
                    assert(rest0[0] == cs@[ws + 1]);
                    assert(rest0.drop_first() =~= cs@.subrange(ws + 2, pend as int));
                    assert(out@ =~= old(out)@ + cap_first(rest0));
                }
            } else {
                proof {
                    assert(cap_first(rest0) =~= Seq::<char>::empty());
                    assert(out@ =~= old(out)@ + cap_first(rest0));
                }
            }
            out.push(exec_ascii_lower(c));
            out.push('a');
            out.push('y');
            push_range(out, cs, pend, we);
            proof {
                assert(out@ =~= old(out)@ + pig_word(w));
            }
        } else {
            if pend > ws {
                push_range(out, cs, ws + 1, pend);
            }
            out.push(c);
            out.push('a');
            out.push('y');
            push_range(out, cs, pend, we);
            proof {
                assert(out@ =~= old(out)@ + pig_word(w));
            }
        }
    }
}

/// Translate a text to pig latin, word by word, single spaces between.
pub fn eng_to_pig(eng: String) -> (r: String)
    ensures
        r@ == pig_latin_of(eng@),
{
    let cs = str_chars(eng.as_str());
    let ghost s = eng@;
    let n = cs.len();
    let mut out: Vec<char> = Vec::new();
    let mut started = false;
    let mut i: usize = 0;
    proof {
        assert(s.skip(0) =~= s);
        let m = split_ws(s).map_values(|w: Seq<char>| pig_word(w));
        if split_ws(s).len() == 0 {
            assert(m.len() == 0);
            assert(pig_latin_of(s) == Seq::<char>::empty());
        } else {
            assert(Seq::<char>::empty() + join_sp(m) =~= join_sp(m));
        }
    }
    while i < n
        invariant
            i <= n,
            n == s.len(),
            cs@ == s,
            !started ==> out@ =~= Seq::<char>::empty(),
            pig_latin_of(s) == out@ + (if split_ws(s.skip(i as int)).len() == 0 {
                Seq::<char>::empty()
            } else {
                (if started {
                    seq![' ']
                } else {
                    Seq::<char>::empty()
                }) + join_sp(split_ws(s.skip(i as int)).map_values(|w: Seq<char>| pig_word(w)))
            }),
        decreases n - i,
    {
        if char_is_whitespace(cs[i]) {
            proof {
                assert(s.skip(i as int).drop_first() =~= s.skip(i + 1));
            }
            i = i + 1;
        } else {
            // scan to the end of the word
            let ws = i;
            let mut we: usize = i;
            while we < n && !char_is_whitespace(cs[we])
                invariant
                    i <= we <= n,
                    n == s.len(),
                    cs@ == s,
                    ws == i,
                    forall|j: int| i <= j < we ==> !is_white_char(#[trigger] s[j]),
                decreases n - we,
            {
                we = we + 1;
            }
            let ghost w = s.subrange(ws as int, we as int);
            proof {
                let u = s.skip(ws as int);
                assert forall|j: int| 0 <= j < we - ws implies !is_white_char(#[trigger] u[j]) by {
                    assert(u[j] == s[ws + j]);
                }
                if we < n {
                    assert(u[we - ws] == s[we as int]);
                }
                lemma_word_len_at(u, we - ws);
                assert(word_len(u) <= u.len());
                lemma_punct_len_le(w);
                assert(u.take(we - ws) =~= w);
                assert(u.skip(we - ws) =~= s.skip(we as int));
                assert(split_ws(u) == seq![w] + split_ws(s.skip(we as int)));
            }
            let ghost pre = out@;
            let ghost was_started = started;
            if started {
                out.push(' ');
            }
            push_pig_word(&mut out, &cs, ws, we);
            started = true;
            proof {
                let f = |w2: Seq<char>| pig_word(w2);
                let rest = split_ws(s.skip(we as int));
                assert((seq![w] + rest).map_values(f) =~= seq![pig_word(w)] + rest.map_values(f));
                if rest.len() == 0 {
                    assert(join_sp(seq![pig_word(w)] + rest.map_values(f)) == pig_word(w)) by {
                        assert((seq![pig_word(w)] + rest.map_values(f)).len() == 1);
                        assert((seq![pig_word(w)] + rest.map_values(f))[0] == pig_word(w));
                    }
                } else {
                    let all = seq![pig_word(w)] + rest.map_values(f);
                    assert(all.len() >= 2);
                    assert(all[0] == pig_word(w));
                    assert(all.drop_first() =~= rest.map_values(f));
                    assert(join_sp(all) == pig_word(w) + seq![' '] + join_sp(rest.map_values(f)));
                }
                if was_started {
                    assert(out@ =~= (pre + seq![' ']) + pig_word(w));
                    assert(out@ =~= pre + (seq![' '] + pig_word(w)));
                } else {
                    assert(out@ =~= pre + pig_word(w));
                }
                assert(pig_latin_of(s) == out@ + (if rest.len() == 0 {
                    Seq::<char>::empty()
                } else {
                    seq![' '] + join_sp(rest.map_values(|w2: Seq<char>| pig_word(w2)))
                }));
            }
            i = we;
        }
    }
    proof {
        assert(s.skip(n as int) =~= Seq::<char>::empty());
        assert(split_ws(s.skip(n as int)).len() == 0);
        assert(pig_latin_of(s) == out@);
    }
    chars_to_string(&out)
}

/// The input with its first character replaced by that character's
/// uppercase mapping; an empty input stays empty.
pub fn capitalize_first_letter(input: &str) -> (r: String)
    ensures
        r@ == cap_first(input@),
{
    let cs = str_chars(input);
    if cs.len() == 0 {
        let r = String::new();
        proof {
            assert(r@ =~= cap_first(input@));
        }
        r
    } else {
        let mut out = char_to_uppercase(cs[0]);
        push_range(&mut out, &cs, 1, cs.len());
        proof {
            assert(cs@.subrange(1, cs@.len() as int) =~= input@.drop_first());
            assert(out@ =~= cap_first(input@));
        }
        chars_to_string(&out)
    }
}

} // verus!
