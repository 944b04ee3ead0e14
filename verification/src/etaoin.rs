//! Letter frequency: count how often each character occurs in a text,
//! keyed by the character's code point.
use vstd::prelude::*;

use crate::strutil::str_chars;
use std::collections::HashMap;

verus! {

broadcast use vstd::std_specs::hash::group_hash_axioms;

/// How many characters of `s` have code point `c`.
pub open spec fn char_count(s: Seq<char>, c: u32) -> nat
    decreases s.len(),
{
    if s.len() == 0 {
        0
    } else {
        char_count(s.drop_last(), c) + (if s.last() as u32 == c {
            1nat
        } else {
            0nat
        })
    }
}

/// A character occurs at most as often as the text is long.
pub proof fn lemma_char_count_le(s: Seq<char>, c: u32)
    ensures
        char_count(s, c) <= s.len(),
    decreases s.len(),
{
    if s.len() > 0 {
        lemma_char_count_le(s.drop_last(), c);
    }
}

/// The frequency table of a text: exactly the code points that occur are
/// present, each mapped to its number of occurrences.
pub fn etaoin(text: String) -> (r: HashMap<u32, u64>)
    ensures
        forall|c: u32| #[trigger] r@.contains_key(c) <==> char_count(text@, c) > 0,
        forall|c: u32| #[trigger] r@.contains_key(c) ==> r@[c] == char_count(text@, c),
{
    let cs = str_chars(text.as_str());
    let mut m: HashMap<u32, u64> = HashMap::new();
    let n = cs.len();
    let mut i: usize = 0;
    proof {
        assert(text@.take(0) =~= Seq::<char>::empty());
    }
    while i < n
        invariant
            i <= n,
            n == cs@.len(),
            cs@ == text@,
            forall|c: u32| #[trigger] m@.contains_key(c) <==> char_count(
                text@.take(i as int),
                c,
            ) > 0,
            forall|c: u32| #[trigger] m@.contains_key(c) ==> m@[c] == char_count(
                text@.take(i as int),
                c,
            ),
        decreases n - i,
    {
        let key = cs[i] as u32;
        let ghost pre = text@.take(i as int);
        proof {
            lemma_char_count_le(pre, key);
            assert(text@.take(i + 1) =~= pre.push(text@[i as int]));
            assert(text@.take(i + 1).drop_last() =~= pre);
        }
        let newval: u64 = match m.get(&key) {
            Some(v) => *v + 1,
            None => 1,
        };
        m.insert(key, newval);
        proof {
            let post = text@.take(i + 1);
            let x = text@[i as int];
            assert forall|c: u32| #[trigger] char_count(post, c) == char_count(pre, c) + (if x
                as u32 == c {
                1nat
            } else {
                0nat
            }) by {
                assert(post.last() == text@[i as int]);
            }
        }
        i = i + 1;
    }
    proof {
        assert(text@.take(n as int) =~= text@);
    }
    m
}

} // verus!
