//! Pseudonym generation: a random first name and a random last name from
//! two pools, with a fixed fallback when either pool is empty.
use vstd::prelude::*;

use rand::seq::IndexedRandom;
use vstd::string::StringExecFns;

verus! {

/// Two pools of name parts to draw from.
pub struct Pseudonym {
    pub last_names: Vec<String>,
    pub first_names: Vec<String>,
}

/// Relies on rand's `IndexedRandom::choose` with the thread-local
/// generator: `Some` exactly when the slice is non-empty, and then one of
/// its elements; which one is up to chance.
#[verifier::external_body]
fn choose_name<'a>(v: &'a Vec<String>) -> (r: Option<&'a String>)
    ensures
        match r {
            Some(s) => v@.len() > 0 && exists|i: int| 0 <= i < v@.len() && v@[i] == *s,
            None => v@.len() == 0,
        },
{
    v.as_slice().choose(&mut rand::rng())
}

impl Pseudonym {
    /// Draw a full name: some first name from the one pool and some last
    /// name from the other, space-separated — or the fixed fallback when
    /// either pool is empty.
    pub fn generate(self) -> (r: String)
        ensures
            (self.first_names@.len() == 0 || self.last_names@.len() == 0) ==> r@ == "McLovin"@,
            (self.first_names@.len() > 0 && self.last_names@.len() > 0) ==> exists|i: int, j: int|
                0 <= i < self.first_names@.len() && 0 <= j < self.last_names@.len() && r@
                    == #[trigger] self.first_names@[i]@ + " "@ + #[trigger] self.last_names@[j]@,
    {
        let first = choose_name(&self.first_names);
        let last = choose_name(&self.last_names);
        match (first, last) {
            (Some(f), Some(l)) => {
                let mut r = f.clone();
                r.append(" ");
                r.append(l.as_str());
                proof {
                    let i = choose|i: int|
                        0 <= i < self.first_names@.len() && self.first_names@[i] == *f;
                    let j = choose|j: int|
                        0 <= j < self.last_names@.len() && self.last_names@[j] == *l;
                    assert(r@ == self.first_names@[i]@ + " "@ + self.last_names@[j]@);
                }
                r
            },
            _ => String::from_str("McLovin"),
        }
    }
}

} // verus!
