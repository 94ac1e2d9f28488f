//! The scalar schema of a training checkpoint: configuration scalars must
//! match exactly, mode flags (keys under `mode.`) may take either value.

use vstd::prelude::*;
use crate::text::{chars_of, chars_eq};

verus! {

/// A checkpoint's scalars do not fit the module's schema.
#[derive(Clone, Copy, Debug, PartialEq, Eq, Structural)]
pub struct SchemaMismatch;

impl SchemaMismatch {
    pub fn message(&self) -> (m: &'static str)
        ensures
            m@ == "Python module configuration/mode schema mismatch"@,
    {
        "Python module configuration/mode schema mismatch"
    }
}

/// Whether a scalar key names a mode flag.
pub open spec fn is_mode_key(k: Seq<char>) -> bool {
    k.len() >= 5 && k.take(5) == "mode."@
}

/// Whether the stored entry `(k, v)` satisfies the expected entry `(key, value)`.
pub open spec fn entry_fits(key: Seq<char>, value: u64, k: Seq<char>, v: u64) -> bool {
    k == key && if is_mode_key(key) {
        v <= 1
    } else {
        v == value
    }
}

/// Whether some entry of `state` satisfies the expected entry `e`.
pub open spec fn satisfied(e: (String, u64), state: Seq<(String, u64)>) -> bool {
    exists|j: int| 0 <= j < state.len() && #[trigger] entry_fits(e.0@, e.1, state[j].0@, state[j].1)
}

/// Whether `state` has as many entries as `expected` and every expected
/// entry is satisfied by some entry of `state`.
pub open spec fn scalars_fit(expected: Seq<(String, u64)>, state: Seq<(String, u64)>) -> bool {
    &&& state.len() == expected.len()
    &&& forall|i: int| 0 <= i < expected.len() ==> satisfied(#[trigger] expected[i], state)
}

fn is_mode(k: &Vec<char>) -> (b: bool)
    ensures
        b == is_mode_key(k@),
{
    proof {
        reveal_strlit("mode.");
    }
    let b = k.len() >= 5 && k[0] == 'm' && k[1] == 'o' && k[2] == 'd' && k[3] == 'e' && k[4] == '.';
    proof {
        if b {
            assert(k@.take(5) =~= "mode."@);
        } else if k@.len() >= 5 {
            if k@.take(5) == "mode."@ {
                assert(k@.take(5)[0] == 'm' && k@.take(5)[1] == 'o' && k@.take(5)[2] == 'd' && k@.take(5)[3] == 'e'
                    && k@.take(5)[4] == '.');
            }
        }
    }
    b
}

/// Checks a checkpoint's scalars against the module's: same number of
/// entries, and each expected entry found under its key with the same
/// value (any of 0 and 1 for a mode flag).
pub fn validate_scalars(expected: &Vec<(String, u64)>, state: &Vec<(String, u64)>) -> (r: Result<(), SchemaMismatch>)
    ensures
        r is Ok <==> scalars_fit(expected@, state@),
{
    if state.len() != expected.len() {
        return Err(SchemaMismatch);
    }
    let mut i: usize = 0;
    while i < expected.len()
        invariant
            i <= expected@.len(),
            state@.len() == expected@.len(),
            forall|q: int| 0 <= q < i ==> satisfied(#[trigger] expected@[q], state@),
        decreases expected@.len() - i,
    {
        let key = chars_of(expected[i].0.as_str());
        let value = expected[i].1;
        let mode = is_mode(&key);
        let mut found = false;
        let mut j: usize = 0;
        while j < state.len()
            invariant
                i < expected@.len(),
                key@ == expected@[i as int].0@,
                value == expected@[i as int].1,
                mode == is_mode_key(key@),
                j <= state@.len(),
                found <==> exists|q: int| 0 <= q < j && #[trigger] entry_fits(key@, value, state@[q].0@, state@[q].1),
            decreases state@.len() - j,
        {
            let k = chars_of(state[j].0.as_str());
            let v = state[j].1;
            let fits = chars_eq(k.as_slice(), key.as_slice()) && if mode {
                v <= 1
            } else {
                v == value
            };
            assert(fits == entry_fits(key@, value, state@[j as int].0@, state@[j as int].1));
            if fits {
                found = true;
            }
            j = j + 1;
        }
        if !found {
            assert(!satisfied(expected@[i as int], state@));
            return Err(SchemaMismatch);
        }
        assert(satisfied(expected@[i as int], state@));
        i = i + 1;
    }
    Ok(())
}

} // verus!
