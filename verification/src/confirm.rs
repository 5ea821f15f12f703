use vstd::prelude::*;

use crate::text::{trim, trim_spec};

verus! {

/// True exactly when a prompt answer is affirmative: after removing
/// surrounding whitespace it is the single letter `y`, in either case.
pub open spec fn is_affirmative_spec(s: Seq<char>) -> bool {
    trim_spec(s) == seq!['y'] || trim_spec(s) == seq!['Y']
}

/// Decides whether a prompt answer is affirmative.
pub fn is_affirmative(s: &[char]) -> (r: bool)
    ensures
        r == is_affirmative_spec(s@),
{
    let t = trim(s);
    if t.len() == 1 {
        let c = t[0];
        proof {
            assert(t@ =~= seq![t@[0]]);
        }
        c == 'y' || c == 'Y'
    } else {
        false
    }
}

} // verus!
