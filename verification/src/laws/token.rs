//! Which tokens follow one another.

use crate::token::advanced;
use vstd::prelude::*;

verus! {

/// The next token is the sum, and when that is larger than the largest token, counting goes on from
/// zero.
pub proof fn lemma_next_token(token: usize, step: usize)
    ensures
        advanced(token, step as int) == if token + step <= usize::MAX {
            token + step
        } else {
            token + step - usize::MAX - 1
        },
{
    let m = usize::MAX + 1;
    if token + step <= usize::MAX {
        vstd::arithmetic::div_mod::lemma_small_mod((token + step) as nat, m as nat);
    } else {
        vstd::arithmetic::div_mod::lemma_mod_add_multiples_vanish(token + step - m, m);
        vstd::arithmetic::div_mod::lemma_small_mod((token + step - m) as nat, m as nat);
    }
}

} // verus!
