//! The sponge hash built on the permutation: exactly ten field elements in,
//! five out. The input fills the rate segment of the state in Montgomery
//! form; the capacity segment is initialized to the Montgomery form of one,
//! the domain-separation constant of this fixed-input-length mode. One
//! permutation call then produces the digest, read back out of Montgomery
//! form. Words at or above the field's modulus are rejected, never reduced.

use vstd::prelude::*;
use crate::error::Error;
use crate::field::{PRIME, montify_spec, mont_reduction_spec, montify, mont_reduction};
use crate::permutation::{STATE_SIZE, all_below_prime, permute_spec, permute};

verus! {

/// Words of state directly filled by the input.
pub const RATE: usize = 10;

/// Words of state never directly touched by input or output.
pub const CAPACITY: usize = 6;

/// Words of digest squeezed out of the state.
pub const DIGEST_LENGTH: usize = 5;

/// The rate and capacity segments tile the whole state.
pub proof fn lemma_state_split()
    ensures
        RATE + CAPACITY == STATE_SIZE,
{
}

/// The initial state of the fixed-length mode: a zero rate segment, and
/// every capacity word the Montgomery form of one.
pub open spec fn init_state_spec() -> Seq<u64> {
    Seq::new(STATE_SIZE as nat, |i: int| if i < RATE { 0u64 } else { montify_spec(1) as u64 })
}

/// The state after absorbing an input of ten field elements: the input in
/// Montgomery form fills the rate segment; the capacity segment keeps its
/// domain-separation value.
pub open spec fn absorbed_state_spec(input: Seq<u64>) -> Seq<u64> {
    Seq::new(
        STATE_SIZE as nat,
        |i: int| if i < RATE { montify_spec(input[i] as int) as u64 } else {
            montify_spec(1) as u64
        },
    )
}

/// The digest of a ten-word input: the first five words of the permuted
/// absorbed state, carried back out of Montgomery form.
pub open spec fn hash10_spec(input: Seq<u64>) -> Seq<u64> {
    Seq::new(
        DIGEST_LENGTH as nat,
        |i: int| mont_reduction_spec(permute_spec(absorbed_state_spec(input))[i] as int) as u64,
    )
}

/// Builds the initial sponge state of the fixed-length mode.
pub fn init_tip5_state_fixed() -> (r: [u64; 16])
    ensures
        r@ == init_state_spec(),
{
    let mut state: [u64; 16] = [0u64; 16];
    let montified_one: u64 = montify(1);
    let mut i: usize = RATE;
    while i < 16
        invariant
            RATE <= i <= 16,
            montified_one == montify_spec(1),
            forall|j: int| 0 <= j < RATE ==> state@[j] == 0u64,
            forall|j: int| RATE <= j < i ==> state@[j] == montified_one,
        decreases 16 - i,
    {
        state[i] = montified_one;
        i = i + 1;
    }
    proof {
        assert(state@ =~= init_state_spec());
    }
    state
}

/// Hashes ten field elements into five. Returns the digest exactly when
/// every input word lies in `[0, PRIME)`; any word at or above the modulus
/// is rejected with `OutOfRange` before anything is computed.
pub fn hash10(input: &[u64; 10]) -> (r: Result<[u64; 5], Error>)
    ensures
        all_below_prime(input@) ==> (r matches Ok(d) && d@ == hash10_spec(input@)
            && all_below_prime(d@)),
        !all_below_prime(input@) ==> r == Err::<[u64; 5], Error>(Error::OutOfRange),
{
    let mut i: usize = 0;
    while i < 10
        invariant
            i <= 10,
            forall|j: int| 0 <= j < i ==> input@[j] < PRIME,
        decreases 10 - i,
    {
        if input[i] >= PRIME {
            return Err(Error::OutOfRange);
        }
        i = i + 1;
    }
    let mut sponge: [u64; 16] = init_tip5_state_fixed();
    let mut i: usize = 0;
    while i < 10
        invariant
            i <= 10,
            all_below_prime(input@),
            forall|j: int| 0 <= j < i ==> sponge@[j] == absorbed_state_spec(input@)[j],
            forall|j: int| i <= j < 16 ==> sponge@[j] == init_state_spec()[j],
        decreases 10 - i,
    {
        sponge[i] = montify(input[i]);
        i = i + 1;
    }
    proof {
        assert(sponge@ =~= absorbed_state_spec(input@));
    }
    permute(&mut sponge);
    let mut digest: [u64; 5] = [0u64; 5];
    let mut i: usize = 0;
    while i < 5
        invariant
            i <= 5,
            all_below_prime(input@),
            sponge@ == permute_spec(absorbed_state_spec(input@)),
            all_below_prime(sponge@),
            forall|j: int| 0 <= j < i ==> digest@[j] == hash10_spec(input@)[j],
            forall|j: int| 0 <= j < i ==> digest@[j] < PRIME,
        decreases 5 - i,
    {
        digest[i] = mont_reduction(sponge[i]);
        i = i + 1;
    }
    proof {
        assert(digest@ =~= hash10_spec(input@));
    }
    Ok(digest)
}

} // verus!
