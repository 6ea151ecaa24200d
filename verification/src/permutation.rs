//! The fixed-width permutation at the heart of the primitive: a 16-word
//! state is first reduced into the field, then sent through a fixed number
//! of rounds, each an S-box layer (every word raised to a fixed odd power),
//! a linear mixing layer (a circulant matrix whose row is a fixed list of
//! small primes), and the addition of per-round constants derived from a
//! fixed multiplier. Round count, matrix and constants are constants of the
//! primitive and never vary by caller.

use vstd::prelude::*;
use vstd::arithmetic::div_mod::lemma_small_mod;
use crate::field::{PRIME, add_mod, mul_mod, pow_mod, badd, bmul, bpow};

verus! {

/// Width of the permutation state, in field elements.
pub const STATE_SIZE: usize = 16;

/// Number of rounds of the permutation.
pub const NUM_ROUNDS: usize = 7;

/// Exponent of the S-box power map; coprime to `PRIME - 1`, so the map is a
/// bijection of the field.
pub const SBOX_EXPONENT: u64 = 7;

/// Multiplier from which the round constants are derived.
pub const ROUND_CONSTANT_SCALE: u64 = 2654435769;

/// First row of the circulant mixing matrix; row `i` is this row rotated
/// left by `i` places.
pub const MIX_ROW: [u64; 16] = [2, 3, 5, 7, 11, 13, 17, 19, 23, 29, 31, 37, 41, 43, 47, 53];

/// Every word of the sequence is a canonical field element.
pub open spec fn all_below_prime(s: Seq<u64>) -> bool {
    forall|i: int| 0 <= i < s.len() ==> s[i] < PRIME
}

/// Each word reduced to its canonical field representative.
pub open spec fn reduce_words(s: Seq<u64>) -> Seq<u64> {
    Seq::new(s.len(), |i: int| (s[i] % PRIME) as u64)
}

/// The S-box applied to one word.
pub open spec fn sbox_spec(x: int) -> int {
    pow_mod(x, SBOX_EXPONENT as nat)
}

/// The S-box layer: the power map applied to every word independently.
pub open spec fn sbox_layer_spec(s: Seq<u64>) -> Seq<u64> {
    Seq::new(s.len(), |i: int| sbox_spec(s[i] as int) as u64)
}

/// Partial dot product of mixing row and rotated state: the first `k` terms
/// of output word `i`, accumulated in the field.
pub open spec fn mix_term(s: Seq<u64>, i: int, k: nat) -> int
    decreases k,
{
    if k == 0 {
        0
    } else {
        add_mod(
            mix_term(s, i, (k - 1) as nat),
            mul_mod(MIX_ROW[k - 1] as int, s[(i + k - 1) % 16] as int),
        )
    }
}

/// The linear layer: every output word mixes all sixteen input words.
pub open spec fn linear_layer_spec(s: Seq<u64>) -> Seq<u64> {
    Seq::new(s.len(), |i: int| mix_term(s, i, 16) as u64)
}

/// The constant added to word `i` in round `r`.
pub open spec fn round_constant(r: int, i: int) -> int {
    ((ROUND_CONSTANT_SCALE as int) * (16 * r + i + 1)) % (PRIME as int)
}

/// The round-constant layer of round `r`.
pub open spec fn add_round_constants_spec(s: Seq<u64>, r: int) -> Seq<u64> {
    Seq::new(s.len(), |i: int| add_mod(s[i] as int, round_constant(r, i)) as u64)
}

/// One full round: S-box, linear mix, round constants.
pub open spec fn round_spec(s: Seq<u64>, r: int) -> Seq<u64> {
    add_round_constants_spec(linear_layer_spec(sbox_layer_spec(s)), r)
}

/// The first `n` rounds applied in order.
pub open spec fn rounds_spec(s: Seq<u64>, n: nat) -> Seq<u64>
    decreases n,
{
    if n == 0 {
        s
    } else {
        round_spec(rounds_spec(s, (n - 1) as nat), n - 1)
    }
}

/// The whole permutation: reduction into the field, then every round.
pub open spec fn permute_spec(s: Seq<u64>) -> Seq<u64> {
    rounds_spec(reduce_words(s), NUM_ROUNDS as nat)
}

/// Any number of rounds preserves the width of the state.
pub proof fn lemma_rounds_spec_len(s: Seq<u64>, n: nat)
    ensures
        rounds_spec(s, n).len() == s.len(),
    decreases n,
{
    if n > 0 {
        lemma_rounds_spec_len(s, (n - 1) as nat);
    }
}

/// The permutation preserves the width of the state.
pub proof fn lemma_permute_spec_len(s: Seq<u64>)
    ensures
        permute_spec(s).len() == s.len(),
{
    lemma_rounds_spec_len(reduce_words(s), NUM_ROUNDS as nat);
}

/// Reducing a sequence of canonical field elements changes nothing.
pub proof fn lemma_reduce_words_identity(s: Seq<u64>)
    requires
        all_below_prime(s),
    ensures
        reduce_words(s) == s,
{
    assert forall|i: int| 0 <= i < s.len() implies reduce_words(s)[i] == s[i] by {
        lemma_small_mod(s[i] as nat, PRIME as nat);
    }
    assert(reduce_words(s) =~= s);
}

/// The S-box layer, on a state of arbitrary machine words: each word is
/// reduced into the field and raised to the fixed power.
pub fn sbox_layer(state: &[u64; 16]) -> (r: [u64; 16])
    ensures
        r@ == sbox_layer_spec(reduce_words(state@)),
        all_below_prime(r@),
{
    let mut out: [u64; 16] = [0u64; 16];
    let mut i: usize = 0;
    while i < 16
        invariant
            i <= 16,
            forall|j: int| 0 <= j < i ==> out@[j] == sbox_layer_spec(reduce_words(state@))[j],
            forall|j: int| 0 <= j < i ==> out@[j] < PRIME,
        decreases 16 - i,
    {
        out[i] = bpow(state[i] % PRIME, SBOX_EXPONENT);
        i = i + 1;
    }
    proof {
        assert(out@ =~= sbox_layer_spec(reduce_words(state@)));
    }
    out
}

/// The linear mixing layer, on a state of arbitrary machine words: each
/// word is reduced into the field, then every output word is the dot
/// product of the mixing row with a rotation of the state.
pub fn linear_layer(state: &[u64; 16]) -> (r: [u64; 16])
    ensures
        r@ == linear_layer_spec(reduce_words(state@)),
        all_below_prime(r@),
{
    let mut reduced: [u64; 16] = [0u64; 16];
    let mut i: usize = 0;
    while i < 16
        invariant
            i <= 16,
            forall|j: int| 0 <= j < i ==> reduced@[j] == reduce_words(state@)[j],
            forall|j: int| 0 <= j < i ==> reduced@[j] < PRIME,
        decreases 16 - i,
    {
        reduced[i] = state[i] % PRIME;
        i = i + 1;
    }
    proof {
        assert(reduced@ =~= reduce_words(state@));
    }
    let mut out: [u64; 16] = [0u64; 16];
    let mut i: usize = 0;
    while i < 16
        invariant
            i <= 16,
            reduced@ == reduce_words(state@),
            all_below_prime(reduced@),
            forall|j: int| 0 <= j < i ==> out@[j] == linear_layer_spec(reduced@)[j],
            forall|j: int| 0 <= j < i ==> out@[j] < PRIME,
        decreases 16 - i,
    {
        let mut acc: u64 = 0;
        let mut k: usize = 0;
        while k < 16
            invariant
                i < 16,
                k <= 16,
                reduced@.len() == 16,
                all_below_prime(reduced@),
                acc == mix_term(reduced@, i as int, k as nat),
                acc < PRIME,
            decreases 16 - k,
        {
            let term: u64 = bmul(MIX_ROW[k], reduced[(i + k) % 16]);
            acc = badd(acc, term);
            k = k + 1;
        }
        out[i] = acc;
        i = i + 1;
    }
    proof {
        assert(out@ =~= linear_layer_spec(reduced@));
    }
    out
}

/// The constant added to word `i` of the state in round `r`.
fn round_constant_word(r: usize, i: usize) -> (c: u64)
    requires
        r < NUM_ROUNDS,
        i < STATE_SIZE,
    ensures
        c == round_constant(r as int, i as int),
        c < PRIME,
{
    let index: u64 = (16 * r + i + 1) as u64;
    (ROUND_CONSTANT_SCALE * index) % PRIME
}

/// The permutation: transforms the 16-word state in place, deterministically
/// and with no side effects; the result is `permute_spec` of the input, a
/// state of canonical field elements.
pub fn permute(state: &mut [u64; 16])
    ensures
        final(state)@ == permute_spec(old(state)@),
        all_below_prime(final(state)@),
{
    let ghost s0: Seq<u64> = reduce_words(old(state)@);
    let mut i: usize = 0;
    while i < 16
        invariant
            i <= 16,
            s0 == reduce_words(old(state)@),
            forall|j: int| i <= j < 16 ==> state@[j] == old(state)@[j],
            forall|j: int| 0 <= j < i ==> state@[j] == s0[j],
        decreases 16 - i,
    {
        state[i] = state[i] % PRIME;
        i = i + 1;
    }
    proof {
        assert(state@ =~= s0);
    }
    let mut r: usize = 0;
    while r < NUM_ROUNDS
        invariant
            r <= NUM_ROUNDS,
            s0 == reduce_words(old(state)@),
            state@ == rounds_spec(s0, r as nat),
            all_below_prime(state@),
        decreases NUM_ROUNDS - r,
    {
        let ghost before: Seq<u64> = state@;
        let after_sbox: [u64; 16] = sbox_layer(state);
        proof {
            lemma_reduce_words_identity(before);
        }
        let after_mix: [u64; 16] = linear_layer(&after_sbox);
        proof {
            lemma_reduce_words_identity(after_sbox@);
        }
        let mut i: usize = 0;
        while i < 16
            invariant
                i <= 16,
                r < NUM_ROUNDS,
                after_mix@ == linear_layer_spec(sbox_layer_spec(before)),
                all_below_prime(after_mix@),
                forall|j: int| 0 <= j < i ==> state@[j] == round_spec(before, r as int)[j],
            decreases 16 - i,
        {
            let c: u64 = round_constant_word(r, i);
            state[i] = badd(after_mix[i], c);
            i = i + 1;
        }
        proof {
            assert(state@ =~= round_spec(before, r as int));
        }
        r = r + 1;
    }
}

} // verus!
