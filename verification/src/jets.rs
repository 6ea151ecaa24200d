//! The acceleration boundary: each jet receives a tree-encoded call whose
//! argument sits at axis six of the subject, marshals it to a native array,
//! runs the native permutation or hash, and marshals the result back. The
//! contract of each jet is exact — its result is the canonical encoding of
//! the reference function of the decoded argument, and every marshalling
//! failure surfaces as the typed error met first, never as a fallback
//! value — so the accelerated path is indistinguishable from the slow one.

use vstd::prelude::*;
use crate::error::Error;
use crate::permutation::{
    all_below_prime, lemma_permute_spec_len, permute, permute_spec,
};
use crate::sponge::{hash10, hash10_spec};
use crate::tree::{
    TreeValue, decode_chain, decode_list, encode_chain, lemma_decode_chain_len,
    lemma_decode_encode_round_trip, slot, slot_spec, vec_to_hoon_list,
};

verus! {

/// The axis of the argument within a jet's subject.
pub const SAMPLE_AXIS: u64 = 6;

/// Decodes a chain of sixteen words into a permutation state.
pub fn hoon_list_to_sponge(list: &TreeValue) -> (r: Result<[u64; 16], Error>)
    ensures
        match r {
            Ok(a) => decode_chain(*list, 16) matches Ok(s) && a@ == s,
            Err(e) => decode_chain(*list, 16) == Err::<Seq<u64>, Error>(e),
        },
{
    match decode_list(list, 16) {
        Err(e) => Err(e),
        Ok(v) => {
            let mut arr: [u64; 16] = [0u64; 16];
            let mut i: usize = 0;
            while i < 16
                invariant
                    i <= 16,
                    v@.len() == 16,
                    forall|j: int| 0 <= j < i ==> arr@[j] == v@[j],
                decreases 16 - i,
            {
                arr[i] = v[i];
                i = i + 1;
            }
            proof {
                assert(arr@ =~= v@);
            }
            Ok(arr)
        }
    }
}

/// Decodes a chain of ten words into a hash input.
pub fn hoon_list_to_hash10_input(list: &TreeValue) -> (r: Result<[u64; 10], Error>)
    ensures
        match r {
            Ok(a) => decode_chain(*list, 10) matches Ok(s) && a@ == s,
            Err(e) => decode_chain(*list, 10) == Err::<Seq<u64>, Error>(e),
        },
{
    match decode_list(list, 10) {
        Err(e) => Err(e),
        Ok(v) => {
            let mut arr: [u64; 10] = [0u64; 10];
            let mut i: usize = 0;
            while i < 10
                invariant
                    i <= 10,
                    v@.len() == 10,
                    forall|j: int| 0 <= j < i ==> arr@[j] == v@[j],
                decreases 10 - i,
            {
                arr[i] = v[i];
                i = i + 1;
            }
            proof {
                assert(arr@ =~= v@);
            }
            Ok(arr)
        }
    }
}

/// What the permutation jet returns for a given subject: the canonical
/// encoding of the permuted sixteen-word sample, or the first marshalling
/// failure.
pub open spec fn permutation_jet_spec(subject: TreeValue) -> Result<TreeValue, Error> {
    match slot_spec(subject, SAMPLE_AXIS as nat) {
        Err(e) => Err(e),
        Ok(sample) => match decode_chain(sample, 16) {
            Err(e) => Err(e),
            Ok(s) => Ok(encode_chain(permute_spec(s))),
        },
    }
}

/// The accelerated permutation call: decodes the sample at axis six, runs
/// the permutation, and encodes the new state.
pub fn permutation_jet(subject: &TreeValue) -> (r: Result<TreeValue, Error>)
    ensures
        r == permutation_jet_spec(*subject),
{
    let sample: &TreeValue = match slot(subject, SAMPLE_AXIS) {
        Err(e) => {
            return Err(e);
        }
        Ok(s) => s,
    };
    let mut sponge: [u64; 16] = match hoon_list_to_sponge(sample) {
        Err(e) => {
            return Err(e);
        }
        Ok(a) => a,
    };
    permute(&mut sponge);
    Ok(vec_to_hoon_list(sponge.as_slice()))
}

/// What the hash jet returns for a given subject: the canonical encoding
/// of the five-word digest of the ten-word sample, `OutOfRange` when any
/// sample word escapes the field, or the first marshalling failure.
pub open spec fn hash_10_jet_spec(subject: TreeValue) -> Result<TreeValue, Error> {
    match slot_spec(subject, SAMPLE_AXIS as nat) {
        Err(e) => Err(e),
        Ok(sample) => match decode_chain(sample, 10) {
            Err(e) => Err(e),
            Ok(s) => if all_below_prime(s) {
                Ok(encode_chain(hash10_spec(s)))
            } else {
                Err(Error::OutOfRange)
            },
        },
    }
}

/// The accelerated hash call: decodes the sample at axis six, hashes it,
/// and encodes the digest.
pub fn hash_10_jet(subject: &TreeValue) -> (r: Result<TreeValue, Error>)
    ensures
        r == hash_10_jet_spec(*subject),
{
    let sample: &TreeValue = match slot(subject, SAMPLE_AXIS) {
        Err(e) => {
            return Err(e);
        }
        Ok(s) => s,
    };
    let input: [u64; 10] = match hoon_list_to_hash10_input(sample) {
        Err(e) => {
            return Err(e);
        }
        Ok(a) => a,
    };
    match hash10(&input) {
        Err(e) => Err(e),
        Ok(digest) => Ok(vec_to_hoon_list(digest.as_slice())),
    }
}

/// Parity of the accelerated permutation with the reference path: whenever
/// the sample at axis six decodes to a sixteen-word state, the jet returns
/// the encoding of exactly the reference permutation of that state, and
/// decoding the jet's answer gives that permuted state word for word.
pub proof fn lemma_permutation_jet_parity(subject: TreeValue, sample: TreeValue, s: Seq<u64>)
    requires
        slot_spec(subject, SAMPLE_AXIS as nat) == Ok::<TreeValue, Error>(sample),
        decode_chain(sample, 16) == Ok::<Seq<u64>, Error>(s),
    ensures
        permutation_jet_spec(subject) == Ok::<TreeValue, Error>(encode_chain(permute_spec(s))),
        decode_chain(encode_chain(permute_spec(s)), 16)
            == Ok::<Seq<u64>, Error>(permute_spec(s)),
{
    lemma_decode_chain_len(sample, 16);
    lemma_permute_spec_len(s);
    lemma_decode_encode_round_trip(permute_spec(s));
}

/// Parity of the accelerated hash with the reference path: whenever the
/// sample at axis six decodes to ten field-range words, the jet returns
/// the encoding of exactly the reference digest, and decoding the jet's
/// answer gives that digest word for word.
pub proof fn lemma_hash_10_jet_parity(subject: TreeValue, sample: TreeValue, s: Seq<u64>)
    requires
        slot_spec(subject, SAMPLE_AXIS as nat) == Ok::<TreeValue, Error>(sample),
        decode_chain(sample, 10) == Ok::<Seq<u64>, Error>(s),
        all_below_prime(s),
    ensures
        hash_10_jet_spec(subject) == Ok::<TreeValue, Error>(encode_chain(hash10_spec(s))),
        decode_chain(encode_chain(hash10_spec(s)), 5)
            == Ok::<Seq<u64>, Error>(hash10_spec(s)),
{
    lemma_decode_encode_round_trip(hash10_spec(s));
}

} // verus!
