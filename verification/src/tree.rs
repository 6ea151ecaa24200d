//! The tree-value interchange format and its marshalling to native arrays.
//! A tree value is either a leaf holding an unsigned word or an ordered
//! pair of two tree values. A sequence of `n` words travels as a
//! right-nested chain of pairs whose elements are leaves, terminated by the
//! zero leaf. Decoding walks that chain and fails in a typed way on any
//! malformed shape; encoding builds the canonical chain, and the two are
//! exact inverses. Leaves hold machine words: a caller whose integers are
//! wider converts them before building a tree, so magnitudes beyond one
//! word lie outside this model.

use vstd::prelude::*;
use crate::error::Error;

verus! {

/// A caller-owned tree value: a leaf word, or an ordered pair.
pub enum TreeValue {
    Leaf(u64),
    Pair(Box<TreeValue>, Box<TreeValue>),
}

/// What decoding a chain of declared arity `n` yields: the `n` elements in
/// order, or the first failure met walking the chain front to back.
/// `ShapeMismatch` names a node of the wrong kind: a leaf standing where
/// the chain itself was expected (the root, when elements are owed), or a
/// pair standing as an element. `ArityMismatch` names a chain whose element
/// count cannot match the declared arity: the chain ends in a leaf before
/// `n` elements, a pair stands where the terminator belongs, or the
/// terminator leaf is not zero.
pub open spec fn decode_chain(t: TreeValue, n: nat) -> Result<Seq<u64>, Error> {
    if n > 0 && t is Leaf {
        Err(Error::ShapeMismatch)
    } else {
        decode_elements(t, n)
    }
}

/// The walk below the root: a leaf met while elements remain terminates
/// the chain short of the declared arity, a count failure.
pub open spec fn decode_elements(t: TreeValue, n: nat) -> Result<Seq<u64>, Error>
    decreases t,
{
    match t {
        TreeValue::Leaf(v) => if n == 0 && v == 0 {
            Ok(Seq::empty())
        } else {
            Err(Error::ArityMismatch)
        },
        TreeValue::Pair(head, rest) => if n == 0 {
            Err(Error::ArityMismatch)
        } else {
            match *head {
                TreeValue::Pair(_, _) => Err(Error::ShapeMismatch),
                TreeValue::Leaf(x) => match decode_elements(*rest, (n - 1) as nat) {
                    Ok(s) => Ok(seq![x] + s),
                    Err(e) => Err(e),
                },
            }
        },
    }
}

/// The canonical chain carrying the words of `s` in order.
pub open spec fn encode_chain(s: Seq<u64>) -> TreeValue
    decreases s.len(),
{
    if s.len() == 0 {
        TreeValue::Leaf(0)
    } else {
        TreeValue::Pair(Box::new(TreeValue::Leaf(s[0])), Box::new(encode_chain(s.drop_first())))
    }
}

/// A successful walk of arity `n` yields exactly `n` words.
pub proof fn lemma_decode_elements_len(t: TreeValue, n: nat)
    requires
        decode_elements(t, n) is Ok,
    ensures
        decode_elements(t, n)->Ok_0.len() == n,
    decreases t,
{
    match t {
        TreeValue::Leaf(_) => {
        }
        TreeValue::Pair(head, rest) => {
            if n > 0 {
                match *head {
                    TreeValue::Leaf(_) => {
                        lemma_decode_elements_len(*rest, (n - 1) as nat);
                    }
                    TreeValue::Pair(_, _) => {
                    }
                }
            }
        }
    }
}

/// A successful decode of arity `n` yields exactly `n` words.
pub proof fn lemma_decode_chain_len(t: TreeValue, n: nat)
    requires
        decode_chain(t, n) is Ok,
    ensures
        decode_chain(t, n)->Ok_0.len() == n,
{
    lemma_decode_elements_len(t, n);
}

/// The walk below the root inverts encoding.
proof fn lemma_decode_elements_encode(s: Seq<u64>)
    ensures
        decode_elements(encode_chain(s), s.len()) == Ok::<Seq<u64>, Error>(s),
    decreases s.len(),
{
    if s.len() == 0 {
        assert(s =~= Seq::<u64>::empty());
    } else {
        lemma_decode_elements_encode(s.drop_first());
        assert(seq![s[0]] + s.drop_first() =~= s);
    }
}

/// Round trip: decoding the canonical chain of any word sequence, at the
/// sequence's own length, returns that sequence unchanged.
pub proof fn lemma_decode_encode_round_trip(s: Seq<u64>)
    ensures
        decode_chain(encode_chain(s), s.len()) == Ok::<Seq<u64>, Error>(s),
{
    lemma_decode_elements_encode(s);
}

/// The walk below the root pins the tree it succeeded on.
proof fn lemma_decode_elements_pins(t: TreeValue, n: nat)
    requires
        decode_elements(t, n) is Ok,
    ensures
        t == encode_chain(decode_elements(t, n)->Ok_0),
    decreases t,
{
    match t {
        TreeValue::Leaf(_) => {
            assert(decode_elements(t, n)->Ok_0 =~= Seq::<u64>::empty());
        }
        TreeValue::Pair(head, rest) => {
            match *head {
                TreeValue::Leaf(x) => {
                    lemma_decode_elements_pins(*rest, (n - 1) as nat);
                    let s_rest = decode_elements(*rest, (n - 1) as nat)->Ok_0;
                    let s = decode_elements(t, n)->Ok_0;
                    assert(s == seq![x] + s_rest);
                    lemma_decode_elements_len(*rest, (n - 1) as nat);
                    assert(s.drop_first() =~= s_rest);
                    assert(s[0] == x);
                }
                TreeValue::Pair(_, _) => {
                }
            }
        }
    }
}

/// Decoding pins the tree: any chain that decodes to `s` is the canonical
/// chain of `s`, so equal decoded values mean equal trees.
pub proof fn lemma_decode_pins_tree(t: TreeValue, n: nat)
    requires
        decode_chain(t, n) is Ok,
    ensures
        t == encode_chain(decode_chain(t, n)->Ok_0),
{
    lemma_decode_elements_pins(t, n);
}

/// Walks the chain front to back, appending each element to `out`; on
/// failure `out` is abandoned by the callers.
fn decode_into(t: &TreeValue, n: usize, out: &mut Vec<u64>) -> (r: Result<(), Error>)
    ensures
        match r {
            Ok(_) => decode_elements(*t, n as nat) matches Ok(s) && final(out)@ == old(out)@ + s,
            Err(e) => decode_elements(*t, n as nat) == Err::<Seq<u64>, Error>(e),
        },
    decreases *t,
{
    match t {
        TreeValue::Leaf(v) => {
            if n == 0 && *v == 0 {
                proof {
                    assert(out@ =~= out@ + Seq::<u64>::empty());
                }
                Ok(())
            } else {
                Err(Error::ArityMismatch)
            }
        }
        TreeValue::Pair(head, rest) => {
            if n == 0 {
                Err(Error::ArityMismatch)
            } else {
                match &**head {
                    TreeValue::Pair(_, _) => Err(Error::ShapeMismatch),
                    TreeValue::Leaf(x) => {
                        let ghost before: Seq<u64> = out@;
                        out.push(*x);
                        let r = decode_into(rest, n - 1, out);
                        proof {
                            if r is Ok {
                                let s_rest = decode_elements(**rest, (n - 1) as nat)->Ok_0;
                                assert(before.push(*x) + s_rest =~= before + (seq![*x] + s_rest));
                            }
                        }
                        r
                    }
                }
            }
        }
    }
}

/// Decodes a chain of declared arity `n` into a vector of its `n` words.
pub fn decode_list(t: &TreeValue, n: usize) -> (r: Result<Vec<u64>, Error>)
    ensures
        match r {
            Ok(v) => decode_chain(*t, n as nat) matches Ok(s) && v@ == s && v@.len() == n,
            Err(e) => decode_chain(*t, n as nat) == Err::<Seq<u64>, Error>(e),
        },
{
    if n > 0 {
        match t {
            TreeValue::Leaf(_) => {
                return Err(Error::ShapeMismatch);
            }
            TreeValue::Pair(_, _) => {
            }
        }
    }
    let mut out: Vec<u64> = Vec::new();
    match decode_into(t, n, &mut out) {
        Ok(_) => {
            proof {
                lemma_decode_elements_len(*t, n as nat);
                assert(Seq::<u64>::empty() + decode_elements(*t, n as nat)->Ok_0
                    =~= decode_elements(*t, n as nat)->Ok_0);
            }
            Ok(out)
        }
        Err(e) => Err(e),
    }
}

/// Builds the canonical chain carrying the words of `vec` in order, from
/// the terminator backwards so that decoded order matches array order.
pub fn vec_to_hoon_list(vec: &[u64]) -> (r: TreeValue)
    ensures
        r == encode_chain(vec@),
{
    let mut list: TreeValue = TreeValue::Leaf(0);
    let mut i: usize = vec.len();
    proof {
        assert(vec@.subrange(i as int, vec@.len() as int) =~= Seq::<u64>::empty());
    }
    while i > 0
        invariant
            i <= vec@.len(),
            list == encode_chain(vec@.subrange(i as int, vec@.len() as int)),
        decreases i,
    {
        i = i - 1;
        let element: u64 = vec[i];
        list = TreeValue::Pair(Box::new(TreeValue::Leaf(element)), Box::new(list));
        proof {
            let tail = vec@.subrange(i as int + 1, vec@.len() as int);
            let whole = vec@.subrange(i as int, vec@.len() as int);
            assert(whole.drop_first() =~= tail);
            assert(whole[0] == vec@[i as int]);
        }
    }
    proof {
        assert(vec@.subrange(0, vec@.len() as int) =~= vec@);
    }
    list
}

/// The subtree at the given axis: axis one is the whole tree, an even axis
/// the head of its half axis, an odd axis the tail. Fails with
/// `ShapeMismatch` when the path passes through a leaf.
pub open spec fn slot_spec(t: TreeValue, axis: nat) -> Result<TreeValue, Error>
    decreases axis,
{
    if axis <= 1 {
        Ok(t)
    } else {
        match slot_spec(t, axis / 2) {
            Err(e) => Err(e),
            Ok(sub) => match sub {
                TreeValue::Leaf(_) => Err(Error::ShapeMismatch),
                TreeValue::Pair(l, r) => if axis % 2 == 0 {
                    Ok(*l)
                } else {
                    Ok(*r)
                },
            },
        }
    }
}

/// Returns the subtree of `t` at `axis`.
pub fn slot(t: &TreeValue, axis: u64) -> (r: Result<&TreeValue, Error>)
    requires
        axis >= 1,
    ensures
        match r {
            Ok(sub) => slot_spec(*t, axis as nat) == Ok::<TreeValue, Error>(*sub),
            Err(e) => slot_spec(*t, axis as nat) == Err::<TreeValue, Error>(e),
        },
    decreases axis,
{
    if axis == 1 {
        Ok(t)
    } else {
        match slot(t, axis / 2) {
            Err(e) => Err(e),
            Ok(sub) => match sub {
                TreeValue::Leaf(_) => Err(Error::ShapeMismatch),
                TreeValue::Pair(l, r) => if axis % 2 == 0 {
                    Ok(&**l)
                } else {
                    Ok(&**r)
                },
            },
        }
    }
}

} // verus!
