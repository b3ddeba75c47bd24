//! The message queue chain (MQC): a running hash over a channel's ordered
//! message history.
//!
//! Every link has the form `Hash(prev_head ++ marker ++ Hash(message))`,
//! where `prev_head` is the previous chain head (or the all-zero hash if
//! none), `marker` is the little-endian encoding of the sequence marker
//! under which the message was appended, and `Hash` is the 32-byte
//! BLAKE2b digest. A consumer that knows the prior head can replay the
//! chain over the messages it received and compare the result with the
//! head published by the queue, which proves it received the exact,
//! correctly ordered history.

use vstd::prelude::*;

verus! {

/// The number of bytes in a chain head.
pub const HASH_LENGTH: usize = 32;

/// The 32-byte BLAKE2b digest of the given bytes. The digest is a
/// function of the input alone; contracts refer to it by this name.
pub uninterp spec fn blake2b_256_of(input: Seq<u8>) -> Seq<u8>;

/// Relies on `blake2b_simd::Params::hash` with `hash_length(32)`: the
/// digest is computed from the input bytes alone (no key, salt or
/// personalization is set), and the finished hash has exactly the
/// configured length of 32 bytes.
#[verifier::external_body]
fn blake2b_256(input: &[u8]) -> (r: Vec<u8>)
    ensures
        r@ == blake2b_256_of(input@),
        r@.len() == HASH_LENGTH,
{
    blake2b_simd::Params::new().hash_length(32).hash(input).as_bytes().to_vec()
}

/// The little-endian byte encoding of a 32-bit sequence marker.
pub open spec fn u32_le_bytes(x: u32) -> Seq<u8> {
    seq![
        (x % 256) as u8,
        ((x / 256) % 256) as u8,
        ((x / 65536) % 256) as u8,
        ((x / 16777216) % 256) as u8,
    ]
}

/// The chain head that follows `prev` after a message with payload `msg`
/// is appended under the sequence marker `sent_at`.
pub open spec fn mqc_link(prev: Seq<u8>, sent_at: u32, msg: Seq<u8>) -> Seq<u8> {
    blake2b_256_of(prev + u32_le_bytes(sent_at) + blake2b_256_of(msg))
}

/// The chain head of a channel that has never carried a message.
pub open spec fn zero_hash_seq() -> Seq<u8> {
    Seq::new(HASH_LENGTH as nat, |i: int| 0u8)
}

/// Builds the all-zero chain head.
pub fn zero_hash() -> (r: Vec<u8>)
    ensures
        r@ == zero_hash_seq(),
{
    let r = vec![0u8; HASH_LENGTH];
    assert(r@ =~= zero_hash_seq());
    r
}

/// Appends the little-endian encoding of `x` to `out`.
fn push_u32_le(out: &mut Vec<u8>, x: u32)
    ensures
        final(out)@ == old(out)@ + u32_le_bytes(x),
{
    out.push((x % 256) as u8);
    out.push(((x / 256) % 256) as u8);
    out.push(((x / 65536) % 256) as u8);
    out.push(((x / 16777216) % 256) as u8);
    assert(out@ =~= old(out)@ + u32_le_bytes(x));
}

/// Computes the next chain head from the previous head, the sequence
/// marker and the message payload.
pub fn next_mqc_head(prev: &Vec<u8>, sent_at: u32, msg: &Vec<u8>) -> (r: Vec<u8>)
    ensures
        r@ == mqc_link(prev@, sent_at, msg@),
        r@.len() == HASH_LENGTH,
{
    let msg_hash = blake2b_256(msg.as_slice());
    let mut preimage: Vec<u8> = Vec::new();
    preimage.extend_from_slice(prev.as_slice());
    push_u32_le(&mut preimage, sent_at);
    preimage.extend_from_slice(msg_hash.as_slice());
    assert(preimage@ =~= prev@ + u32_le_bytes(sent_at) + blake2b_256_of(msg@));
    blake2b_256(preimage.as_slice())
}

/// The chain is deterministic: replaying a link from an identical
/// (previous head, marker, message) triple yields an identical head. The
/// link is a pure function of those inputs; the chain keeps no hidden
/// state.
pub proof fn lemma_mqc_link_deterministic(
    prev1: Seq<u8>,
    sent_at1: u32,
    msg1: Seq<u8>,
    prev2: Seq<u8>,
    sent_at2: u32,
    msg2: Seq<u8>,
)
    requires
        prev1 == prev2,
        sent_at1 == sent_at2,
        msg1 == msg2,
    ensures
        mqc_link(prev1, sent_at1, msg1) == mqc_link(prev2, sent_at2, msg2),
{
}

/// Copies a byte string.
pub fn clone_bytes(v: &Vec<u8>) -> (r: Vec<u8>)
    ensures
        r@ == v@,
{
    let r = v.clone();
    proof {
        assert(r@ =~= v@);
    }
    r
}

/// Compares two byte strings.
pub fn bytes_eq(a: &Vec<u8>, b: &Vec<u8>) -> (r: bool)
    ensures
        r == (a@ == b@),
{
    if a.len() != b.len() {
        return false;
    }
    let mut i: usize = 0;
    while i < a.len()
        invariant
            a@.len() == b@.len(),
            0 <= i <= a@.len(),
            forall|j: int| 0 <= j < i ==> a@[j] == b@[j],
        decreases a@.len() - i,
    {
        if a[i] != b[i] {
            return false;
        }
        i = i + 1;
    }
    proof {
        assert(a@ =~= b@);
    }
    true
}

} // verus!
