//! Byte-wise XOR of a message with a secret, in place.

use vstd::prelude::*;

verus! {

/// `msg` with each of its first `min(secret.len(), msg.len())` bytes XORed
/// with the byte of `secret` at the same index; the rest of `msg` as it was.
pub open spec fn xored(secret: Seq<u8>, msg: Seq<u8>) -> Seq<u8> {
    Seq::new(
        msg.len(),
        |i: int|
            if i < secret.len() {
                msg[i] ^ secret[i]
            } else {
                msg[i]
            },
    )
}

/// XORs `msg` in place with `secret`, over the length of the shorter of the
/// two.
pub fn xor_bytes(secret: &[u8], msg: &mut [u8])
    ensures
        final(msg)@ == xored(secret@, old(msg)@),
{
    let n: usize = if secret.len() < msg.len() {
        secret.len()
    } else {
        msg.len()
    };
    let mut i: usize = 0;
    while i < n
        invariant
            i <= n,
            n <= secret@.len(),
            n <= msg@.len(),
            n == secret@.len() || n == msg@.len(),
            msg@.len() == old(msg)@.len(),
            forall|j: int| 0 <= j < i ==> msg@[j] == old(msg)@[j] ^ secret@[j],
            forall|j: int| i <= j < msg@.len() ==> msg@[j] == old(msg)@[j],
        decreases n - i,
    {
        msg[i] = msg[i] ^ secret[i];
        i += 1;
    }
}

/// Applying the same secret twice gives the message back, whatever the two
/// lengths are.
pub proof fn lemma_xor_twice(secret: Seq<u8>, msg: Seq<u8>)
    ensures
        xored(secret, xored(secret, msg)) == msg,
{
    let once = xored(secret, msg);
    let twice = xored(secret, once);
    assert forall|i: int| 0 <= i < msg.len() implies twice[i] == msg[i] by {
        if i < secret.len() {
            let m: u8 = msg[i];
            let k: u8 = secret[i];
            assert((m ^ k) ^ k == m) by (bit_vector);
        }
    }
    assert(twice =~= msg);
}

} // verus!
