//! The placeholder certificate of certified data.

use std::collections::hash_map::DefaultHasher;
use std::hash::Hasher;
use vstd::prelude::*;
use vstd::std_specs::hash::DefaultHasherAdditionalSpecFns;
use crate::bytes::{be_bytes, push_be_bytes};

verus! {

/// The most bytes that certified data can hold.
pub const MAX_CERTIFIED_DATA_LEN: usize = 32;

/// The number of bytes of a certificate.
pub const CERTIFICATE_LEN: usize = 256;

/// What a hasher has seen after it was fed the given bytes one by one.
pub open spec fn single_writes(bytes: Seq<u8>) -> Seq<Seq<u8>> {
    bytes.map_values(|b: u8| seq![b])
}

/// The byte at `i` of the data padded with zeros.
pub open spec fn padded_byte(data: Seq<u8>, i: int) -> u8 {
    if 0 <= i < data.len() {
        data[i]
    } else {
        0
    }
}

/// The first `8 * n` bytes of the certificate of `data`. Each block of
/// eight bytes is the hash of all the blocks before it followed by the next
/// byte of the padded data.
pub open spec fn certificate_blocks(data: Seq<u8>, n: nat) -> Seq<u8>
    decreases n,
{
    if n == 0 {
        Seq::empty()
    } else {
        let before = certificate_blocks(data, (n - 1) as nat);
        before + be_bytes(
            DefaultHasher::spec_finish(single_writes(before.push(padded_byte(data, n - 1)))),
        )
    }
}

/// The placeholder certificate of the given certified data: 32 blocks.
pub open spec fn certificate_of(data: Seq<u8>) -> Seq<u8> {
    certificate_blocks(data, 32)
}

/// The hash that a fresh `DefaultHasher` gives after it was fed the given
/// bytes one by one.
fn hash_bytes(bytes: &Vec<u8>, last: u8) -> (h: u64)
    ensures
        h == DefaultHasher::spec_finish(single_writes(bytes@.push(last))),
{
    let mut hasher = DefaultHasher::new();
    let mut i: usize = 0;
    while i < bytes.len()
        invariant
            i <= bytes@.len(),
            hasher@ == single_writes(bytes@.take(i as int)),
        decreases bytes@.len() - i,
    {
        let one: [u8; 1] = [bytes[i]];
        hasher.write(one.as_slice());
        proof {
            assert(one@ =~= seq![bytes@[i as int]]);
            assert(bytes@.take(i + 1) =~= bytes@.take(i as int).push(bytes@[i as int]));
            assert(hasher@ =~= single_writes(bytes@.take(i + 1)));
        }
        i += 1;
    }
    let one: [u8; 1] = [last];
    hasher.write(one.as_slice());
    proof {
        assert(one@ =~= seq![last]);
        assert(bytes@.take(i as int) =~= bytes@);
        assert(hasher@ =~= single_writes(bytes@.push(last)));
    }
    hasher.finish()
}

/// Derives the placeholder certificate of certified data. It is no proof of
/// anything: it only changes when the data changes.
pub fn certificate(data: &[u8]) -> (cert: Vec<u8>)
    requires
        data@.len() <= MAX_CERTIFIED_DATA_LEN,
    ensures
        cert@ == certificate_of(data@),
        cert@.len() == CERTIFICATE_LEN,
{
    let mut cert: Vec<u8> = Vec::with_capacity(CERTIFICATE_LEN);
    let mut i: usize = 0;
    while i < 32
        invariant
            i <= 32,
            cert@ == certificate_blocks(data@, i as nat),
            cert@.len() == 8 * i,
        decreases 32 - i,
    {
        let byte: u8 = if i < data.len() { data[i] } else { 0 };
        let h = hash_bytes(&cert, byte);
        push_be_bytes(&mut cert, h);
        i += 1;
    }
    cert
}

} // verus!
