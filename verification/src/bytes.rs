//! Numbers as bytes.

use vstd::prelude::*;

verus! {

/// The eight bytes of a number, most significant first.
pub open spec fn be_bytes(h: u64) -> Seq<u8> {
    seq![
        (h >> 56) as u8,
        (h >> 48) as u8,
        (h >> 40) as u8,
        (h >> 32) as u8,
        (h >> 24) as u8,
        (h >> 16) as u8,
        (h >> 8) as u8,
        h as u8,
    ]
}

/// Appends the eight bytes of a number, most significant first.
pub fn push_be_bytes(out: &mut Vec<u8>, h: u64)
    ensures
        final(out)@ == old(out)@ + be_bytes(h),
{
    out.push((h >> 56) as u8);
    out.push((h >> 48) as u8);
    out.push((h >> 40) as u8);
    out.push((h >> 32) as u8);
    out.push((h >> 24) as u8);
    out.push((h >> 16) as u8);
    out.push((h >> 8) as u8);
    out.push(h as u8);
    proof {
        assert(out@ =~= old(out)@ + be_bytes(h));
    }
}

/// Appends the bytes of `bytes`.
pub fn push_bytes(out: &mut Vec<u8>, bytes: &Vec<u8>)
    ensures
        final(out)@ == old(out)@ + bytes@,
{
    let mut i: usize = 0;
    while i < bytes.len()
        invariant
            i <= bytes@.len(),
            out@ == old(out)@ + bytes@.take(i as int),
        decreases bytes@.len() - i,
    {
        out.push(bytes[i]);
        proof {
            assert(bytes@.take(i + 1) =~= bytes@.take(i as int).push(bytes@[i as int]));
            assert(out@ =~= old(out)@ + bytes@.take(i + 1));
        }
        i += 1;
    }
    proof {
        assert(bytes@.take(i as int) =~= bytes@);
    }
}

} // verus!
