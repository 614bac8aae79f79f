//! The single-byte IHEX checksum.
use vstd::prelude::*;

verus! {

/// The sum of all bytes of `b`, as an unbounded integer.
pub open spec fn byte_sum(b: Seq<u8>) -> int
    decreases b.len(),
{
    if b.len() == 0 {
        0
    } else {
        byte_sum(b.drop_last()) + b.last()
    }
}

/// The two's complement of the byte sum, modulo 256.
pub open spec fn checksum_of(b: Seq<u8>) -> u8 {
    ((256 - byte_sum(b) % 256) % 256) as u8
}

/// Returns the IHEX checksum of `data`: the byte that brings the sum of
/// `data` to a multiple of 256.
pub fn checksum(data: &[u8]) -> (r: u8)
    ensures
        r == checksum_of(data@),
{
    let mut sum: u8 = 0;
    let mut i: usize = 0;
    while i < data.len()
        invariant
            i <= data@.len(),
            sum as int == byte_sum(data@.subrange(0, i as int)) % 256,
        decreases data@.len() - i,
    {
        proof {
            let s = data@.subrange(0, i as int + 1);
            assert(s.drop_last() =~= data@.subrange(0, i as int));
        }
        sum = sum.wrapping_add(data[i]);
        i = i + 1;
    }
    proof {
        assert(data@.subrange(0, data@.len() as int) =~= data@);
    }
    0u8.wrapping_sub(sum)
}

/// Appending the checksum of a byte sequence to it makes the total a
/// multiple of 256.
pub proof fn lemma_checksum_cancels(b: Seq<u8>)
    ensures
        (byte_sum(b) + checksum_of(b)) % 256 == 0,
        byte_sum(b.push(checksum_of(b))) % 256 == 0,
{
    assert(b.push(checksum_of(b)).drop_last() =~= b);
}

} // verus!
