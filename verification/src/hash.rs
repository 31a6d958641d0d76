//! A hash that is the same in every process.

use vstd::prelude::*;

verus! {

/// The FNV-1a hash with 64 bits: each byte is mixed in by exclusive or and a multiplication.
pub open spec fn fnv1a(data: Seq<u8>) -> u64
    decreases data.len(),
{
    if data.len() == 0 {
        0xcbf29ce484222325
    } else {
        (((fnv1a(data.drop_last()) ^ (data.last() as u64)) * 0x100000001b3) % 0x1_0000_0000_0000_0000) as u64
    }
}

/// The FNV-1a hash with 64 bits.
pub fn fnv1a_64(data: &[u8]) -> (r: u64)
    ensures
        r == fnv1a(data@),
{
    let mut hash: u64 = 0xcbf29ce484222325;
    let mut i: usize = 0;
    assert(data@.take(0) =~= Seq::<u8>::empty());
    while i < data.len()
        invariant
            i <= data.len(),
            hash == fnv1a(data@.take(i as int)),
        decreases data.len() - i,
    {
        proof {
            let t = data@.take(i + 1);
            assert(t.drop_last() =~= data@.take(i as int));
            assert(t.last() == data@[i as int]);
        }
        let mixed: u64 = hash ^ (data[i] as u64);
        hash = mixed.wrapping_mul(0x100000001b3);
        i = i + 1;
    }
    assert(data@.take(data@.len() as int) =~= data@);
    hash
}

} // verus!
