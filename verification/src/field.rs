//! Field elements in their byte encoding.

use vstd::prelude::*;

verus! {

/// The number that bytes encode, the least significant byte first.
pub open spec fn le_value(bytes: Seq<u8>) -> nat
    decreases bytes.len(),
{
    if bytes.len() == 0 {
        0
    } else {
        bytes[0] as nat + 256 * le_value(bytes.skip(1))
    }
}

/// Whether bytes are the canonical encoding of an element of the base field of Pallas.
pub open spec fn pallas_base_canonical(bytes: Seq<u8>) -> bool {
    bytes.len() == 32 && le_value(bytes)
        < 0x40000000000000000000000000000000224698fc094cf91b992d30ed00000001int
}

/// Whether bytes are the canonical encoding of a scalar of Pallas.
pub open spec fn pallas_scalar_canonical(bytes: Seq<u8>) -> bool {
    bytes.len() == 32 && le_value(bytes)
        < 0x40000000000000000000000000000000224698fc0994a8dd8c46eb2100000001int
}

/// Whether bytes are the canonical encoding of an element of the base field of Jubjub.
pub open spec fn jubjub_base_canonical(bytes: Seq<u8>) -> bool {
    bytes.len() == 32 && le_value(bytes)
        < 0x73eda753299d7d483339d80809a1d80553bda402fffe5bfeffffffff00000001int
}

/// The array that consists of the given bytes, of which there must be as many as it holds.
pub open spec fn array_of<const N: usize>(bytes: Seq<u8>) -> [u8; N] {
    choose|a: [u8; N]| a@ == bytes
}

/// An array is the array that consists of its bytes.
pub proof fn lemma_array_of<const N: usize>(a: [u8; N])
    ensures
        array_of::<N>(a@) == a,
{
    let b = array_of::<N>(a@);
    assert(a@ == a@);
    assert(b@ == a@);
    assert forall|i: int| 0 <= i < N implies a[i] == b[i] by {
        assert(a@[i] == b@[i]);
    }
    assert(a =~= b);
}

/// Whether bytes are the canonical encoding of a scalar of Jubjub.
pub open spec fn jubjub_scalar_canonical(bytes: Seq<u8>) -> bool {
    bytes.len() == 32 && le_value(bytes)
        < 0x0e7db4ea6533afa906673b0101343b00a6682093ccc81082d0970e5ed6f72cb7int
}

/// The array of the bytes of a vector that has as many bytes.
pub fn to_array<const N: usize>(bytes: &Vec<u8>) -> (r: [u8; N])
    requires
        bytes@.len() == N,
    ensures
        r@ == bytes@,
{
    let mut out: [u8; N] = [0; N];
    let mut i: usize = 0;
    while i < N
        invariant
            i <= N,
            bytes@.len() == N,
            forall|k: int| 0 <= k < i ==> out@[k] == bytes@[k],
        decreases N - i,
    {
        out[i] = bytes[i];
        i = i + 1;
    }
    assert(out@ =~= bytes@);
    out
}

/// A copy of some bytes.
pub fn copy_bytes(bytes: &[u8]) -> (r: Vec<u8>)
    ensures
        r@ == bytes@,
{
    let mut copy: Vec<u8> = Vec::new();
    let mut i: usize = 0;
    while i < bytes.len()
        invariant
            i <= bytes.len(),
            copy@ == bytes@.take(i as int),
        decreases bytes.len() - i,
    {
        copy.push(bytes[i]);
        i = i + 1;
    }
    assert(copy@ =~= bytes@);
    copy
}

} // verus!
