//! How numbers and amounts are written to bytes and read from them.

use corez::io::ErrorKind;
use vstd::prelude::*;
use vstd::slice::slice_subrange;

use crate::field::array_of;
use crate::field::copy_bytes;
use crate::field::le_value;
use crate::field::lemma_array_of;
use crate::value::MAX_MONEY;

verus! {

/// The largest number that a compact size may be.
pub const MAX_COMPACT_SIZE: u32 = 0x02000000;

/// Why bytes cannot be read.
#[derive(Clone, Copy, Debug, PartialEq, Eq, Structural)]
pub enum ReadError {
    /// There are too few bytes.
    UnexpectedEof,
    /// A number is too large, or not written in the shortest way.
    InvalidCompactSize,
    /// A value commitment is not a point.
    InvalidValueCommitment,
    /// A nullifier is not an element of its field.
    InvalidNullifier,
    /// A verification key is not a point.
    InvalidVerificationKey,
    /// A note commitment is not an element of its field.
    InvalidCmx,
    /// A verification key or an ephemeral key is not a point other than the identity.
    InvalidAction,
    /// The flags have bits that mean nothing.
    InvalidFlags,
    /// An amount cannot exist.
    InvalidAmount,
    /// An anchor is not an element of its field.
    InvalidAnchor,
    /// A proof is not of the size that belongs to the number of actions.
    NonCanonicalProofSize,
}

/// The first `n` bytes and the rest.
pub open spec fn take(bytes: Seq<u8>, n: nat) -> Result<(Seq<u8>, Seq<u8>), ReadError> {
    if bytes.len() < n {
        Err(ReadError::UnexpectedEof)
    } else {
        Ok((bytes.take(n as int), bytes.skip(n as int)))
    }
}

/// The `n` bytes that encode a number, the least significant byte first.
pub open spec fn le_bytes(value: nat, n: nat) -> Seq<u8>
    decreases n,
{
    if n == 0 {
        Seq::empty()
    } else {
        seq![(value % 256) as u8] + le_bytes(value / 256, (n - 1) as nat)
    }
}

/// How many numbers can be written in `n` bytes.
pub open spec fn numbers(n: nat) -> nat
    decreases n,
{
    if n == 0 {
        1
    } else {
        256 * numbers((n - 1) as nat)
    }
}

/// The bytes of a number are as many as they should be, and encode it if it is not too large.
pub proof fn lemma_le_bytes_value(value: nat, n: nat)
    ensures
        le_bytes(value, n).len() == n,
        value < numbers(n) ==> le_value(le_bytes(value, n)) == value,
    decreases n,
{
    if n > 0 {
        lemma_le_bytes_value(value / 256, (n - 1) as nat);
        let s = le_bytes(value, n);
        assert(s.skip(1) =~= le_bytes(value / 256, (n - 1) as nat));
    }
}

/// Bytes are those of the number that they encode, which is not too large.
pub proof fn lemma_value_le_bytes(bytes: Seq<u8>)
    ensures
        le_value(bytes) < numbers(bytes.len()),
        le_bytes(le_value(bytes), bytes.len()) == bytes,
    decreases bytes.len(),
{
    if bytes.len() > 0 {
        lemma_value_le_bytes(bytes.skip(1));
        let v = le_value(bytes);
        assert(v % 256 == bytes[0] as nat && v / 256 == le_value(bytes.skip(1))) by (nonlinear_arith)
            requires
                v == bytes[0] as nat + 256 * le_value(bytes.skip(1)),
        ;
        assert(le_bytes(v, bytes.len()) =~= bytes);
    } else {
        assert(le_bytes(le_value(bytes), 0) =~= bytes);
    }
}

/// How many bytes follow the first byte of a compact size.
pub open spec fn compact_width(flag: u8) -> nat {
    if flag < 253 {
        0
    } else if flag == 253 {
        2
    } else if flag == 254 {
        4
    } else {
        8
    }
}

/// The least number that is written with so many bytes after the first.
pub open spec fn compact_least(width: nat) -> nat {
    if width == 2 {
        253
    } else if width == 4 {
        0x1_0000
    } else if width == 8 {
        0x1_0000_0000
    } else {
        0
    }
}

/// The number that a compact size at the start of the bytes encodes, and the rest.
pub open spec fn compact_size(bytes: Seq<u8>) -> Result<(nat, Seq<u8>), ReadError> {
    if bytes.len() == 0 || bytes.len() < 1 + compact_width(bytes[0]) {
        Err(ReadError::UnexpectedEof)
    } else {
        let width = compact_width(bytes[0]);
        let n = if width == 0 {
            bytes[0] as nat
        } else {
            le_value(bytes.subrange(1, 1 + width as int))
        };
        if n < compact_least(width) || n > MAX_COMPACT_SIZE {
            Err(ReadError::InvalidCompactSize)
        } else {
            Ok((n, bytes.skip(1 + width as int)))
        }
    }
}

/// The bytes of a compact size that is not too large.
pub open spec fn compact_bytes(n: nat) -> Seq<u8> {
    if n < 253 {
        seq![n as u8]
    } else if n < 0x1_0000 {
        seq![253u8] + le_bytes(n, 2)
    } else {
        seq![254u8] + le_bytes(n, 4)
    }
}

/// A compact size that is written is read back.
pub proof fn lemma_compact_write_read(n: nat, rest: Seq<u8>)
    requires
        n <= MAX_COMPACT_SIZE,
    ensures
        compact_size(compact_bytes(n) + rest) == Ok::<(nat, Seq<u8>), ReadError>((n, rest)),
{
    let bytes = compact_bytes(n) + rest;
    lemma_le_bytes_value(n, 2);
    lemma_le_bytes_value(n, 4);
    reveal_with_fuel(numbers, 5);
    if n < 253 {
        assert(bytes.skip(1) =~= rest);
    } else if n < 0x1_0000 {
        assert(bytes.subrange(1, 3) =~= le_bytes(n, 2));
        assert(bytes.skip(3) =~= rest);
    } else {
        assert(bytes.subrange(1, 5) =~= le_bytes(n, 4));
        assert(bytes.skip(5) =~= rest);
    }
}

/// A compact size that is read was written in the one way in which it can be written.
pub proof fn lemma_compact_read_write(bytes: Seq<u8>)
    requires
        compact_size(bytes) is Ok,
    ensures
        ({
            let (n, rest) = compact_size(bytes)->Ok_0;
            n <= MAX_COMPACT_SIZE && bytes == compact_bytes(n) + rest
        }),
{
    let (n, rest) = compact_size(bytes)->Ok_0;
    let width = compact_width(bytes[0]);
    if width == 0 {
        assert(bytes =~= compact_bytes(n) + rest);
    } else {
        let number = bytes.subrange(1, 1 + width as int);
        lemma_value_le_bytes(number);
        reveal_with_fuel(numbers, 5);
        assert(bytes =~= seq![bytes[0]] + number + rest);
        assert(seq![bytes[0]] + number =~= compact_bytes(n));
    }
}

/// Reads a compact size, and says how many bytes are left.
///
/// This is `zcash_encoding::CompactSize::read`: a first byte below 253 is the number itself; else
/// two, four or eight bytes follow, which must need that width, and the number must not exceed
/// `MAX_COMPACT_SIZE`.
#[verifier::external_body]
fn decode_compact_size(bytes: &[u8]) -> (r: Result<(usize, usize), ReadError>)
    ensures
        match compact_size(bytes@) {
            Ok((n, rest)) => r matches Ok((m, left)) && m == n && left == rest.len(),
            Err(e) => r matches Err(f) && f == e,
        },
{
    let mut rest = bytes;
    match zcash_encoding::CompactSize::read_t(&mut rest) {
        Ok(n) => Ok((n, rest.len())),
        Err(e) => match e.kind() {
            ErrorKind::UnexpectedEof => Err(ReadError::UnexpectedEof),
            _ => Err(ReadError::InvalidCompactSize),
        },
    }
}

/// The bytes of a compact size.
///
/// This is `zcash_encoding::CompactSize::write`, which refuses a number above
/// `MAX_COMPACT_SIZE` and writes any other in the shortest way.
#[verifier::external_body]
fn encode_compact_size(size: usize) -> (r: Option<Vec<u8>>)
    ensures
        r is Some <==> size <= MAX_COMPACT_SIZE,
        r matches Some(bytes) ==> bytes@ == compact_bytes(size as nat),
{
    let mut bytes = Vec::new();
    zcash_encoding::CompactSize::write(&mut bytes, size).ok().map(|()| bytes)
}

/// The number that is written, in two's complement, as the given one.
pub open spec fn signed(value: nat) -> int {
    if value < 0x8000_0000_0000_0000 {
        value as int
    } else {
        value - 0x1_0000_0000_0000_0000
    }
}

/// The number that is written, in two's complement, for the given one.
pub open spec fn unsigned(value: int) -> nat {
    if value >= 0 {
        value as nat
    } else {
        (value + 0x1_0000_0000_0000_0000) as nat
    }
}

/// Whether the difference of two amounts can be the given one.
pub open spec fn balance_valid(value: int) -> bool {
    -MAX_MONEY <= value <= MAX_MONEY
}

/// Reads a difference of two amounts.
///
/// This is `zcash_protocol::value::ZatBalance::from_i64_le_bytes`, which refuses a number whose
/// magnitude exceeds [`MAX_MONEY`].
#[verifier::external_body]
fn decode_balance(bytes: [u8; 8]) -> (r: Option<i64>)
    ensures
        r is Some <==> balance_valid(signed(le_value(bytes@))),
        r matches Some(value) ==> value == signed(le_value(bytes@)),
{
    zcash_protocol::value::ZatBalance::from_i64_le_bytes(bytes).ok().map(i64::from)
}

/// Writes a difference of two amounts.
///
/// This is `zcash_protocol::value::ZatBalance::to_i64_le_bytes`.
#[verifier::external_body]
fn encode_balance(value: i64) -> (r: [u8; 8])
    requires
        balance_valid(value as int),
    ensures
        r@ == le_bytes(unsigned(value as int), 8),
{
    zcash_protocol::value::ZatBalance::from_i64(value).unwrap().to_i64_le_bytes()
}

/// Bytes that are read from the front.
pub struct Reader<'a> {
    bytes: &'a [u8],
    at: usize,
}

impl<'a> Reader<'a> {
    #[verifier::type_invariant]
    closed spec fn wf(self) -> bool {
        self.at <= self.bytes@.len()
    }

    /// The bytes that have not been read.
    pub closed spec fn rest(self) -> Seq<u8> {
        self.bytes@.skip(self.at as int)
    }

    /// Reads the given bytes from the front.
    pub fn new(bytes: &'a [u8]) -> (r: Reader<'a>)
        ensures
            r.rest() == bytes@,
    {
        assert(bytes@.skip(0) =~= bytes@);
        Reader { bytes, at: 0 }
    }

    /// How many bytes have not been read.
    pub fn remaining(&self) -> (r: usize)
        ensures
            r == self.rest().len(),
    {
        proof {
            use_type_invariant(self);
        }
        self.bytes.len() - self.at
    }

    /// Reads an array.
    pub fn read_array<const N: usize>(&mut self) -> (r: Result<[u8; N], ReadError>)
        ensures
            match take(old(self).rest(), N as nat) {
                Ok((bytes, rest)) => r matches Ok(array) && array@ == bytes && array == array_of::<
                    N,
                >(bytes) && final(self).rest() == rest,
                Err(e) => r matches Err(f) && f == e,
            },
    {
        proof {
            use_type_invariant(&*self);
        }
        if self.bytes.len() - self.at < N {
            return Err(ReadError::UnexpectedEof);
        }
        let bytes = self.bytes;
        let at: usize = self.at;
        let mut array: [u8; N] = [0; N];
        let mut i: usize = 0;
        while i < N
            invariant
                i <= N,
                at + N <= bytes.len(),
                forall|k: int| 0 <= k < i ==> array@[k] == bytes@[at + k],
            decreases N - i,
        {
            array[i] = bytes[at + i];
            i = i + 1;
        }
        self.at = at + N;
        proof {
            assert(array@ =~= old(self).rest().take(N as int));
            assert(self.rest() =~= old(self).rest().skip(N as int));
            lemma_array_of(array);
        }
        Ok(array)
    }

    /// Reads the given number of bytes.
    pub fn read_bytes(&mut self, n: usize) -> (r: Result<Vec<u8>, ReadError>)
        ensures
            match take(old(self).rest(), n as nat) {
                Ok((bytes, rest)) => r matches Ok(vec) && vec@ == bytes && final(self).rest()
                    == rest,
                Err(e) => r matches Err(f) && f == e,
            },
    {
        proof {
            use_type_invariant(&*self);
        }
        if self.bytes.len() - self.at < n {
            return Err(ReadError::UnexpectedEof);
        }
        let vec = copy_bytes(slice_subrange(self.bytes, self.at, self.at + n));
        let at: usize = self.at + n;
        self.at = at;
        proof {
            assert(vec@ =~= old(self).rest().take(n as int));
            assert(self.rest() =~= old(self).rest().skip(n as int));
        }
        Ok(vec)
    }

    /// Reads a compact size.
    pub fn read_compact_size(&mut self) -> (r: Result<usize, ReadError>)
        ensures
            match compact_size(old(self).rest()) {
                Ok((n, rest)) => r matches Ok(m) && m == n && final(self).rest() == rest,
                Err(e) => r matches Err(f) && f == e,
            },
    {
        proof {
            use_type_invariant(&*self);
        }
        let rest = slice_subrange(self.bytes, self.at, self.bytes.len());
        assert(rest@ =~= self.rest());
        match decode_compact_size(rest) {
            Ok((n, left)) => {
                let at: usize = self.bytes.len() - left;
                self.at = at;
                assert(self.rest() =~= compact_size(old(self).rest())->Ok_0.1);
                Ok(n)
            },
            Err(e) => Err(e),
        }
    }

    /// Reads a difference of two amounts.
    pub fn read_balance(&mut self) -> (r: Result<i64, ReadError>)
        ensures
            match take(old(self).rest(), 8) {
                Ok((bytes, rest)) => if balance_valid(signed(le_value(bytes))) {
                    r matches Ok(value) && value == signed(le_value(bytes)) && final(self).rest()
                        == rest
                } else {
                    r matches Err(e) && e is InvalidAmount
                },
                Err(e) => r matches Err(f) && f == e,
            },
    {
        match self.read_array::<8>() {
            Ok(bytes) => match decode_balance(bytes) {
                Some(value) => Ok(value),
                None => Err(ReadError::InvalidAmount),
            },
            Err(e) => Err(e),
        }
    }
}

/// Writes bytes.
pub fn write_all(out: &mut Vec<u8>, bytes: &[u8])
    ensures
        final(out)@ == old(out)@ + bytes@,
{
    out.extend_from_slice(bytes);
    assert(out@ =~= old(out)@ + bytes@);
}

/// Writes a compact size, unless it is too large.
pub fn write_compact_size(out: &mut Vec<u8>, size: usize) -> (r: bool)
    ensures
        r == (size <= MAX_COMPACT_SIZE),
        final(out)@ == (if r {
            old(out)@ + compact_bytes(size as nat)
        } else {
            old(out)@
        }),
{
    match encode_compact_size(size) {
        Some(bytes) => {
            write_all(out, bytes.as_slice());
            true
        },
        None => false,
    }
}

/// Writes a difference of two amounts.
pub fn write_balance(out: &mut Vec<u8>, value: i64)
    requires
        balance_valid(value as int),
    ensures
        final(out)@ == old(out)@ + le_bytes(unsigned(value as int), 8),
{
    let bytes = encode_balance(value);
    write_all(out, bytes.as_slice());
}

} // verus!
