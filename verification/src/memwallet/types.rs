//! What a wallet holds.

use vstd::prelude::*;

use crate::consensus::BlockHeight;
use crate::field::lemma_array_of;
use crate::pool::ShieldedProtocol;

use super::table::before;
use super::table::TableKey;

verus! {

/// The ways in which a stored wallet cannot be read.
#[derive(Clone, Copy, Debug, PartialEq, Eq)]
pub enum Error {
    /// The version of the records is not the one that can be read. The versions are the latest
    /// that can be read, and the one that was found.
    UnsupportedProtoVersion(u32, u32),
    /// A record lacks a field.
    ProtoMissingField(&'static str),
    /// A string of bytes does not have the length that it should have.
    ByteVecToArrayConversion,
    /// A number is greater than it may be.
    IntegerConversion,
    /// A note does not belong to a shielded pool.
    InvalidPool,
    /// A nullifier is not one.
    InvalidNullifier,
    /// A note is not one.
    InvalidNote,
    /// A memo is too long.
    InvalidMemo,
    /// An amount is more than can exist.
    InvalidValue,
    /// The encoding of a tree is not one.
    InvalidTree,
    /// A recipient is of no known kind.
    InvalidRecipient,
    /// A request is of no known kind.
    InvalidRequest,
}

/// The identifier of a transaction.
#[derive(Clone, Copy, Debug, PartialEq, Eq)]
pub struct TxId {
    pub bytes: [u8; 32],
}

/// A place in a transaction that holds a transparent output.
#[derive(Clone, Copy, Debug, PartialEq, Eq)]
pub struct OutPoint {
    pub hash: [u8; 32],
    pub n: u32,
}

/// The identifier of a note: the output that created it.
#[derive(Clone, Copy, Debug, PartialEq, Eq)]
pub struct NoteId {
    pub txid: TxId,
    pub protocol: ShieldedProtocol,
    pub output_index: u16,
}

/// The nullifier of a note.
#[derive(Clone, Copy, Debug, PartialEq, Eq)]
pub struct Nullifier {
    pub protocol: ShieldedProtocol,
    pub bytes: [u8; 32],
}

/// The place of a transaction in the chain.
#[derive(Clone, Copy, Debug, PartialEq, Eq, Structural)]
pub struct TxLocator {
    pub height: BlockHeight,
    pub index: u32,
}

/// The place of a node in a tree.
#[derive(Clone, Copy, Debug, PartialEq, Eq, Structural)]
pub struct Address {
    pub level: u8,
    pub index: u64,
}

/// A transparent output and the transaction that spends it.
#[derive(Clone, Copy, Debug, PartialEq, Eq)]
pub struct OutputSpend {
    pub txid: TxId,
    pub outpoint: OutPoint,
}

/// The numbers of which bytes consist.
pub open spec fn numbers(bytes: Seq<u8>) -> Seq<int> {
    bytes.map_values(|b: u8| b as int)
}

/// The number that stands for a protocol in the order of keys.
pub open spec fn protocol_rank(protocol: ShieldedProtocol) -> int {
    match protocol {
        ShieldedProtocol::Sapling => 0,
        ShieldedProtocol::Orchard => 1,
    }
}

/// Arrays that consist of the same numbers are the same.
proof fn lemma_same_numbers(a: [u8; 32], b: [u8; 32])
    requires
        numbers(a@) == numbers(b@),
    ensures
        a == b,
{
    assert forall|i: int| 0 <= i < 32 implies a@[i] == b@[i] by {
        assert(numbers(a@)[i] == a@[i] as int);
        assert(numbers(b@)[i] == b@[i] as int);
    }
    assert(a@ =~= b@);
    lemma_array_of(a);
    lemma_array_of(b);
}

/// Sequences that start with different numbers, or are continued after the same numbers.
proof fn lemma_before_prefix(p: Seq<int>, a: Seq<int>, b: Seq<int>)
    ensures
        before(p + a, p + b) == before(a, b),
    decreases p.len(),
{
    if p.len() == 0 {
        assert(p + a =~= a);
        assert(p + b =~= b);
    } else {
        lemma_before_prefix(p.skip(1), a, b);
        assert((p + a).skip(1) =~= p.skip(1) + a);
        assert((p + b).skip(1) =~= p.skip(1) + b);
    }
}

/// Where two sequences of the same length differ, what follows them does not matter.
proof fn lemma_before_different(p: Seq<int>, q: Seq<int>, a: Seq<int>, b: Seq<int>)
    requires
        p.len() == q.len(),
        p != q,
    ensures
        before(p + a, q + b) == before(p, q),
    decreases p.len(),
{
    if p.len() == 0 {
        assert(p =~= q);
    } else if p[0] == q[0] {
        assert((p + a).skip(1) =~= p.skip(1) + a);
        assert((q + b).skip(1) =~= q.skip(1) + b);
        if p.skip(1) == q.skip(1) {
            assert forall|i: int| 0 <= i < p.len() implies p[i] == q[i] by {
                if i > 0 {
                    assert(p[i] == p.skip(1)[i - 1]);
                    assert(q[i] == q.skip(1)[i - 1]);
                }
            }
            assert(p =~= q);
        }
        lemma_before_different(p.skip(1), q.skip(1), a, b);
    }
}

/// Which of two arrays comes first, if they differ.
fn compare_bytes(a: &[u8; 32], b: &[u8; 32]) -> (r: Option<bool>)
    ensures
        r matches Some(first) ==> first == before(numbers(a@), numbers(b@)) && numbers(a@)
            != numbers(b@),
        r is None ==> numbers(a@) == numbers(b@),
{
    let ghost x = numbers(a@);
    let ghost y = numbers(b@);
    let mut i: usize = 0;
    assert(x.skip(0) =~= x);
    assert(y.skip(0) =~= y);
    while i < 32
        invariant
            i <= 32,
            x == numbers(a@),
            y == numbers(b@),
            x.len() == 32,
            y.len() == 32,
            before(x, y) == before(x.skip(i as int), y.skip(i as int)),
            forall|k: int| 0 <= k < i ==> x[k] == y[k],
        decreases 32 - i,
    {
        proof {
            assert(x.skip(i as int).skip(1) =~= x.skip(i as int + 1));
            assert(y.skip(i as int).skip(1) =~= y.skip(i as int + 1));
            assert(x[i as int] == a@[i as int] as int);
            assert(y[i as int] == b@[i as int] as int);
            assert(x.skip(i as int)[0] == x[i as int]);
            assert(y.skip(i as int)[0] == y[i as int]);
        }
        if a[i] != b[i] {
            return Some(a[i] < b[i]);
        }
        i = i + 1;
    }
    assert(x =~= y);
    None
}

/// Single numbers come in their own order.
proof fn lemma_before_one(a: int, b: int)
    ensures
        before(seq![a], seq![b]) == (a < b),
{
    assert(seq![a].skip(1) =~= Seq::<int>::empty());
    assert(seq![b].skip(1) =~= Seq::<int>::empty());
    reveal_with_fuel(before, 2);
}

impl TableKey for u32 {
    open spec fn rank(key: u32) -> Seq<int> {
        seq![key as int]
    }

    proof fn lemma_rank(a: u32, b: u32) {
        assert(seq![a as int][0] == seq![b as int][0]);
    }

    fn comes_before(&self, other: &u32) -> (r: bool) {
        proof {
            lemma_before_one(*self as int, *other as int);
        }
        *self < *other
    }
}

impl TableKey for TxId {
    open spec fn rank(key: TxId) -> Seq<int> {
        numbers(key.bytes@)
    }

    proof fn lemma_rank(a: TxId, b: TxId) {
        lemma_same_numbers(a.bytes, b.bytes);
    }

    fn comes_before(&self, other: &TxId) -> (r: bool) {
        proof {
            super::table::lemma_before_total(numbers(self.bytes@), numbers(other.bytes@));
        }
        match compare_bytes(&self.bytes, &other.bytes) {
            Some(first) => first,
            None => false,
        }
    }
}

/// Two numbers, the first of which counts first.
proof fn lemma_before_two(a: int, b: int, c: int, d: int)
    ensures
        before(seq![a, b], seq![c, d]) == (a < c || (a == c && b < d)),
{
    assert(seq![a, b].skip(1) =~= seq![b]);
    assert(seq![c, d].skip(1) =~= seq![d]);
    assert(seq![b].skip(1) =~= Seq::<int>::empty());
    assert(seq![d].skip(1) =~= Seq::<int>::empty());
    reveal_with_fuel(before, 3);
}

/// Sequences of 32 numbers and two more are the same only if their parts are.
proof fn lemma_rank_parts(p: Seq<int>, q: Seq<int>, a: Seq<int>, b: Seq<int>)
    requires
        p.len() == q.len(),
        p + a == q + b,
    ensures
        p == q,
        a == b,
{
    assert(p =~= (p + a).take(p.len() as int));
    assert(q =~= (q + b).take(q.len() as int));
    assert(a =~= (p + a).skip(p.len() as int));
    assert(b =~= (q + b).skip(q.len() as int));
}

impl TableKey for NoteId {
    open spec fn rank(key: NoteId) -> Seq<int> {
        numbers(key.txid.bytes@) + seq![protocol_rank(key.protocol), key.output_index as int]
    }

    proof fn lemma_rank(a: NoteId, b: NoteId) {
        let x = seq![protocol_rank(a.protocol), a.output_index as int];
        let y = seq![protocol_rank(b.protocol), b.output_index as int];
        lemma_rank_parts(numbers(a.txid.bytes@), numbers(b.txid.bytes@), x, y);
        lemma_same_numbers(a.txid.bytes, b.txid.bytes);
        assert(x[0] == y[0]);
        assert(x[1] == y[1]);
    }

    fn comes_before(&self, other: &NoteId) -> (r: bool) {
        let ghost p = numbers(self.txid.bytes@);
        let ghost q = numbers(other.txid.bytes@);
        let ghost x = seq![protocol_rank(self.protocol), self.output_index as int];
        let ghost y = seq![protocol_rank(other.protocol), other.output_index as int];
        match compare_bytes(&self.txid.bytes, &other.txid.bytes) {
            Some(first) => {
                proof {
                    lemma_before_different(p, q, x, y);
                }
                first
            },
            None => {
                proof {
                    lemma_before_prefix(p, x, y);
                    lemma_before_two(x[0], x[1], y[0], y[1]);
                    assert(x =~= seq![x[0], x[1]]);
                    assert(y =~= seq![y[0], y[1]]);
                }
                match (self.protocol, other.protocol) {
                    (ShieldedProtocol::Sapling, ShieldedProtocol::Orchard) => true,
                    (ShieldedProtocol::Orchard, ShieldedProtocol::Sapling) => false,
                    _ => self.output_index < other.output_index,
                }
            },
        }
    }
}

impl TableKey for OutPoint {
    open spec fn rank(key: OutPoint) -> Seq<int> {
        numbers(key.hash@) + seq![key.n as int]
    }

    proof fn lemma_rank(a: OutPoint, b: OutPoint) {
        let x = seq![a.n as int];
        let y = seq![b.n as int];
        lemma_rank_parts(numbers(a.hash@), numbers(b.hash@), x, y);
        lemma_same_numbers(a.hash, b.hash);
        assert(x[0] == y[0]);
    }

    fn comes_before(&self, other: &OutPoint) -> (r: bool) {
        let ghost p = numbers(self.hash@);
        let ghost q = numbers(other.hash@);
        let ghost x = seq![self.n as int];
        let ghost y = seq![other.n as int];
        match compare_bytes(&self.hash, &other.hash) {
            Some(first) => {
                proof {
                    lemma_before_different(p, q, x, y);
                }
                first
            },
            None => {
                proof {
                    lemma_before_prefix(p, x, y);
                    lemma_before_one(self.n as int, other.n as int);
                }
                self.n < other.n
            },
        }
    }
}

impl TableKey for Nullifier {
    open spec fn rank(key: Nullifier) -> Seq<int> {
        seq![protocol_rank(key.protocol)] + numbers(key.bytes@)
    }

    proof fn lemma_rank(a: Nullifier, b: Nullifier) {
        let x = seq![protocol_rank(a.protocol)];
        let y = seq![protocol_rank(b.protocol)];
        lemma_rank_parts(x, y, numbers(a.bytes@), numbers(b.bytes@));
        assert(x[0] == y[0]);
        lemma_same_numbers(a.bytes, b.bytes);
    }

    fn comes_before(&self, other: &Nullifier) -> (r: bool) {
        let ghost x = seq![protocol_rank(self.protocol)];
        let ghost y = seq![protocol_rank(other.protocol)];
        let ghost p = numbers(self.bytes@);
        let ghost q = numbers(other.bytes@);
        proof {
            if self.protocol == other.protocol {
                lemma_before_prefix(x, p, q);
                super::table::lemma_before_total(p, q);
            } else {
                assert(x[0] != y[0]);
                lemma_before_different(x, y, p, q);
            }
        }
        match (self.protocol, other.protocol) {
            (ShieldedProtocol::Sapling, ShieldedProtocol::Orchard) => true,
            (ShieldedProtocol::Orchard, ShieldedProtocol::Sapling) => false,
            _ => match compare_bytes(&self.bytes, &other.bytes) {
                Some(first) => first,
                None => false,
            },
        }
    }
}

impl TableKey for TxLocator {
    open spec fn rank(key: TxLocator) -> Seq<int> {
        seq![key.height as int, key.index as int]
    }

    proof fn lemma_rank(a: TxLocator, b: TxLocator) {
        let x = seq![a.height as int, a.index as int];
        let y = seq![b.height as int, b.index as int];
        assert(x[0] == y[0]);
        assert(x[1] == y[1]);
    }

    fn comes_before(&self, other: &TxLocator) -> (r: bool) {
        proof {
            lemma_before_two(
                self.height as int,
                self.index as int,
                other.height as int,
                other.index as int,
            );
        }
        self.height < other.height || (self.height == other.height && self.index < other.index)
    }
}

impl TableKey for Address {
    open spec fn rank(key: Address) -> Seq<int> {
        seq![key.level as int, key.index as int]
    }

    proof fn lemma_rank(a: Address, b: Address) {
        let x = seq![a.level as int, a.index as int];
        let y = seq![b.level as int, b.index as int];
        assert(x[0] == y[0]);
        assert(x[1] == y[1]);
    }

    fn comes_before(&self, other: &Address) -> (r: bool) {
        proof {
            lemma_before_two(
                self.level as int,
                self.index as int,
                other.level as int,
                other.index as int,
            );
        }
        self.level < other.level || (self.level == other.level && self.index < other.index)
    }
}

impl TableKey for OutputSpend {
    open spec fn rank(key: OutputSpend) -> Seq<int> {
        numbers(key.txid.bytes@) + OutPoint::rank(key.outpoint)
    }

    proof fn lemma_rank(a: OutputSpend, b: OutputSpend) {
        lemma_rank_parts(
            numbers(a.txid.bytes@),
            numbers(b.txid.bytes@),
            OutPoint::rank(a.outpoint),
            OutPoint::rank(b.outpoint),
        );
        lemma_same_numbers(a.txid.bytes, b.txid.bytes);
        OutPoint::lemma_rank(a.outpoint, b.outpoint);
    }

    fn comes_before(&self, other: &OutputSpend) -> (r: bool) {
        let ghost p = numbers(self.txid.bytes@);
        let ghost q = numbers(other.txid.bytes@);
        match compare_bytes(&self.txid.bytes, &other.txid.bytes) {
            Some(first) => {
                proof {
                    lemma_before_different(
                        p,
                        q,
                        OutPoint::rank(self.outpoint),
                        OutPoint::rank(other.outpoint),
                    );
                }
                first
            },
            None => {
                proof {
                    lemma_before_prefix(
                        p,
                        OutPoint::rank(self.outpoint),
                        OutPoint::rank(other.outpoint),
                    );
                }
                self.outpoint.comes_before(&other.outpoint)
            },
        }
    }
}

/// Whether bytes come before others: they are less where they first differ.
pub open spec fn bytes_before(a: Seq<u8>, b: Seq<u8>) -> bool {
    exists|i: int|
        {
            &&& 0 <= i < a.len()
            &&& i < b.len()
            &&& #[trigger] a[i] < b[i]
            &&& forall|j: int| 0 <= j < i ==> #[trigger] a[j] == b[j]
        }
}

/// Of as many bytes, those come before others that are less where they first differ.
proof fn lemma_bytes_before(a: Seq<u8>, b: Seq<u8>)
    requires
        a.len() == b.len(),
    ensures
        before(numbers(a), numbers(b)) <==> bytes_before(a, b),
        numbers(a) == numbers(b) <==> a == b,
    decreases a.len(),
{
    assert(numbers(a) == numbers(b) ==> a == b) by {
        if numbers(a) == numbers(b) {
            assert forall|i: int| 0 <= i < a.len() implies a[i] == b[i] by {
                assert(numbers(a)[i] == numbers(b)[i]);
            }
            assert(a =~= b);
        }
    }
    if a.len() > 0 {
        let x = a.skip(1);
        let y = b.skip(1);
        lemma_bytes_before(x, y);
        assert(numbers(a).skip(1) =~= numbers(x));
        assert(numbers(b).skip(1) =~= numbers(y));
        assert(numbers(a)[0] == a[0] as int);
        assert(numbers(b)[0] == b[0] as int);
        if a[0] == b[0] {
            if bytes_before(x, y) {
                let i = choose|i: int|
                    {
                        &&& 0 <= i < x.len()
                        &&& i < y.len()
                        &&& #[trigger] x[i] < y[i]
                        &&& forall|j: int| 0 <= j < i ==> #[trigger] x[j] == y[j]
                    };
                assert(a[i + 1] < b[i + 1]);
                assert forall|j: int| 0 <= j < i + 1 implies #[trigger] a[j] == b[j] by {
                    if j > 0 {
                        assert(x[j - 1] == y[j - 1]);
                    }
                }
            }
            if bytes_before(a, b) {
                let i = choose|i: int|
                    {
                        &&& 0 <= i < a.len()
                        &&& i < b.len()
                        &&& #[trigger] a[i] < b[i]
                        &&& forall|j: int| 0 <= j < i ==> #[trigger] a[j] == b[j]
                    };
                assert(x[i - 1] < y[i - 1]);
                assert forall|j: int| 0 <= j < i - 1 implies #[trigger] x[j] == y[j] by {
                    assert(a[j + 1] == b[j + 1]);
                }
            }
        } else if a[0] < b[0] {
            assert(bytes_before(a, b));
        } else {
            if bytes_before(a, b) {
                let i = choose|i: int|
                    {
                        &&& 0 <= i < a.len()
                        &&& i < b.len()
                        &&& #[trigger] a[i] < b[i]
                        &&& forall|j: int| 0 <= j < i ==> #[trigger] a[j] == b[j]
                    };
                assert(a[0] == b[0]);
            }
        }
    }
}

/// Notes come in the order of the transactions that created them, then those of the Sapling pool before
/// the others, then in the order of their outputs.
pub proof fn lemma_order_of_notes(a: NoteId, b: NoteId, r: bool)
    requires
        call_ensures(NoteId::comes_before, (&a, &b), r),
    ensures
        r <==> {
            ||| bytes_before(a.txid.bytes@, b.txid.bytes@)
            ||| a.txid == b.txid && a.protocol is Sapling && b.protocol is Orchard
            ||| a.txid == b.txid && a.protocol == b.protocol && a.output_index < b.output_index
        },
{
    let p = numbers(a.txid.bytes@);
    let q = numbers(b.txid.bytes@);
    let x = seq![protocol_rank(a.protocol), a.output_index as int];
    let y = seq![protocol_rank(b.protocol), b.output_index as int];
    lemma_bytes_before(a.txid.bytes@, b.txid.bytes@);
    lemma_before_two(x[0], x[1], y[0], y[1]);
    if p == q {
        lemma_same_numbers(a.txid.bytes, b.txid.bytes);
        lemma_before_prefix(p, x, y);
        super::table::lemma_before_total(p, q);
    } else {
        lemma_before_different(p, q, x, y);
    }
}

/// Transparent outputs come in the order of their transactions, and then by their numbers.
pub proof fn lemma_order_of_outputs(a: OutPoint, b: OutPoint, r: bool)
    requires
        call_ensures(OutPoint::comes_before, (&a, &b), r),
    ensures
        r <==> bytes_before(a.hash@, b.hash@) || (a.hash == b.hash && a.n < b.n),
{
    let p = numbers(a.hash@);
    let q = numbers(b.hash@);
    let x = seq![a.n as int];
    let y = seq![b.n as int];
    lemma_bytes_before(a.hash@, b.hash@);
    lemma_before_one(a.n as int, b.n as int);
    if p == q {
        lemma_same_numbers(a.hash, b.hash);
        lemma_before_prefix(p, x, y);
        super::table::lemma_before_total(p, q);
    } else {
        lemma_before_different(p, q, x, y);
    }
}

/// Nullifiers of Sapling notes come before the others, and those of a pool in the order of their bytes.
pub proof fn lemma_order_of_nullifiers(a: Nullifier, b: Nullifier, r: bool)
    requires
        call_ensures(Nullifier::comes_before, (&a, &b), r),
    ensures
        r <==> (a.protocol is Sapling && b.protocol is Orchard) || (a.protocol == b.protocol
            && bytes_before(a.bytes@, b.bytes@)),
{
    let x = seq![protocol_rank(a.protocol)];
    let y = seq![protocol_rank(b.protocol)];
    lemma_bytes_before(a.bytes@, b.bytes@);
    lemma_before_one(x[0], y[0]);
    if a.protocol == b.protocol {
        lemma_before_prefix(x, numbers(a.bytes@), numbers(b.bytes@));
    } else {
        assert(x[0] != y[0]);
        lemma_before_different(x, y, numbers(a.bytes@), numbers(b.bytes@));
    }
}

/// Places in the chain come by height and then by index, and places in a tree by level and then by index.
pub proof fn lemma_order_of_places(a: TxLocator, b: TxLocator, c: Address, d: Address, r: bool, q: bool)
    requires
        call_ensures(TxLocator::comes_before, (&a, &b), r),
        call_ensures(Address::comes_before, (&c, &d), q),
    ensures
        r <==> a.height < b.height || (a.height == b.height && a.index < b.index),
        q <==> c.level < d.level || (c.level == d.level && c.index < d.index),
{
    lemma_before_two(a.height as int, a.index as int, b.height as int, b.index as int);
    lemma_before_two(c.level as int, c.index as int, d.level as int, d.index as int);
}

} // verus!
