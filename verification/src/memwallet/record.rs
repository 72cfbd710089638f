//! Reading records into tables and lists, and writing them back.

use vstd::prelude::*;

use super::table::map_of;
use super::table::ordered;
use super::table::pairs;
use super::table::Table;
use super::table::TableKey;
use super::types::Error;

verus! {

/// A record that stands for a value of a table, with its key.
pub trait Record: Sized {
    /// The keys.
    type Key: TableKey;

    /// The values.
    type Value: View;

    /// Why the record cannot be read.
    spec fn read_error(&self) -> Option<Error>;

    /// The key that the record holds.
    spec fn key(&self) -> Self::Key;

    /// The value that the record holds.
    spec fn value(&self) -> <Self::Value as View>::V;

    /// Whether a value can be read back when it has been written.
    spec fn writable(key: Self::Key, value: <Self::Value as View>::V) -> bool;

    /// The key that a value is written with, when it stands in a table under the given key.
    spec fn stored_key(key: Self::Key, value: <Self::Value as View>::V) -> Self::Key;

    /// Reads the record.
    fn read_record(&self) -> (r: Result<(Self::Key, Self::Value), Error>)
        ensures
            match self.read_error() {
                Some(e) => r matches Err(f) && f == e,
                None => r matches Ok((k, v)) && k == self.key() && v@ == self.value()
                    && Self::writable(k, v@) && Self::stored_key(k, v@) == k,
            },
    ;

    /// Writes a value with its key.
    fn write_record(key: &Self::Key, value: &Self::Value) -> (r: Self)
        ensures
            Self::writable(*key, value@) ==> r.read_error() is None && r.key() == Self::stored_key(
                *key,
                value@,
            ) && r.value() == value@,
    ;
}

/// The first record that cannot be read, and why.
pub open spec fn first_error<R: Record>(records: Seq<R>) -> Option<Error>
    decreases records.len(),
{
    if records.len() == 0 {
        None
    } else {
        match first_error(records.drop_last()) {
            Some(e) => Some(e),
            None => records.last().read_error(),
        }
    }
}

/// The entries that records hold.
pub open spec fn held<R: Record>(records: Seq<R>) -> Seq<(R::Key, <R::Value as View>::V)> {
    records.map_values(|r: R| (r.key(), r.value()))
}

/// Whether all values of a map can be read back under their keys when they have been written.
pub open spec fn all_writable<R: Record>(map: Map<R::Key, <R::Value as View>::V>) -> bool {
    forall|k: R::Key| #[trigger]
        map.dom().contains(k) ==> R::writable(k, map[k]) && R::stored_key(k, map[k]) == k
}

/// Whether there is a record for each of some entries, in their order, from which it can be read
/// back if it can be at all.
pub open spec fn written<R: Record>(
    records: Seq<R>,
    entries: Seq<(R::Key, <R::Value as View>::V)>,
) -> bool {
    &&& records.len() == entries.len()
    &&& forall|i: int|
        #![trigger records[i]]
        #![trigger entries[i]]
        0 <= i < records.len() && R::writable(entries[i].0, entries[i].1) ==> {
            &&& records[i].read_error() is None
            &&& records[i].key() == R::stored_key(entries[i].0, entries[i].1)
            &&& records[i].value() == entries[i].1
        }
}

/// An error in the first records is an error in all.
proof fn lemma_first_error_kept<R: Record>(records: Seq<R>, n: int)
    requires
        0 <= n <= records.len(),
        first_error(records.take(n)) is Some,
    ensures
        first_error(records) == first_error(records.take(n)),
    decreases records.len(),
{
    if n < records.len() {
        assert(records.drop_last().take(n) =~= records.take(n));
        lemma_first_error_kept(records.drop_last(), n);
    } else {
        assert(records.take(n) =~= records);
    }
}

/// Records that can all be read have no first that cannot.
proof fn lemma_no_error<R: Record>(records: Seq<R>)
    requires
        forall|i: int| 0 <= i < records.len() ==> (#[trigger] records[i]).read_error() is None,
    ensures
        first_error(records) is None,
    decreases records.len(),
{
    if records.len() > 0 {
        assert(records[records.len() - 1].read_error() is None);
        lemma_no_error(records.drop_last());
    }
}

/// Reads records into a table. Of two records with the same key the later one counts.
pub fn read_table<R: Record>(records: &Vec<R>) -> (r: Result<Table<R::Key, R::Value>, Error>)
    ensures
        match first_error(records@) {
            Some(e) => r matches Err(f) && f == e,
            None => r matches Ok(table) && table.map() == map_of(held(records@)) && all_writable::<R>(
                table.map(),
            ),
        },
{
    let mut table: Table<R::Key, R::Value> = Table::new();
    let mut i: usize = 0;
    assert(held(records@).take(0) =~= Seq::empty());
    while i < records.len()
        invariant
            i <= records.len(),
            first_error(records@.take(i as int)) is None,
            table.map() == map_of(held(records@).take(i as int)),
            all_writable::<R>(table.map()),
        decreases records.len() - i,
    {
        proof {
            assert(records@.take(i as int + 1).drop_last() =~= records@.take(i as int));
            assert(held(records@).take(i as int + 1).drop_last() =~= held(records@).take(i as int));
            if first_error(records@.take(i as int + 1)) is Some {
                lemma_first_error_kept(records@, i as int + 1);
            }
        }
        match records[i].read_record() {
            Ok((key, value)) => {
                table.insert(key, value);
            },
            Err(e) => {
                return Err(e);
            },
        }
        i = i + 1;
    }
    proof {
        assert(records@.take(i as int) =~= records@);
        assert(held(records@).take(i as int) =~= held(records@));
    }
    Ok(table)
}

/// The values of a list are those of its map, if each key occurs once.
proof fn lemma_map_of_at<K: TableKey, T>(s: Seq<(K, T)>, i: int)
    requires
        0 <= i < s.len(),
        ordered::<K, T>(s),
    ensures
        map_of(s).dom().contains(s[i].0),
        map_of(s)[s[i].0] == s[i].1,
    decreases s.len(),
{
    if i < s.len() - 1 {
        super::table::lemma_before_total(K::rank(s[i].0), K::rank(s.last().0));
        assert(super::table::before(K::rank(s[i].0), K::rank(s[s.len() - 1].0)));
        lemma_map_of_at::<K, T>(s.drop_last(), i);
        assert(s.drop_last()[i] == s[i]);
    }
}

/// Writes the records of a table, in the order of their keys. Reading them gives the table again.
pub fn write_table<R: Record>(table: &Table<R::Key, R::Value>) -> (r: Vec<R>)
    ensures
        written(r@, table.pair_seq()),
        all_writable::<R>(table.map()) ==> first_error(r@) is None && held(r@) == table.pair_seq(),
{
    let entries = table.entries();
    let ghost s = table.pair_seq();
    let mut records: Vec<R> = Vec::new();
    let mut i: usize = 0;
    while i < entries.len()
        invariant
            i <= entries@.len(),
            s == table.pair_seq(),
            s == pairs(entries@),
            s.len() == entries@.len(),
            ordered::<R::Key, <R::Value as View>::V>(s),
            records@.len() == i,
            written(records@, s.take(i as int)),
            all_writable::<R>(table.map()) ==> forall|k: int|
                0 <= k < i ==> (#[trigger] records@[k]).read_error() is None && records@[k].key()
                    == s[k].0 && records@[k].value() == s[k].1,
        decreases entries@.len() - i,
    {
        proof {
            lemma_map_of_at::<R::Key, <R::Value as View>::V>(s, i as int);
            assert(s[i as int] == (entries@[i as int].key, entries@[i as int].value@));
            if all_writable::<R>(table.map()) {
                assert(R::writable(s[i as int].0, s[i as int].1));
            }
        }
        let record = R::write_record(&entries[i].key, &entries[i].value);
        records.push(record);
        i = i + 1;
    }
    proof {
        assert(s.take(i as int) =~= s);
        if all_writable::<R>(table.map()) {
            lemma_no_error(records@);
            assert(held(records@) =~= s);
        }
    }
    records
}

/// A record that stands for an item of a list.
pub trait ListRecord: Sized {
    /// The items.
    type Item: View;

    /// Why the record cannot be read.
    spec fn read_error(&self) -> Option<Error>;

    /// The item that the record holds.
    spec fn item(&self) -> <Self::Item as View>::V;

    /// Whether an item can be read back when it has been written.
    spec fn writable(item: <Self::Item as View>::V) -> bool;

    /// Reads the record.
    fn read_record(&self) -> (r: Result<Self::Item, Error>)
        ensures
            match self.read_error() {
                Some(e) => r matches Err(f) && f == e,
                None => r matches Ok(item) && item@ == self.item() && Self::writable(item@),
            },
    ;

    /// Writes an item.
    fn write_record(item: &Self::Item) -> (r: Self)
        ensures
            Self::writable(item@) ==> r.read_error() is None && r.item() == item@,
    ;
}

/// The first record of a list that cannot be read, and why.
pub open spec fn first_list_error<R: ListRecord>(records: Seq<R>) -> Option<Error>
    decreases records.len(),
{
    if records.len() == 0 {
        None
    } else {
        match first_list_error(records.drop_last()) {
            Some(e) => Some(e),
            None => records.last().read_error(),
        }
    }
}

/// The items that records hold.
pub open spec fn items<R: ListRecord>(records: Seq<R>) -> Seq<<R::Item as View>::V> {
    records.map_values(|r: R| r.item())
}

/// What the items of a list stand for.
pub open spec fn item_views<T: View>(list: Seq<T>) -> Seq<T::V> {
    list.map_values(|t: T| t@)
}

/// Whether all items of a list can be read back when they have been written.
pub open spec fn list_writable<R: ListRecord>(list: Seq<<R::Item as View>::V>) -> bool {
    forall|i: int| 0 <= i < list.len() ==> R::writable(#[trigger] list[i])
}

/// Whether there is a record for each item of a list, in their order, from which it can be read back
/// if it can be at all.
pub open spec fn list_written<R: ListRecord>(
    records: Seq<R>,
    list: Seq<<R::Item as View>::V>,
) -> bool {
    &&& records.len() == list.len()
    &&& forall|i: int|
        #![trigger records[i]]
        #![trigger list[i]]
        0 <= i < records.len() && R::writable(list[i]) ==> records[i].read_error() is None
            && records[i].item() == list[i]
}

/// An error in the first records is an error in all.
proof fn lemma_list_error_kept<R: ListRecord>(records: Seq<R>, n: int)
    requires
        0 <= n <= records.len(),
        first_list_error(records.take(n)) is Some,
    ensures
        first_list_error(records) == first_list_error(records.take(n)),
    decreases records.len(),
{
    if n < records.len() {
        assert(records.drop_last().take(n) =~= records.take(n));
        lemma_list_error_kept(records.drop_last(), n);
    } else {
        assert(records.take(n) =~= records);
    }
}

/// Records that can all be read have no first that cannot.
proof fn lemma_no_list_error<R: ListRecord>(records: Seq<R>)
    requires
        forall|i: int| 0 <= i < records.len() ==> (#[trigger] records[i]).read_error() is None,
    ensures
        first_list_error(records) is None,
    decreases records.len(),
{
    if records.len() > 0 {
        assert(records[records.len() - 1].read_error() is None);
        lemma_no_list_error(records.drop_last());
    }
}

/// Reads records into a list.
pub fn read_list<R: ListRecord>(records: &Vec<R>) -> (r: Result<Vec<R::Item>, Error>)
    ensures
        match first_list_error(records@) {
            Some(e) => r matches Err(f) && f == e,
            None => r matches Ok(list) && item_views(list@) == items(records@) && list_writable::<R>(
                item_views(list@),
            ),
        },
{
    let mut list: Vec<R::Item> = Vec::new();
    let mut i: usize = 0;
    while i < records.len()
        invariant
            i <= records.len(),
            first_list_error(records@.take(i as int)) is None,
            list@.len() == i,
            forall|k: int|
                0 <= k < i ==> (#[trigger] list@[k])@ == records@[k].item() && R::writable(
                    list@[k]@,
                ),
        decreases records.len() - i,
    {
        proof {
            assert(records@.take(i as int + 1).drop_last() =~= records@.take(i as int));
            if first_list_error(records@.take(i as int + 1)) is Some {
                lemma_list_error_kept(records@, i as int + 1);
            }
        }
        match records[i].read_record() {
            Ok(item) => {
                list.push(item);
            },
            Err(e) => {
                return Err(e);
            },
        }
        i = i + 1;
    }
    proof {
        assert(records@.take(i as int) =~= records@);
        assert(item_views(list@) =~= items(records@));
        assert forall|k: int| 0 <= k < item_views(list@).len() implies R::writable(
            #[trigger] item_views(list@)[k],
        ) by {
            assert(item_views(list@)[k] == list@[k]@);
        }
    }
    Ok(list)
}

/// Writes the records of a list. Reading them gives the list again.
pub fn write_list<R: ListRecord>(list: &Vec<R::Item>) -> (r: Vec<R>)
    ensures
        list_written(r@, item_views(list@)),
        list_writable::<R>(item_views(list@)) ==> first_list_error(r@) is None && items(r@)
            == item_views(list@),
{
    let mut records: Vec<R> = Vec::new();
    let mut i: usize = 0;
    let ghost s = item_views(list@);
    while i < list.len()
        invariant
            i <= list@.len(),
            s == item_views(list@),
            list_written(records@, s.take(i as int)),
        decreases list@.len() - i,
    {
        proof {
            assert(s[i as int] == list@[i as int]@);
        }
        let record = R::write_record(&list[i]);
        records.push(record);
        i = i + 1;
    }
    proof {
        assert(s.take(i as int) =~= s);
        if list_writable::<R>(s) {
            lemma_no_list_error(records@);
            assert(items(records@) =~= s);
        }
    }
    records
}

} // verus!
