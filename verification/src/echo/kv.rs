//! The key/value table of the resolver and its snapshot.

use crate::dict::{collect, distinct_keys, lemma_collect_distinct, pairs};
use crate::text::str_eq;
use vstd::hash_map::StringHashMap;
use vstd::prelude::*;
use vstd::string::StringExecFns;

verus! {

/// `String::into_boxed_str` keeps the characters of the string.
pub assume_specification[ String::into_boxed_str ](s: String) -> (b: Box<str>)
    ensures
        b@ == s@,
;

/// `bincode::ErrorKind`, which `bincode::serialize` and `bincode::deserialize`
/// return boxed when they fail.
#[verifier::external_type_specification]
#[verifier::external_body]
pub struct ExBincodeErrorKind(bincode::ErrorKind);

/// The bytes that `bincode::serialize` gives for a list of string pairs, or
/// `None` where it fails.
pub uninterp spec fn snapshot_of(entries: Seq<(Seq<char>, Seq<char>)>) -> Option<Seq<u8>>;

/// The list of string pairs that `bincode::deserialize` reads from `bytes`,
/// or `None` where it fails.
pub uninterp spec fn entries_of(bytes: Seq<u8>) -> Option<Seq<(Seq<char>, Seq<char>)>>;

/// Calls `bincode::serialize` on the list. The call reads nothing but its
/// argument, so its outcome is the one that `snapshot_of` names.
#[verifier::external_body]
fn serialize_entries(entries: &Vec<(String, String)>) -> (r: Result<
    Vec<u8>,
    Box<bincode::ErrorKind>,
>)
    ensures
        match r {
            Ok(bytes) => snapshot_of(pairs(entries@)) == Some(bytes@),
            Err(_) => snapshot_of(pairs(entries@)) is None,
        },
{
    bincode::serialize(entries)
}

/// Calls `bincode::deserialize` for a list of string pairs. The call reads
/// nothing but its argument, so its outcome is the one that `entries_of`
/// names.
#[verifier::external_body]
fn deserialize_entries(bytes: &[u8]) -> (r: Result<Vec<(String, String)>, Box<bincode::ErrorKind>>)
    ensures
        match r {
            Ok(entries) => entries_of(bytes@) == Some(pairs(entries@)),
            Err(_) => entries_of(bytes@) is None,
        },
{
    bincode::deserialize(bytes)
}

/// The snapshot that is handed out for a list: the bytes that
/// `bincode::serialize` gives for it, where there are any and
/// `bincode::deserialize` reads the same list back from them.
pub open spec fn written(entries: Seq<(Seq<char>, Seq<char>)>) -> Option<Seq<u8>> {
    match snapshot_of(entries) {
        Some(bytes) => if entries_of(bytes) == Some(entries) {
            Some(bytes)
        } else {
            None
        },
        None => None,
    }
}

/// A snapshot that was handed out reads back as the list it was made of, and
/// so as the table that the list collects to.
pub proof fn lemma_written_reads_back(entries: Seq<(Seq<char>, Seq<char>)>, bytes: Seq<u8>)
    requires
        written(entries) == Some(bytes),
    ensures
        entries_of(bytes) == Some(entries),
        collect(entries_of(bytes)->0) == collect(entries),
{
}

/// Whether two lists hold the same pairs in the same order.
fn same_entries(a: &Vec<(String, String)>, b: &Vec<(String, String)>) -> (r: bool)
    ensures
        r == (pairs(a@) == pairs(b@)),
{
    if a.len() != b.len() {
        assert(pairs(a@).len() != pairs(b@).len());
        return false;
    }
    let mut i: usize = 0;
    while i < a.len()
        invariant
            i <= a@.len() == b@.len(),
            forall|j: int| 0 <= j < i ==> pairs(a@)[j] == pairs(b@)[j],
        decreases a@.len() - i,
    {
        if !str_eq(a[i].0.as_str(), b[i].0.as_str()) || !str_eq(a[i].1.as_str(), b[i].1.as_str()) {
            assert(pairs(a@)[i as int] != pairs(b@)[i as int]);
            return false;
        }
        i += 1;
    }
    assert(pairs(a@) =~= pairs(b@));
    true
}

/// Why a snapshot could not be read or made.
#[derive(Debug, PartialEq, Eq, Clone, Copy, Structural)]
pub enum PersistenceError {
    /// The snapshot exists but could not be read.
    Unreadable,
    /// The snapshot was read but does not hold a table.
    Corrupt,
    /// The table could not be turned into bytes that read back as the table.
    Unserializable,
}

/// Whether `index` sends every key among `entries` to its place there, and
/// nothing else anywhere.
spec fn indexed(entries: Seq<(String, String)>, index: Map<Seq<char>, usize>) -> bool {
    &&& index.dom().finite()
    &&& forall|k: Seq<char>| #[trigger]
        index.contains_key(k) ==> index[k] < entries.len() && entries[index[k] as int].0@ == k
    &&& forall|i: int|
        0 <= i < entries.len() ==> index.contains_key(#[trigger] entries[i].0@)
            && index[entries[i].0@] == i
}

/// The mapping that `entries` holds, read through `index`.
spec fn table(entries: Seq<(String, String)>, index: Map<Seq<char>, usize>) -> Map<
    Seq<char>,
    Seq<char>,
> {
    Map::new(|k: Seq<char>| index.contains_key(k), |k: Seq<char>| entries[index[k] as int].1@)
}

/// A mapping from key to value. Keys are unique; a later insert of a key
/// replaces its value.
pub struct Store {
    entries: Vec<(String, String)>,
    index: StringHashMap<usize>,
}

/// What looking for the snapshot gave.
pub enum SnapshotRead {
    /// The snapshot was there, with these bytes.
    Found(Vec<u8>),
    /// There is no snapshot yet.
    Missing,
    /// There is a snapshot, but reading it failed.
    Failed,
}

/// A table that is ready for use.
pub enum Opened {
    /// The table that the snapshot held.
    Loaded(Store),
    /// An empty table, with the snapshot that has to be written out first.
    Created(Store, Vec<u8>),
}

/// The line that shows a record: the key, a colon and a space, the value.
pub fn record_line(key: &str, value: &str) -> (line: String)
    ensures
        line@ == key@ + seq![':', ' '] + value@,
{
    let mut line = key.to_owned();
    line.push(':');
    line.push(' ');
    line.append(value);
    assert(line@ =~= key@ + seq![':', ' '] + value@);
    line
}

impl View for Store {
    type V = Map<Seq<char>, Seq<char>>;

    closed spec fn view(&self) -> Map<Seq<char>, Seq<char>> {
        table(self.entries@, self.index@)
    }
}

fn put(
    entries: &mut Vec<(String, String)>,
    index: &mut StringHashMap<usize>,
    key: &str,
    value: &str,
) -> (prev: Option<String>)
    requires
        indexed(old(entries)@, old(index)@),
    ensures
        indexed(final(entries)@, final(index)@),
        table(final(entries)@, final(index)@) == table(old(entries)@, old(index)@).insert(
            key@,
            value@,
        ),
        match prev {
            Some(v) => old(index)@.contains_key(key@) && table(old(entries)@, old(index)@)[key@]
                == v@,
            None => !old(index)@.contains_key(key@),
        },
{
    let found = match index.get(key) {
        Some(i) => Some(*i),
        None => None,
    };
    match found {
        Some(i) => {
            let prev = entries[i].1.clone();
            let k = entries[i].0.clone();
            entries.set(i, (k, value.to_owned()));
            assert(table(entries@, index@) =~= table(old(entries)@, old(index)@).insert(
                key@,
                value@,
            ));
            Some(prev)
        },
        None => {
            let n = entries.len();
            entries.push((key.to_owned(), value.to_owned()));
            index.insert(key.to_owned(), n);
            assert(table(entries@, index@) =~= table(old(entries)@, old(index)@).insert(
                key@,
                value@,
            ));
            None
        },
    }
}

/// An indexed list holds each key once, and collects to the mapping that is
/// read through the index.
proof fn lemma_listing(entries: Seq<(String, String)>, index: Map<Seq<char>, usize>)
    requires
        indexed(entries, index),
    ensures
        distinct_keys(pairs(entries)),
        collect(pairs(entries)) == table(entries, index),
        pairs(entries).len() == table(entries, index).len(),
{
    let listing = pairs(entries);
    assert forall|i: int, j: int| 0 <= i < j < listing.len() implies (#[trigger] listing[i]).0 != (
    #[trigger] listing[j]).0 by {
        assert(index[entries[i].0@] == i);
        assert(index[entries[j].0@] == j);
    }
    lemma_collect_distinct(listing);
    assert forall|k: Seq<char>| collect(listing).contains_key(k) implies index.contains_key(
        k,
    ) by {
        let i = choose|i: int| 0 <= i < listing.len() && (#[trigger] listing[i]).0 == k;
        assert(index.contains_key(entries[i].0@));
    }
    assert forall|k: Seq<char>| index.contains_key(k) implies collect(listing).contains_key(k)
        && collect(listing)[k] == table(entries, index)[k] by {
        let i = index[k] as int;
        assert(listing[i].0 == k);
    }
    assert(collect(listing) =~= table(entries, index));
    assert(pairs(entries).len() == entries.len());
}

impl Store {
    #[verifier::type_invariant]
    spec fn inv(&self) -> bool {
        indexed(self.entries@, self.index@)
    }

    fn new() -> (s: Store)
        ensures
            s@ == Map::<Seq<char>, Seq<char>>::empty(),
            s.listing() == Seq::<(Seq<char>, Seq<char>)>::empty(),
    {
        let s = Store { entries: Vec::new(), index: StringHashMap::new() };
        assert(s@ =~= Map::<Seq<char>, Seq<char>>::empty());
        assert(s.listing() =~= Seq::<(Seq<char>, Seq<char>)>::empty());
        s
    }

    /// An empty table that no snapshot backs.
    pub fn in_memory() -> (s: Store)
        ensures
            s@ == Map::<Seq<char>, Seq<char>>::empty(),
            s.listing() == Seq::<(Seq<char>, Seq<char>)>::empty(),
    {
        Self::new()
    }

    /// Decides what the table is once the snapshot has been looked for.
    ///
    /// A snapshot that was found is read; one that cannot be read as a table
    /// is an error. Where there is none, the table starts empty and comes
    /// with its own snapshot, to be written out before the table is used, so
    /// that a snapshot exists from the first run on.
    pub fn open(read: SnapshotRead) -> (r: Result<Opened, PersistenceError>)
        ensures
            match read {
                SnapshotRead::Found(bytes) => match r {
                    Ok(Opened::Loaded(s)) => entries_of(bytes@) is Some && s@ == collect(
                        entries_of(bytes@)->0,
                    ),
                    Ok(Opened::Created(_, _)) => false,
                    Err(e) => e == PersistenceError::Corrupt && entries_of(bytes@) is None,
                },
                SnapshotRead::Missing => match r {
                    Ok(Opened::Created(s, first)) => s@ == Map::<Seq<char>, Seq<char>>::empty()
                        && written(Seq::empty()) == Some(first@),
                    Ok(Opened::Loaded(_)) => false,
                    Err(e) => e == PersistenceError::Unserializable && written(Seq::empty())
                        is None,
                },
                SnapshotRead::Failed => r is Err && r->Err_0 == PersistenceError::Unreadable,
            },
    {
        match read {
            SnapshotRead::Found(bytes) => {
                match Store::from_snapshot(bytes.as_slice()) {
                    Ok(store) => Ok(Opened::Loaded(store)),
                    Err(e) => Err(e),
                }
            },
            SnapshotRead::Missing => {
                let store = Store::new();
                match store.to_snapshot() {
                    Ok(first) => Ok(Opened::Created(store, first)),
                    Err(e) => Err(e),
                }
            },
            SnapshotRead::Failed => Err(PersistenceError::Unreadable),
        }
    }

    /// Sets `key` to `value` and returns the value that `key` had before.
    pub fn insert(&mut self, key: &str, value: &str) -> (prev: Option<Box<str>>)
        ensures
            final(self)@ == old(self)@.insert(key@, value@),
            match prev {
                Some(v) => old(self)@.contains_key(key@) && old(self)@[key@] == v@,
                None => !old(self)@.contains_key(key@),
            },
    {
        let mut current = Store::new();
        core::mem::swap(self, &mut current);
        proof {
            use_type_invariant(&current);
        }
        let Store { mut entries, mut index } = current;
        let prev = put(&mut entries, &mut index, key, value);
        *self = Store { entries, index };
        match prev {
            Some(v) => Some(v.into_boxed_str()),
            None => None,
        }
    }

    /// The number of keys.
    pub fn len(&self) -> (n: usize)
        ensures
            n == self@.len(),
    {
        let n = self.index.len();
        assert(self@.dom() =~= self.index@.dom());
        n
    }

    /// The records in the order in which their keys first came in.
    pub closed spec fn listing(&self) -> Seq<(Seq<char>, Seq<char>)> {
        pairs(self.entries@)
    }

    /// A copy of every record, each key once, in the order of `listing`.
    /// Inserting the records into an empty table gives this table again.
    pub fn records(&self) -> (out: Vec<(String, String)>)
        ensures
            pairs(out@) == self.listing(),
            distinct_keys(self.listing()),
            collect(self.listing()) == self@,
            self.listing().len() == self@.len(),
    {
        proof {
            use_type_invariant(self);
        }
        let mut out: Vec<(String, String)> = Vec::new();
        let mut i: usize = 0;
        while i < self.entries.len()
            invariant
                i <= self.entries.len(),
                out@.len() == i,
                forall|j: int|
                    0 <= j < i ==> (#[trigger] out@[j]).0@ == self.entries@[j].0@ && out@[j].1@
                        == self.entries@[j].1@,
            decreases self.entries.len() - i,
        {
            let key = self.entries[i].0.clone();
            let value = self.entries[i].1.clone();
            out.push((key, value));
            i += 1;
        }
        assert(pairs(out@) =~= pairs(self.entries@));
        proof {
            lemma_listing(self.entries@, self.index@);
        }
        out
    }

    /// A copy of the first `n` records in the order of `listing`, or of all
    /// of them where `n` is `None` or more than there are.
    pub fn first_records(&self, n: Option<usize>) -> (out: Vec<(String, String)>)
        ensures
            pairs(out@) == self.listing().take(
                match n {
                    Some(n) if n < self.listing().len() => n as int,
                    _ => self.listing().len() as int,
                },
            ),
    {
        let mut out = self.records();
        match n {
            Some(n) => {
                if n < out.len() {
                    out.truncate(n);
                    assert(pairs(out@) =~= self.listing().take(n as int));
                } else {
                    assert(pairs(out@) =~= self.listing().take(self.listing().len() as int));
                }
            },
            None => {
                assert(pairs(out@) =~= self.listing().take(self.listing().len() as int));
            },
        }
        out
    }

    /// The table that results from inserting `entries` in order.
    pub fn from_entries(entries: Vec<(String, String)>) -> (s: Store)
        ensures
            s@ == collect(pairs(entries@)),
    {
        let mut kept: Vec<(String, String)> = Vec::new();
        let mut index: StringHashMap<usize> = StringHashMap::new();
        let mut i: usize = 0;
        assert(table(kept@, index@) =~= collect(pairs(entries@).take(0)));
        while i < entries.len()
            invariant
                i <= entries.len(),
                indexed(kept@, index@),
                table(kept@, index@) == collect(pairs(entries@).take(i as int)),
            decreases entries.len() - i,
        {
            let _ = put(&mut kept, &mut index, entries[i].0.as_str(), entries[i].1.as_str());
            i += 1;
            assert(pairs(entries@).take(i as int).drop_last() =~= pairs(entries@).take(i - 1));
        }
        assert(pairs(entries@).take(i as int) =~= pairs(entries@));
        Store { entries: kept, index }
    }

    /// The snapshot of this table: the serialised form of `listing`. The
    /// bytes are read back before they are handed out, so a snapshot that
    /// was made holds this table and nothing else.
    pub fn to_snapshot(&self) -> (r: Result<Vec<u8>, PersistenceError>)
        ensures
            match r {
                Ok(bytes) => {
                    &&& written(self.listing()) == Some(bytes@)
                    &&& entries_of(bytes@) == Some(self.listing())
                    &&& collect(self.listing()) == self@
                },
                Err(e) => e == PersistenceError::Unserializable && written(self.listing())
                    is None,
            },
    {
        proof {
            use_type_invariant(self);
            lemma_listing(self.entries@, self.index@);
        }
        let bytes = match serialize_entries(&self.entries) {
            Ok(bytes) => bytes,
            Err(_) => {
                return Err(PersistenceError::Unserializable);
            },
        };
        match deserialize_entries(bytes.as_slice()) {
            Ok(back) => {
                if same_entries(&back, &self.entries) {
                    Ok(bytes)
                } else {
                    Err(PersistenceError::Unserializable)
                }
            },
            Err(_) => Err(PersistenceError::Unserializable),
        }
    }

    /// The table that a snapshot holds.
    pub fn from_snapshot(bytes: &[u8]) -> (r: Result<Store, PersistenceError>)
        ensures
            match r {
                Ok(s) => entries_of(bytes@) is Some && s@ == collect(entries_of(bytes@)->0),
                Err(e) => e == PersistenceError::Corrupt && entries_of(bytes@) is None,
            },
    {
        match deserialize_entries(bytes) {
            Ok(entries) => Ok(Store::from_entries(entries)),
            Err(_) => Err(PersistenceError::Corrupt),
        }
    }

    /// Sets `key` to `value`, then makes the snapshot that has to be written
    /// out. The table holds the new value even where no snapshot could be
    /// made.
    pub fn insert_snapshot(&mut self, key: &str, value: &str) -> (r: Result<
        Vec<u8>,
        PersistenceError,
    >)
        ensures
            final(self)@ == old(self)@.insert(key@, value@),
            match r {
                Ok(bytes) => {
                    &&& written(final(self).listing()) == Some(bytes@)
                    &&& entries_of(bytes@) == Some(final(self).listing())
                    &&& collect(final(self).listing()) == final(self)@
                },
                Err(e) => e == PersistenceError::Unserializable && written(final(self).listing())
                    is None,
            },
    {
        let _ = self.insert(key, value);
        self.to_snapshot()
    }

    /// The value of `key`, if it has one.
    pub fn get(&self, key: &str) -> (r: Option<&str>)
        ensures
            match r {
                Some(v) => self@.contains_key(key@) && self@[key@] == v@,
                None => !self@.contains_key(key@),
            },
    {
        proof {
            use_type_invariant(self);
        }
        match self.index.get(key) {
            Some(i) => Some(self.entries[*i].1.as_str()),
            None => None,
        }
    }
}

} // verus!
