//! A dictionary from strings to strings that keeps its entries in the order
//! of their keys, so that two dictionaries with the same contents are the
//! same value and are walked in the same order.

use crate::text::{lemma_lex_asymmetric, lemma_lex_total, lemma_lex_transitive, lex_lt, str_eq, str_lt};
use vstd::prelude::*;

verus! {

/// The entries as pairs of character sequences.
pub open spec fn pairs(entries: Seq<(String, String)>) -> Seq<(Seq<char>, Seq<char>)> {
    entries.map_values(|e: (String, String)| (e.0@, e.1@))
}

/// The mapping that results from inserting `entries` in order into an empty
/// one: where a key occurs more than once, its last value stands.
pub open spec fn collect(entries: Seq<(Seq<char>, Seq<char>)>) -> Map<Seq<char>, Seq<char>>
    decreases entries.len(),
{
    if entries.len() == 0 {
        Map::empty()
    } else {
        collect(entries.drop_last()).insert(entries.last().0, entries.last().1)
    }
}

/// Whether no key occurs twice in `entries`.
pub open spec fn distinct_keys(entries: Seq<(Seq<char>, Seq<char>)>) -> bool {
    forall|i: int, j: int|
        0 <= i < j < entries.len() ==> (#[trigger] entries[i]).0 != (#[trigger] entries[j]).0
}

/// Whether the keys of `entries` stand in strictly ascending order.
pub open spec fn ascending(entries: Seq<(Seq<char>, Seq<char>)>) -> bool {
    forall|i: int, j: int|
        0 <= i < j < entries.len() ==> lex_lt((#[trigger] entries[i]).0, (#[trigger] entries[j]).0)
}

/// Keys in strictly ascending order are distinct.
pub proof fn lemma_ascending_distinct(entries: Seq<(Seq<char>, Seq<char>)>)
    requires
        ascending(entries),
    ensures
        distinct_keys(entries),
{
    assert forall|i: int, j: int| 0 <= i < j < entries.len() implies (#[trigger] entries[i]).0 != (
    #[trigger] entries[j]).0 by {
        lemma_lex_asymmetric(entries[i].0, entries[j].0);
    }
}

/// A list without repeated keys collects to the mapping that holds exactly
/// its pairs, and that has as many keys as the list has entries.
pub proof fn lemma_collect_distinct(entries: Seq<(Seq<char>, Seq<char>)>)
    requires
        distinct_keys(entries),
    ensures
        forall|i: int|
            0 <= i < entries.len() ==> collect(entries).contains_key((#[trigger] entries[i]).0)
                && collect(entries)[entries[i].0] == entries[i].1,
        forall|k: Seq<char>| #[trigger]
            collect(entries).contains_key(k) ==> exists|i: int|
                0 <= i < entries.len() && (#[trigger] entries[i]).0 == k,
        collect(entries).dom().finite(),
        collect(entries).len() == entries.len(),
    decreases entries.len(),
{
    if entries.len() > 0 {
        let front = entries.drop_last();
        lemma_collect_distinct(front);
        assert forall|i: int| 0 <= i < entries.len() implies collect(entries).contains_key(
            (#[trigger] entries[i]).0,
        ) && collect(entries)[entries[i].0] == entries[i].1 by {
            if i < entries.len() - 1 {
                assert(front[i] == entries[i]);
                assert(entries[i].0 != entries[entries.len() - 1].0);
            }
        }
        assert forall|k: Seq<char>| #[trigger] collect(entries).contains_key(k) implies exists|
            i: int,
        |
            0 <= i < entries.len() && (#[trigger] entries[i]).0 == k by {
            if k == entries.last().0 {
                assert(entries[entries.len() - 1].0 == k);
            } else {
                assert(collect(front).contains_key(k));
                let i = choose|i: int| 0 <= i < front.len() && (#[trigger] front[i]).0 == k;
                assert(entries[i].0 == k);
            }
        }
        if collect(front).contains_key(entries.last().0) {
            let i = choose|i: int|
                0 <= i < front.len() && (#[trigger] front[i]).0 == entries.last().0;
            assert(entries[i].0 == entries[entries.len() - 1].0);
        }
    }
}

/// Two lists without repeated keys collect to the same mapping up to one
/// key: where the second holds the pairs of the first whose key is not
/// `key`, and the pair of `key` and `value` besides.
pub proof fn lemma_collect_insert(
    before: Seq<(Seq<char>, Seq<char>)>,
    after: Seq<(Seq<char>, Seq<char>)>,
    key: Seq<char>,
    value: Seq<char>,
)
    requires
        distinct_keys(before),
        distinct_keys(after),
        forall|i: int|
            0 <= i < before.len() && (#[trigger] before[i]).0 != key ==> exists|j: int|
                0 <= j < after.len() && #[trigger] after[j] == before[i],
        forall|j: int|
            0 <= j < after.len() && (#[trigger] after[j]).0 != key ==> exists|i: int|
                0 <= i < before.len() && #[trigger] before[i] == after[j],
        exists|j: int| 0 <= j < after.len() && #[trigger] after[j] == (key, value),
    ensures
        collect(after) == collect(before).insert(key, value),
{
    lemma_collect_distinct(before);
    lemma_collect_distinct(after);
    let target = collect(before).insert(key, value);
    assert forall|k: Seq<char>| collect(after).contains_key(k) implies target.contains_key(k)
        && target[k] == collect(after)[k] by {
        let j = choose|j: int| 0 <= j < after.len() && (#[trigger] after[j]).0 == k;
        if k != key {
            let i = choose|i: int| 0 <= i < before.len() && #[trigger] before[i] == after[j];
            assert(before[i].0 == k);
        } else {
            let w = choose|w: int| 0 <= w < after.len() && #[trigger] after[w] == (key, value);
            assert(after[w].0 == key);
            if w < j {
                assert(after[w].0 != after[j].0);
            }
            if j < w {
                assert(after[j].0 != after[w].0);
            }
        }
    }
    assert forall|k: Seq<char>| target.contains_key(k) implies collect(after).contains_key(k) by {
        if k != key {
            let i = choose|i: int| 0 <= i < before.len() && (#[trigger] before[i]).0 == k;
            let j = choose|j: int| 0 <= j < after.len() && #[trigger] after[j] == before[i];
            assert(after[j].0 == k);
        } else {
            let w = choose|w: int| 0 <= w < after.len() && #[trigger] after[w] == (key, value);
            assert(after[w].0 == key);
        }
    }
    assert(collect(after) =~= target);
}

/// Two ascending lists that collect to the same mapping agree on their first
/// `n` entries.
proof fn lemma_ascending_prefix(
    a: Seq<(Seq<char>, Seq<char>)>,
    b: Seq<(Seq<char>, Seq<char>)>,
    n: int,
)
    requires
        ascending(a),
        ascending(b),
        collect(a) == collect(b),
        0 <= n <= a.len(),
    ensures
        a.len() == b.len(),
        forall|i: int| 0 <= i < n ==> a[i] == b[i],
    decreases n,
{
    lemma_ascending_distinct(a);
    lemma_ascending_distinct(b);
    lemma_collect_distinct(a);
    lemma_collect_distinct(b);
    if n > 0 {
        lemma_ascending_prefix(a, b, n - 1);
        let i = n - 1;
        // the key of `a[i]` stands in `b` at some `j`, that of `b[i]` in `a` at some `k`
        assert(collect(b).contains_key(a[i].0));
        let j = choose|j: int| 0 <= j < b.len() && (#[trigger] b[j]).0 == a[i].0;
        assert(collect(a).contains_key(b[i].0));
        let k = choose|k: int| 0 <= k < a.len() && (#[trigger] a[k]).0 == b[i].0;
        if j < i {
            assert(a[j] == b[j]);
            assert(a[j].0 != a[i].0);
        }
        if k < i {
            assert(a[k] == b[k]);
            assert(b[k].0 != b[i].0);
        }
        if j > i {
            assert(lex_lt(b[i].0, b[j].0));
            if k > i {
                assert(lex_lt(a[i].0, a[k].0));
                lemma_lex_asymmetric(a[i].0, a[k].0);
            } else {
                lemma_lex_asymmetric(b[i].0, b[j].0);
            }
        }
        assert(a[i].0 == b[i].0);
        assert(collect(a)[a[i].0] == a[i].1);
        assert(collect(b)[b[i].0] == b[i].1);
    }
}

/// A mapping is written as an ascending list in one way only.
pub proof fn lemma_ascending_unique(a: Seq<(Seq<char>, Seq<char>)>, b: Seq<(Seq<char>, Seq<char>)>)
    requires
        ascending(a),
        ascending(b),
        collect(a) == collect(b),
    ensures
        a == b,
{
    lemma_ascending_prefix(a, b, a.len() as int);
    assert(a =~= b);
}

/// A dictionary from strings to strings, ordered by key.
#[derive(Debug, PartialEq)]
pub struct Dict {
    entries: Vec<(String, String)>,
}

impl View for Dict {
    type V = Map<Seq<char>, Seq<char>>;

    closed spec fn view(&self) -> Map<Seq<char>, Seq<char>> {
        collect(pairs(self.entries@))
    }
}

impl Dict {
    #[verifier::type_invariant]
    spec fn inv(&self) -> bool {
        ascending(pairs(self.entries@))
    }

    /// The entries, in the order of their keys.
    pub closed spec fn listing(&self) -> Seq<(Seq<char>, Seq<char>)> {
        pairs(self.entries@)
    }

    /// An empty dictionary.
    pub fn new() -> (d: Dict)
        ensures
            d@ == Map::<Seq<char>, Seq<char>>::empty(),
            d.listing() == Seq::<(Seq<char>, Seq<char>)>::empty(),
    {
        let d = Dict { entries: Vec::new() };
        assert(d.listing() =~= Seq::<(Seq<char>, Seq<char>)>::empty());
        d
    }

    /// The number of keys.
    pub fn len(&self) -> (n: usize)
        ensures
            n == self@.len(),
            n == self.listing().len(),
    {
        proof {
            use_type_invariant(self);
            lemma_ascending_distinct(pairs(self.entries@));
            lemma_collect_distinct(pairs(self.entries@));
        }
        self.entries.len()
    }

    /// The entry at place `i` in the order of the keys.
    pub fn entry(&self, i: usize) -> (r: Option<(&str, &str)>)
        ensures
            ascending(self.listing()),
            collect(self.listing()) == self@,
            match r {
                Some((k, v)) => i < self.listing().len() && self.listing()[i as int] == (k@, v@),
                None => i >= self.listing().len(),
            },
    {
        proof {
            use_type_invariant(self);
        }
        if i < self.entries.len() {
            Some((self.entries[i].0.as_str(), self.entries[i].1.as_str()))
        } else {
            None
        }
    }

    /// The value of `key`, if it has one.
    pub fn get(&self, key: &str) -> (r: Option<&String>)
        ensures
            match r {
                Some(v) => self@.contains_key(key@) && self@[key@] == v@,
                None => !self@.contains_key(key@),
            },
    {
        proof {
            use_type_invariant(self);
            lemma_ascending_distinct(pairs(self.entries@));
            lemma_collect_distinct(pairs(self.entries@));
        }
        let mut i: usize = 0;
        while i < self.entries.len()
            invariant
                i <= self.entries@.len(),
                forall|j: int| 0 <= j < i ==> (#[trigger] pairs(self.entries@)[j]).0 != key@,
                forall|j: int|
                    0 <= j < self.entries@.len() ==> self@.contains_key(
                        (#[trigger] pairs(self.entries@)[j]).0,
                    ) && self@[pairs(self.entries@)[j].0] == pairs(self.entries@)[j].1,
            decreases self.entries@.len() - i,
        {
            if str_eq(self.entries[i].0.as_str(), key) {
                assert(pairs(self.entries@)[i as int].0 == key@);
                return Some(&self.entries[i].1);
            }
            i += 1;
        }
        proof {
            if self@.contains_key(key@) {
                let j = choose|j: int|
                    0 <= j < self.entries@.len() && (#[trigger] pairs(self.entries@)[j]).0
                        == key@;
                assert(false);
            }
        }
        None
    }

    /// Sets `key` to `value` and returns the value that `key` had before.
    pub fn insert(&mut self, key: String, value: String) -> (prev: Option<String>)
        ensures
            final(self)@ == old(self)@.insert(key@, value@),
            match prev {
                Some(v) => old(self)@.contains_key(key@) && old(self)@[key@] == v@,
                None => !old(self)@.contains_key(key@),
            },
    {
        let mut current = Dict::new();
        core::mem::swap(self, &mut current);
        proof {
            use_type_invariant(&current);
        }
        let Dict { mut entries } = current;
        let prev = place(&mut entries, key, value);
        *self = Dict { entries };
        prev
    }
}

/// Replacing the value at one place of an ascending list keeps it ascending
/// and sets the key of that place to the new value.
proof fn lemma_replace(
    before: Seq<(Seq<char>, Seq<char>)>,
    at: int,
    value: Seq<char>,
)
    requires
        ascending(before),
        0 <= at < before.len(),
    ensures
        ascending(before.update(at, (before[at].0, value))),
        collect(before.update(at, (before[at].0, value))) == collect(before).insert(
            before[at].0,
            value,
        ),
        collect(before).contains_key(before[at].0),
        collect(before)[before[at].0] == before[at].1,
{
    let key = before[at].0;
    let after = before.update(at, (key, value));
    lemma_ascending_distinct(before);
    lemma_collect_distinct(before);
    assert forall|i: int, j: int| 0 <= i < j < after.len() implies lex_lt(
        (#[trigger] after[i]).0,
        (#[trigger] after[j]).0,
    ) by {
        assert(lex_lt(before[i].0, before[j].0));
    }
    lemma_ascending_distinct(after);
    assert forall|i: int| 0 <= i < before.len() && (#[trigger] before[i]).0 != key implies exists|
        j: int,
    |
        0 <= j < after.len() && #[trigger] after[j] == before[i] by {
        assert(after[i] == before[i]);
    }
    assert forall|j: int| 0 <= j < after.len() && (#[trigger] after[j]).0 != key implies exists|
        i: int,
    |
        0 <= i < before.len() && #[trigger] before[i] == after[j] by {
        assert(before[j] == after[j]);
    }
    assert(after[at] == (key, value));
    lemma_collect_insert(before, after, key, value);
}

/// Putting a key between the smaller keys and the larger ones keeps an
/// ascending list ascending.
proof fn lemma_put_in_ascending(
    before: Seq<(Seq<char>, Seq<char>)>,
    at: int,
    key: Seq<char>,
    value: Seq<char>,
)
    requires
        ascending(before),
        0 <= at <= before.len(),
        forall|j: int| 0 <= j < at ==> lex_lt((#[trigger] before[j]).0, key),
        at < before.len() ==> lex_lt(key, before[at].0),
    ensures
        ascending(before.insert(at, (key, value))),
        forall|j: int| at <= j < before.len() ==> lex_lt(key, (#[trigger] before[j]).0),
{
    let after = before.insert(at, (key, value));
    assert forall|j: int| at <= j < before.len() implies lex_lt(key, (#[trigger] before[j]).0) by {
        if j > at {
            assert(lex_lt(before[at].0, before[j].0));
            lemma_lex_transitive(key, before[at].0, before[j].0);
        }
    }
    assert forall|i: int, j: int| 0 <= i < j < after.len() implies lex_lt(
        (#[trigger] after[i]).0,
        (#[trigger] after[j]).0,
    ) by {
        let x = if i < at {
            before[i]
        } else if i == at {
            (key, value)
        } else {
            before[i - 1]
        };
        let y = if j < at {
            before[j]
        } else if j == at {
            (key, value)
        } else {
            before[j - 1]
        };
        assert(after[i] == x);
        assert(after[j] == y);
        if j < at {
            assert(lex_lt(before[i].0, before[j].0));
        } else if j == at {
            assert(lex_lt(before[i].0, key));
        } else if i < at {
            assert(lex_lt(before[i].0, before[j - 1].0));
        } else if i == at {
            assert(lex_lt(key, before[j - 1].0));
        } else {
            assert(lex_lt(before[i - 1].0, before[j - 1].0));
        }
    }
}

/// Putting a new key between the smaller keys and the larger ones adds the
/// key with its value to what the list collects to.
proof fn lemma_put_in(
    before: Seq<(Seq<char>, Seq<char>)>,
    at: int,
    key: Seq<char>,
    value: Seq<char>,
)
    requires
        ascending(before),
        0 <= at <= before.len(),
        forall|j: int| 0 <= j < at ==> lex_lt((#[trigger] before[j]).0, key),
        at < before.len() ==> lex_lt(key, before[at].0),
    ensures
        ascending(before.insert(at, (key, value))),
        collect(before.insert(at, (key, value))) == collect(before).insert(key, value),
        !collect(before).contains_key(key),
{
    let after = before.insert(at, (key, value));
    lemma_put_in_ascending(before, at, key, value);
    lemma_ascending_distinct(before);
    lemma_ascending_distinct(after);
    assert forall|i: int| 0 <= i < before.len() && (#[trigger] before[i]).0 != key implies exists|
        j: int,
    |
        0 <= j < after.len() && #[trigger] after[j] == before[i] by {
        if i < at {
            assert(after[i] == before[i]);
        } else {
            assert(after[i + 1] == before[i]);
        }
    }
    assert forall|j: int| 0 <= j < after.len() && (#[trigger] after[j]).0 != key implies exists|
        i: int,
    |
        0 <= i < before.len() && #[trigger] before[i] == after[j] by {
        if j < at {
            assert(before[j] == after[j]);
        } else {
            assert(before[j - 1] == after[j]);
        }
    }
    assert(after[at] == (key, value));
    lemma_collect_insert(before, after, key, value);
    lemma_absent(before, at, key);
}

/// A key that stands strictly between two neighbours of an ascending list is
/// not in the list.
proof fn lemma_absent(before: Seq<(Seq<char>, Seq<char>)>, at: int, key: Seq<char>)
    requires
        ascending(before),
        0 <= at <= before.len(),
        forall|j: int| 0 <= j < at ==> lex_lt((#[trigger] before[j]).0, key),
        forall|j: int| at <= j < before.len() ==> lex_lt(key, (#[trigger] before[j]).0),
    ensures
        !collect(before).contains_key(key),
{
    lemma_ascending_distinct(before);
    lemma_collect_distinct(before);
    if collect(before).contains_key(key) {
        let i = choose|i: int| 0 <= i < before.len() && (#[trigger] before[i]).0 == key;
        if i < at {
            lemma_lex_asymmetric(before[i].0, key);
        } else {
            lemma_lex_asymmetric(key, before[i].0);
        }
    }
}

/// Puts the pair where its key belongs in an ascending list.
fn place(entries: &mut Vec<(String, String)>, key: String, value: String) -> (prev: Option<String>)
    requires
        ascending(pairs(old(entries)@)),
    ensures
        ascending(pairs(final(entries)@)),
        collect(pairs(final(entries)@)) == collect(pairs(old(entries)@)).insert(key@, value@),
        match prev {
            Some(v) => collect(pairs(old(entries)@)).contains_key(key@) && collect(
                pairs(old(entries)@),
            )[key@] == v@,
            None => !collect(pairs(old(entries)@)).contains_key(key@),
        },
{
    let ghost before = pairs(entries@);
    let mut at: usize = 0;
    while at < entries.len() && str_lt(entries[at].0.as_str(), key.as_str())
        invariant
            at <= entries@.len(),
            pairs(entries@) == before,
            forall|j: int| 0 <= j < at ==> lex_lt((#[trigger] before[j]).0, key@),
        decreases entries@.len() - at,
    {
        assert(before[at as int].0 == entries@[at as int].0@);
        at += 1;
    }
    let ghost k = key@;
    let ghost v = value@;
    if at < entries.len() && str_eq(entries[at].0.as_str(), key.as_str()) {
        let prev = entries[at].1.clone();
        entries.set(at, (key, value));
        proof {
            assert(before[at as int] == (k, prev@));
            assert(pairs(entries@) =~= before.update(at as int, (k, v)));
            lemma_replace(before, at as int, v);
        }
        Some(prev)
    } else {
        proof {
            if at < entries@.len() {
                assert(before[at as int].0 == entries@[at as int].0@);
                lemma_lex_total(before[at as int].0, k);
            }
        }
        entries.insert(at, (key, value));
        proof {
            assert(pairs(entries@) =~= before.insert(at as int, (k, v)));
            lemma_put_in(before, at as int, k, v);
        }
        None
    }
}

impl Clone for Dict {
    fn clone(&self) -> (d: Dict)
        ensures
            d@ == self@,
            d.listing() == self.listing(),
    {
        proof {
            use_type_invariant(self);
        }
        let mut entries: Vec<(String, String)> = Vec::new();
        let mut i: usize = 0;
        while i < self.entries.len()
            invariant
                i <= self.entries@.len(),
                entries@.len() == i,
                forall|j: int|
                    0 <= j < i ==> (#[trigger] entries@[j]).0@ == self.entries@[j].0@
                        && entries@[j].1@ == self.entries@[j].1@,
            decreases self.entries@.len() - i,
        {
            let key = self.entries[i].0.clone();
            let value = self.entries[i].1.clone();
            entries.push((key, value));
            i += 1;
        }
        assert(pairs(entries@) =~= pairs(self.entries@));
        Dict { entries }
    }
}

} // verus!
