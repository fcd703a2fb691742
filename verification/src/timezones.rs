//! A directory of time zones by name.
//!
//! A directory is made once from its records and never changes. Each record
//! holds a zone under its canonical name, and the other names, its aliases,
//! that lead to the same zone.

use vstd::prelude::*;
use crate::text::chars_of;
use crate::text::compare;
use crate::text::contains;
use crate::text::is_infix;
use crate::text::lemma_precedes_asymmetric;
use crate::text::lemma_precedes_transitive;
use crate::text::precedes;
use crate::text::Order;
use crate::timezone_impl::Tz;

verus! {

/// A zone as a directory is made from it.
#[derive(Debug, PartialEq, Eq)]
pub struct ZoneRecord {
    /// The name that the zone goes by.
    pub canonical_name: String,
    /// The other names that lead to the zone.
    pub aliases: Vec<String>,
    pub zone: Tz,
}

/// Why a sequence of records makes no directory.
#[derive(Clone, Copy, Debug, PartialEq, Eq)]
pub enum DirectoryError {
    /// Two records have the same canonical name.
    DuplicateName,
    /// An alias is a canonical name too, or occurs twice.
    DuplicateAlias,
}

/// The canonical name of record `i`.
pub open spec fn name_at(records: Seq<ZoneRecord>, i: int) -> Seq<char> {
    records[i].canonical_name@
}

/// Alias `k` of record `i`.
pub open spec fn alias_at(records: Seq<ZoneRecord>, i: int, k: int) -> Seq<char> {
    records[i].aliases@[k]@
}

/// Whether record `i` has an alias `k`.
pub open spec fn is_alias_position(records: Seq<ZoneRecord>, i: int, k: int) -> bool {
    0 <= i < records.len() && 0 <= k < records[i].aliases@.len()
}

/// Whether no two records have the same canonical name.
pub open spec fn names_distinct(records: Seq<ZoneRecord>) -> bool {
    forall|i: int, j: int|
        0 <= i < j < records.len() ==> #[trigger] name_at(records, i) != #[trigger] name_at(
            records,
            j,
        )
}

/// Whether no alias is a canonical name and no alias occurs twice.
pub open spec fn aliases_distinct(records: Seq<ZoneRecord>) -> bool {
    &&& forall|i: int, k: int, j: int|
        is_alias_position(records, i, k) && 0 <= j < records.len() ==> #[trigger] alias_at(
            records,
            i,
            k,
        ) != #[trigger] name_at(records, j)
    &&& forall|i: int, k: int, j: int, l: int|
        is_alias_position(records, i, k) && is_alias_position(records, j, l) && (i != j || k
            != l) ==> #[trigger] alias_at(records, i, k) != #[trigger] alias_at(records, j, l)
}

/// The first reason, in the order of `DirectoryError`, why `records` make no
/// directory, or nothing if they make one.
pub open spec fn directory_fault(records: Seq<ZoneRecord>) -> Option<DirectoryError> {
    if !names_distinct(records) {
        Some(DirectoryError::DuplicateName)
    } else if !aliases_distinct(records) {
        Some(DirectoryError::DuplicateAlias)
    } else {
        None
    }
}

/// Whether `name` is the canonical name of record `i`.
pub open spec fn has_name(records: Seq<ZoneRecord>, i: int, name: Seq<char>) -> bool {
    0 <= i < records.len() && name_at(records, i) == name
}

/// Whether `name` is an alias of record `i`.
pub open spec fn has_alias(records: Seq<ZoneRecord>, i: int, name: Seq<char>) -> bool {
    exists|k: int| is_alias_position(records, i, k) && #[trigger] alias_at(records, i, k) == name
}

/// The index of the record that `name` leads to: the one with that canonical
/// name, or else the one with that alias, or nothing if no record has either.
pub open spec fn index_of_name(records: Seq<ZoneRecord>, name: Seq<char>) -> Option<int> {
    if exists|i: int| has_name(records, i, name) {
        Some(choose|i: int| has_name(records, i, name))
    } else if exists|i: int| has_alias(records, i, name) {
        Some(choose|i: int| has_alias(records, i, name))
    } else {
        None
    }
}

/// The zones of those among the first `count` records whose canonical name
/// holds `fragment`, in the order of the records.
pub open spec fn zones_holding(records: Seq<ZoneRecord>, fragment: Seq<char>, count: int) -> Seq<
    Tz,
>
    decreases count,
{
    if count <= 0 {
        Seq::empty()
    } else if is_infix(fragment, name_at(records, count - 1)) {
        zones_holding(records, fragment, count - 1).push(records[count - 1].zone)
    } else {
        zones_holding(records, fragment, count - 1)
    }
}

/// A name in a sorted index, with the record it leads to.
#[derive(Debug, PartialEq, Eq)]
struct IndexEntry {
    key: Vec<char>,
    target: usize,
}

/// Whether the keys of `index` stand in the order of names, none twice.
spec fn keys_sorted(index: Seq<IndexEntry>) -> bool {
    forall|a: int, b: int|
        0 <= a < b < index.len() ==> precedes(#[trigger] index[a].key@, #[trigger] index[b].key@)
}

/// Whether `key` is a key of `index`.
spec fn holds_key(index: Seq<IndexEntry>, key: Seq<char>) -> bool {
    exists|p: int| 0 <= p < index.len() && #[trigger] index[p].key@ == key
}

/// Whether `position` is where `key` belongs in `index`: after every lesser
/// key and before every greater one.
spec fn is_place_of(index: Seq<IndexEntry>, key: Seq<char>, position: int) -> bool {
    &&& 0 <= position <= index.len()
    &&& forall|j: int| 0 <= j < position ==> precedes(#[trigger] index[j].key@, key)
    &&& forall|j: int| position <= j < index.len() ==> precedes(key, #[trigger] index[j].key@)
}

/// A key with a place in a sorted index is none of its keys.
proof fn lemma_place_means_absent(index: Seq<IndexEntry>, key: Seq<char>, position: int)
    requires
        is_place_of(index, key, position),
    ensures
        !holds_key(index, key),
{
    if holds_key(index, key) {
        let p = choose|p: int| 0 <= p < index.len() && #[trigger] index[p].key@ == key;
        if p < position {
            lemma_precedes_asymmetric(index[p].key@, key);
        } else {
            lemma_precedes_asymmetric(key, index[p].key@);
        }
    }
}

/// Putting an entry in its place keeps the index sorted and keeps every key;
/// each entry afterwards is the new one or was there before.
proof fn lemma_insert_in_place(index: Seq<IndexEntry>, entry: IndexEntry, position: int)
    requires
        keys_sorted(index),
        is_place_of(index, entry.key@, position),
    ensures
        keys_sorted(index.insert(position, entry)),
        holds_key(index.insert(position, entry), entry.key@),
        forall|key: Seq<char>|
            holds_key(index, key) ==> holds_key(index.insert(position, entry), key),
        forall|q: int|
            0 <= q < index.len() + 1 ==> #[trigger] index.insert(position, entry)[q] == entry
                || exists|p: int|
                0 <= p < index.len() && #[trigger] index[p] == index.insert(position, entry)[q],
{
    let after = index.insert(position, entry);
    assert forall|a: int, b: int| 0 <= a < b < after.len() implies precedes(
        #[trigger] after[a].key@,
        #[trigger] after[b].key@,
    ) by {
        if b < position {
            assert(after[a] == index[a] && after[b] == index[b]);
        } else if b == position {
            assert(after[a] == index[a]);
        } else if a < position {
            assert(after[a] == index[a] && after[b] == index[b - 1]);
            if b - 1 < position {
            } else {
                lemma_precedes_transitive(index[a].key@, entry.key@, index[b - 1].key@);
            }
        } else if a == position {
            assert(after[b] == index[b - 1]);
        } else {
            assert(after[a] == index[a - 1] && after[b] == index[b - 1]);
        }
    }
    assert(after[position] == entry);
    assert forall|key: Seq<char>| holds_key(index, key) implies holds_key(after, key) by {
        let p = choose|p: int| 0 <= p < index.len() && #[trigger] index[p].key@ == key;
        if p < position {
            assert(after[p] == index[p]);
        } else {
            assert(after[p + 1] == index[p]);
        }
    }
    assert forall|q: int| 0 <= q < index.len() + 1 implies #[trigger] after[q] == entry
        || exists|p: int| 0 <= p < index.len() && #[trigger] index[p] == after[q] by {
        if q < position {
            assert(index[q] == after[q]);
        } else if q > position {
            assert(index[q - 1] == after[q]);
        }
    }
}

/// Looks `key` up in a sorted index by bisection: where it is, or else where
/// it belongs.
fn search(index: &Vec<IndexEntry>, key: &Vec<char>) -> (r: Result<usize, usize>)
    requires
        keys_sorted(index@),
    ensures
        match r {
            Ok(p) => p < index@.len() && index@[p as int].key@ == key@,
            Err(p) => is_place_of(index@, key@, p as int),
        },
{
    let mut low: usize = 0;
    let mut high: usize = index.len();
    while low < high
        invariant
            low <= high <= index@.len(),
            keys_sorted(index@),
            forall|j: int| 0 <= j < low ==> precedes(#[trigger] index@[j].key@, key@),
            forall|j: int| high <= j < index@.len() ==> precedes(key@, #[trigger] index@[j].key@),
        decreases high - low,
    {
        let middle: usize = low + (high - low) / 2;
        match compare(&index[middle].key, key) {
            Order::Same => {
                return Ok(middle);
            },
            Order::Before => {
                proof {
                    assert forall|j: int| 0 <= j < middle + 1 implies precedes(
                        #[trigger] index@[j].key@,
                        key@,
                    ) by {
                        if j < middle {
                            lemma_precedes_transitive(
                                index@[j].key@,
                                index@[middle as int].key@,
                                key@,
                            );
                        }
                    }
                }
                low = middle + 1;
            },
            Order::After => {
                proof {
                    assert forall|j: int| middle <= j < index@.len() implies precedes(
                        key@,
                        #[trigger] index@[j].key@,
                    ) by {
                        if middle < j {
                            lemma_precedes_transitive(
                                key@,
                                index@[middle as int].key@,
                                index@[j].key@,
                            );
                        }
                    }
                }
                high = middle;
            },
        }
    }
    Err(low)
}

/// Whether `index` holds the canonical names of the first `count` records and
/// nothing else, each name leading to its record.
spec fn indexes_names(index: Seq<IndexEntry>, records: Seq<ZoneRecord>, count: int) -> bool {
    &&& keys_sorted(index)
    &&& forall|p: int|
        0 <= p < index.len() ==> has_name(
            records,
            (#[trigger] index[p]).target as int,
            index[p].key@,
        ) && index[p].target < count
    &&& forall|t: int| 0 <= t < count ==> holds_key(index, #[trigger] name_at(records, t))
}

/// Whether alias `k` of record `i` comes before alias `inner` of record `count`.
spec fn alias_before(i: int, k: int, count: int, inner: int) -> bool {
    i < count || (i == count && k < inner)
}

/// Whether `entry` stands for an alias that comes before alias `inner` of
/// record `count`.
spec fn is_indexed_alias(records: Seq<ZoneRecord>, entry: IndexEntry, count: int, inner: int) -> bool {
    exists|k: int|
        is_alias_position(records, entry.target as int, k) && alias_before(
            entry.target as int,
            k,
            count,
            inner,
        ) && #[trigger] alias_at(records, entry.target as int, k) == entry.key@
}

/// Whether `index` holds the aliases that come before alias `inner` of record
/// `count` and nothing else, each alias leading to its record.
spec fn indexes_aliases(index: Seq<IndexEntry>, records: Seq<ZoneRecord>, count: int, inner: int) -> bool {
    &&& keys_sorted(index)
    &&& forall|p: int|
        0 <= p < index.len() ==> is_indexed_alias(records, #[trigger] index[p], count, inner)
    &&& forall|i: int, k: int|
        is_alias_position(records, i, k) && alias_before(i, k, count, inner) ==> holds_key(
            index,
            #[trigger] alias_at(records, i, k),
        )
}

/// Whether the aliases that come before alias `inner` of record `count` are
/// no canonical names and differ from each other.
spec fn aliases_distinct_before(records: Seq<ZoneRecord>, count: int, inner: int) -> bool {
    &&& forall|i: int, k: int, j: int|
        is_alias_position(records, i, k) && alias_before(i, k, count, inner) && 0 <= j
            < records.len() ==> #[trigger] alias_at(records, i, k) != #[trigger] name_at(
            records,
            j,
        )
    &&& forall|i: int, k: int, j: int, l: int|
        is_alias_position(records, i, k) && is_alias_position(records, j, l) && alias_before(
            i,
            k,
            count,
            inner,
        ) && alias_before(j, l, count, inner) && (i != j || k != l) ==> #[trigger] alias_at(
            records,
            i,
            k,
        ) != #[trigger] alias_at(records, j, l)
}

/// The characters of every canonical name, record by record, and the sorted
/// index of the canonical names; nothing where two records share a name.
fn index_names(records: &Vec<ZoneRecord>) -> (r: Option<(Vec<Vec<char>>, Vec<IndexEntry>)>)
    ensures
        r is Some <==> names_distinct(records@),
        r matches Some((chars, index)) ==> {
            &&& indexes_names(index@, records@, records@.len() as int)
            &&& chars@.len() == records@.len()
            &&& forall|t: int| 0 <= t < chars@.len() ==> (#[trigger] chars@[t])@ == name_at(records@, t)
        },
{
    let mut chars: Vec<Vec<char>> = Vec::new();
    let mut index: Vec<IndexEntry> = Vec::new();
    let mut i: usize = 0;
    while i < records.len()
        invariant
            i <= records@.len(),
            indexes_names(index@, records@, i as int),
            chars@.len() == i,
            forall|t: int| 0 <= t < i ==> (#[trigger] chars@[t])@ == name_at(records@, t),
            forall|a: int, b: int|
                0 <= a < b < i ==> #[trigger] name_at(records@, a) != #[trigger] name_at(
                    records@,
                    b,
                ),
        decreases records@.len() - i,
    {
        let key = chars_of(records[i].canonical_name.as_str());
        assert(key@ == name_at(records@, i as int));
        match search(&index, &key) {
            Ok(p) => {
                proof {
                    let t = index@[p as int].target as int;
                    assert(name_at(records@, t) == name_at(records@, i as int));
                }
                return None;
            },
            Err(position) => {
                let entry = IndexEntry { key, target: i };
                let ghost before = index@;
                let ghost added = entry;
                index.insert(position, entry);
                chars.push(chars_of(records[i].canonical_name.as_str()));
                proof {
                    lemma_place_means_absent(before, added.key@, position as int);
                    lemma_insert_in_place(before, added, position as int);
                    assert forall|p: int| 0 <= p < index@.len() implies has_name(
                        records@,
                        (#[trigger] index@[p]).target as int,
                        index@[p].key@,
                    ) && index@[p].target < i + 1 by {
                        if index@[p] != added {
                            let o = choose|o: int|
                                0 <= o < before.len() && #[trigger] before[o] == index@[p];
                        }
                    }
                    assert forall|t: int| 0 <= t < i + 1 implies holds_key(
                        index@,
                        #[trigger] name_at(records@, t),
                    ) by {
                        if t < i {
                            assert(holds_key(before, name_at(records@, t)));
                        }
                    }
                    assert forall|a: int, b: int| 0 <= a < b < i + 1 implies #[trigger] name_at(
                        records@,
                        a,
                    ) != #[trigger] name_at(records@, b) by {
                        if b == i {
                            assert(holds_key(before, name_at(records@, a)));
                        }
                    }
                }
            },
        }
        i += 1;
    }
    Some((chars, index))
}

/// The sorted index of the aliases; nothing where an alias is a canonical
/// name too or occurs twice.
fn index_aliases(records: &Vec<ZoneRecord>, by_name: &Vec<IndexEntry>) -> (r: Option<Vec<IndexEntry>>)
    requires
        indexes_names(by_name@, records@, records@.len() as int),
    ensures
        r is Some <==> aliases_distinct(records@),
        r matches Some(index) ==> indexes_aliases(index@, records@, records@.len() as int, 0),
{
    let mut index: Vec<IndexEntry> = Vec::new();
    let mut i: usize = 0;
    while i < records.len()
        invariant
            i <= records@.len(),
            indexes_names(by_name@, records@, records@.len() as int),
            indexes_aliases(index@, records@, i as int, 0),
            aliases_distinct_before(records@, i as int, 0),
        decreases records@.len() - i,
    {
        let mut k: usize = 0;
        while k < records[i].aliases.len()
            invariant
                i < records@.len(),
                k <= records@[i as int].aliases@.len(),
                indexes_names(by_name@, records@, records@.len() as int),
                indexes_aliases(index@, records@, i as int, k as int),
                aliases_distinct_before(records@, i as int, k as int),
            decreases records@[i as int].aliases@.len() - k,
        {
            let key = chars_of(records[i].aliases[k].as_str());
            assert(key@ == alias_at(records@, i as int, k as int));
            assert(is_alias_position(records@, i as int, k as int));
            match search(by_name, &key) {
                Ok(p) => {
                    proof {
                        let t = by_name@[p as int].target as int;
                        assert(alias_at(records@, i as int, k as int) == name_at(records@, t));
                    }
                    return None;
                },
                Err(place) => {
                    proof {
                        lemma_place_means_absent(by_name@, key@, place as int);
                    }
                },
            }
            match search(&index, &key) {
                Ok(p) => {
                    proof {
                        let found = index@[p as int];
                        assert(is_indexed_alias(records@, found, i as int, k as int));
                        let t = found.target as int;
                        let l = choose|l: int|
                            is_alias_position(records@, t, l) && alias_before(
                                t,
                                l,
                                i as int,
                                k as int,
                            ) && #[trigger] alias_at(records@, t, l) == found.key@;
                        assert(alias_at(records@, t, l) == alias_at(records@, i as int, k as int));
                    }
                    return None;
                },
                Err(position) => {
                    let entry = IndexEntry { key, target: i };
                    let ghost before = index@;
                    let ghost added = entry;
                    index.insert(position, entry);
                    proof {
                        lemma_place_means_absent(before, added.key@, position as int);
                        lemma_insert_in_place(before, added, position as int);
                        assert forall|p: int| 0 <= p < index@.len() implies is_indexed_alias(
                            records@,
                            #[trigger] index@[p],
                            i as int,
                            k + 1,
                        ) by {
                            if index@[p] == added {
                                assert(alias_before(i as int, k as int, i as int, k + 1));
                                assert(added.target == i);
                                assert(alias_at(records@, added.target as int, k as int)
                                    == added.key@);
                            } else {
                                let o = choose|o: int|
                                    0 <= o < before.len() && #[trigger] before[o] == index@[p];
                                assert(is_indexed_alias(records@, before[o], i as int, k as int));
                                let t = before[o].target as int;
                                let l = choose|l: int|
                                    is_alias_position(records@, t, l) && alias_before(
                                        t,
                                        l,
                                        i as int,
                                        k as int,
                                    ) && #[trigger] alias_at(records@, t, l) == before[o].key@;
                                assert(alias_before(t, l, i as int, k + 1));
                                assert(alias_at(records@, index@[p].target as int, l)
                                    == index@[p].key@);
                            }
                        }
                        assert forall|a: int, b: int|
                            is_alias_position(records@, a, b) && alias_before(
                                a,
                                b,
                                i as int,
                                k + 1,
                            ) implies holds_key(index@, #[trigger] alias_at(records@, a, b)) by {
                            if a != i || b != k {
                                assert(alias_before(a, b, i as int, k as int));
                                assert(holds_key(before, alias_at(records@, a, b)));
                            }
                        }
                        assert forall|a: int, b: int, j: int|
                            is_alias_position(records@, a, b) && alias_before(
                                a,
                                b,
                                i as int,
                                k + 1,
                            ) && 0 <= j < records@.len() implies #[trigger] alias_at(records@, a, b)
                            != #[trigger] name_at(records@, j) by {
                            if a == i && b == k {
                                assert(holds_key(by_name@, name_at(records@, j)));
                            } else {
                                assert(alias_before(a, b, i as int, k as int));
                            }
                        }
                        assert forall|a: int, b: int, j: int, l: int|
                            is_alias_position(records@, a, b) && is_alias_position(records@, j, l)
                                && alias_before(a, b, i as int, k + 1) && alias_before(
                                j,
                                l,
                                i as int,
                                k + 1,
                            ) && (a != j || b != l) implies #[trigger] alias_at(records@, a, b)
                            != #[trigger] alias_at(records@, j, l) by {
                            if a == i && b == k {
                                assert(alias_before(j, l, i as int, k as int));
                                assert(holds_key(before, alias_at(records@, j, l)));
                            } else if j == i && l == k {
                                assert(alias_before(a, b, i as int, k as int));
                                assert(holds_key(before, alias_at(records@, a, b)));
                            } else {
                                assert(alias_before(a, b, i as int, k as int));
                                assert(alias_before(j, l, i as int, k as int));
                            }
                        }
                    }
                },
            }
            k += 1;
        }
        proof {
            let full = records@[i as int].aliases@.len() as int;
            assert forall|p: int| 0 <= p < index@.len() implies is_indexed_alias(
                records@,
                #[trigger] index@[p],
                i + 1,
                0,
            ) by {
                assert(is_indexed_alias(records@, index@[p], i as int, full));
                let t = index@[p].target as int;
                let l = choose|l: int|
                    is_alias_position(records@, t, l) && alias_before(t, l, i as int, full)
                        && #[trigger] alias_at(records@, t, l) == index@[p].key@;
                assert(alias_before(t, l, i + 1, 0));
            }
            assert forall|a: int, b: int|
                is_alias_position(records@, a, b) && alias_before(a, b, i + 1, 0) implies holds_key(
                index@,
                #[trigger] alias_at(records@, a, b),
            ) by {
                assert(alias_before(a, b, i as int, full));
            }
            assert forall|a: int, b: int, j: int|
                is_alias_position(records@, a, b) && alias_before(a, b, i + 1, 0) && 0 <= j
                    < records@.len() implies #[trigger] alias_at(records@, a, b)
                != #[trigger] name_at(records@, j) by {
                assert(alias_before(a, b, i as int, full));
            }
            assert forall|a: int, b: int, j: int, l: int|
                is_alias_position(records@, a, b) && is_alias_position(records@, j, l)
                    && alias_before(a, b, i + 1, 0) && alias_before(j, l, i + 1, 0) && (a != j
                    || b != l) implies #[trigger] alias_at(records@, a, b) != #[trigger] alias_at(
                records@,
                j,
                l,
            ) by {
                assert(alias_before(a, b, i as int, full));
                assert(alias_before(j, l, i as int, full));
            }
        }
        i += 1;
    }
    proof {
        let n = records@.len() as int;
        assert forall|a: int, b: int, j: int|
            is_alias_position(records@, a, b) && 0 <= j < records@.len() implies #[trigger] alias_at(
            records@,
            a,
            b,
        ) != #[trigger] name_at(records@, j) by {
            assert(alias_before(a, b, n, 0));
        }
        assert forall|a: int, b: int, j: int, l: int|
            is_alias_position(records@, a, b) && is_alias_position(records@, j, l) && (a != j || b
                != l) implies #[trigger] alias_at(records@, a, b) != #[trigger] alias_at(
            records@,
            j,
            l,
        ) by {
            assert(alias_before(a, b, n, 0));
            assert(alias_before(j, l, n, 0));
        }
    }
    Some(index)
}

/// In records that make a directory, the canonical name of a record leads to
/// that record, and so does each of its aliases: to look a zone up under an
/// alias is to look it up under its canonical name.
pub proof fn lemma_alias_leads_to_same_record(records: Seq<ZoneRecord>, i: int, k: int)
    requires
        directory_fault(records) is None,
        is_alias_position(records, i, k),
    ensures
        index_of_name(records, name_at(records, i)) == Some(i),
        index_of_name(records, alias_at(records, i, k)) == Some(i),
{
    lemma_name_leads_to_its_record(records, i);
    let alias = alias_at(records, i, k);
    assert(has_alias(records, i, alias));
    assert forall|j: int| !has_name(records, j, alias) by {
        if has_name(records, j, alias) {
            assert(alias_at(records, i, k) == name_at(records, j));
        }
    }
    let found = choose|j: int| has_alias(records, j, alias);
    let l = choose|l: int|
        is_alias_position(records, found, l) && #[trigger] alias_at(records, found, l) == alias;
    assert(alias_at(records, found, l) == alias_at(records, i, k));
}

/// In records that make a directory, the canonical name of a record leads to
/// that record.
pub proof fn lemma_name_leads_to_its_record(records: Seq<ZoneRecord>, i: int)
    requires
        directory_fault(records) is None,
        0 <= i < records.len(),
    ensures
        index_of_name(records, name_at(records, i)) == Some(i),
{
    let name = name_at(records, i);
    assert(has_name(records, i, name));
    let found = choose|j: int| has_name(records, j, name);
    assert(name_at(records, found) == name_at(records, i));
}

/// A directory of time zones: its records, to be looked up by name.
#[derive(Debug, PartialEq, Eq)]
pub struct Directory {
    records: Vec<ZoneRecord>,
    name_chars: Vec<Vec<char>>,
    by_name: Vec<IndexEntry>,
    by_alias: Vec<IndexEntry>,
}

impl View for Directory {
    type V = Seq<ZoneRecord>;

    /// The records that the directory was made from, in their order.
    closed spec fn view(&self) -> Seq<ZoneRecord> {
        self.records@
    }
}

impl Directory {
    #[verifier::type_invariant]
    spec fn well_formed(&self) -> bool {
        &&& directory_fault(self.records@) is None
        &&& indexes_names(self.by_name@, self.records@, self.records@.len() as int)
        &&& indexes_aliases(self.by_alias@, self.records@, self.records@.len() as int, 0)
        &&& self.name_chars@.len() == self.records@.len()
        &&& forall|t: int|
            0 <= t < self.name_chars@.len() ==> (#[trigger] self.name_chars@[t])@ == name_at(
                self.records@,
                t,
            )
    }

    /// Makes the directory of `records`, or says why they make none.
    pub fn new(records: Vec<ZoneRecord>) -> (r: Result<Directory, DirectoryError>)
        ensures
            match r {
                Ok(directory) => directory_fault(records@) is None && directory@ == records@,
                Err(e) => directory_fault(records@) == Some(e),
            },
    {
        match index_names(&records) {
            None => Err(DirectoryError::DuplicateName),
            Some((name_chars, by_name)) => {
                match index_aliases(&records, &by_name) {
                    None => Err(DirectoryError::DuplicateAlias),
                    Some(by_alias) => Ok(Directory { records, name_chars, by_name, by_alias }),
                }
            },
        }
    }

    /// The records of the directory, in the order in which it was given them.
    pub fn records(&self) -> (r: &[ZoneRecord])
        ensures
            r@ == self@,
            directory_fault(r@) is None,
    {
        proof {
            use_type_invariant(self);
        }
        self.records.as_slice()
    }

    /// The zone that `name` leads to: the one with that canonical name, or
    /// else the one with that alias. Names are compared character by
    /// character, so case matters.
    pub fn get_by_name(&self, name: &str) -> (r: Option<&Tz>)
        ensures
            r == match index_of_name(self@, name@) {
                Some(i) => Some(&self@[i].zone),
                None => None,
            },
    {
        proof {
            use_type_invariant(self);
        }
        let key = chars_of(name);
        match search(&self.by_name, &key) {
            Ok(p) => {
                let target = self.by_name[p].target;
                proof {
                    lemma_name_leads_to_its_record(self.records@, target as int);
                }
                Some(&self.records[target].zone)
            },
            Err(place) => {
                proof {
                    lemma_place_means_absent(self.by_name@, key@, place as int);
                    assert forall|j: int| !has_name(self.records@, j, key@) by {
                        if has_name(self.records@, j, key@) {
                            assert(holds_key(self.by_name@, name_at(self.records@, j)));
                        }
                    }
                }
                match search(&self.by_alias, &key) {
                    Ok(p) => {
                        let target = self.by_alias[p].target;
                        proof {
                            let found = self.by_alias@[p as int];
                            assert(is_indexed_alias(
                                self.records@,
                                found,
                                self.records@.len() as int,
                                0,
                            ));
                            let l = choose|l: int|
                                is_alias_position(self.records@, target as int, l) && alias_before(
                                    target as int,
                                    l,
                                    self.records@.len() as int,
                                    0,
                                ) && #[trigger] alias_at(self.records@, target as int, l)
                                    == found.key@;
                            lemma_alias_leads_to_same_record(self.records@, target as int, l);
                        }
                        Some(&self.records[target].zone)
                    },
                    Err(spot) => {
                        proof {
                            lemma_place_means_absent(self.by_alias@, key@, spot as int);
                            assert forall|j: int| !has_alias(self.records@, j, key@) by {
                                if has_alias(self.records@, j, key@) {
                                    let l = choose|l: int|
                                        is_alias_position(self.records@, j, l)
                                            && #[trigger] alias_at(self.records@, j, l) == key@;
                                    assert(alias_before(j, l, self.records@.len() as int, 0));
                                    assert(holds_key(
                                        self.by_alias@,
                                        alias_at(self.records@, j, l),
                                    ));
                                }
                            }
                        }
                        None
                    },
                }
            },
        }
    }

    /// The zones whose canonical name holds `fragment`, in the order of the
    /// records; none where no name holds it. Case matters, and aliases are
    /// not looked at.
    pub fn find_by_name(&self, fragment: &str) -> (r: Vec<&Tz>)
        ensures
            r@.len() == zones_holding(self@, fragment@, self@.len() as int).len(),
            forall|k: int|
                0 <= k < r@.len() ==> *(#[trigger] r@[k]) == zones_holding(
                    self@,
                    fragment@,
                    self@.len() as int,
                )[k],
    {
        proof {
            use_type_invariant(self);
        }
        let needle = chars_of(fragment);
        let mut found: Vec<&Tz> = Vec::new();
        let mut i: usize = 0;
        while i < self.records.len()
            invariant
                i <= self.records@.len(),
                needle@ == fragment@,
                self.name_chars@.len() == self.records@.len(),
                forall|t: int|
                    0 <= t < self.name_chars@.len() ==> (#[trigger] self.name_chars@[t])@
                        == name_at(self.records@, t),
                found@.len() == zones_holding(self.records@, fragment@, i as int).len(),
                forall|k: int|
                    0 <= k < found@.len() ==> *(#[trigger] found@[k]) == zones_holding(
                        self.records@,
                        fragment@,
                        i as int,
                    )[k],
            decreases self.records@.len() - i,
        {
            if contains(&self.name_chars[i], &needle) {
                found.push(&self.records[i].zone);
            }
            i += 1;
        }
        found
    }
}

} // verus!
