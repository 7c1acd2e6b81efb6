//! Which tables a listing of the data root yields.
//!
//! A data file at the root becomes a table named after its stem. A
//! subdirectory becomes one table, named after the directory, when at least
//! one of its immediate children is a data file. Everything else is skipped.
//! Two registrations under one name are refused rather than letting one
//! silently replace the other.
use vstd::prelude::*;
use crate::names::{is_plain_name, stem, is_data_file_name, is_data_file, table_name_of_file};
use vstd::utf8::{encode_utf8, decode_utf8};
use vstd::string::StringSliceAdditionalSpecFns;

verus! {

/// One entry of the data root, as a listing hands it out.
pub enum EntryKind {
    /// Anything that is not a directory.
    File,
    /// A directory with the names of its immediate children, or `None`
    /// where they could not be listed.
    Dir(Option<Vec<String>>),
}

pub struct Entry {
    pub name: String,
    pub kind: EntryKind,
}

/// A table to register: its name and the root entry it reads from.
pub struct TableSource {
    pub table: String,
    pub entry: String,
}

pub enum CatalogError {
    /// Two entries of the root would register a table of this name.
    DuplicateTable(String),
}

pub open spec fn names_plain(entries: Seq<Entry>) -> bool {
    forall|i: int|
        0 <= i < entries.len() ==> {
            &&& is_plain_name(#[trigger] entries[i].name@)
            &&& match entries[i].kind {
                EntryKind::Dir(Some(c)) => forall|j: int|
                    0 <= j < c.len() ==> is_plain_name(#[trigger] c@[j]@),
                _ => true,
            }
        }
}

pub open spec fn any_data_file(children: Seq<String>) -> bool {
    exists|j: int| 0 <= j < children.len() && is_data_file_name(#[trigger] children[j]@)
}

/// The table one entry registers, as (table name, entry name).
pub open spec fn entry_table(e: Entry) -> Option<(Seq<char>, Seq<char>)> {
    match e.kind {
        EntryKind::File => if is_data_file_name(e.name@) {
            Some((stem(e.name@), e.name@))
        } else {
            None
        },
        EntryKind::Dir(Some(c)) => if any_data_file(c@) {
            Some((e.name@, e.name@))
        } else {
            None
        },
        EntryKind::Dir(None) => None,
    }
}

/// The tables of a listing, in the order of its entries.
pub open spec fn planned(entries: Seq<Entry>) -> Seq<(Seq<char>, Seq<char>)>
    decreases entries.len(),
{
    if entries.len() == 0 {
        seq![]
    } else {
        let rest = planned(entries.drop_last());
        match entry_table(entries.last()) {
            Some(t) => rest.push(t),
            None => rest,
        }
    }
}

pub open spec fn distinct_tables(ts: Seq<(Seq<char>, Seq<char>)>) -> bool {
    forall|i: int, j: int| 0 <= i < j < ts.len() ==> (#[trigger] ts[i]).0 != (#[trigger] ts[j]).0
}

pub open spec fn source_view(t: TableSource) -> (Seq<char>, Seq<char>) {
    (t.table@, t.entry@)
}

/// Whether some child name is a data file; stops at the first one.
fn has_data_file(children: &Vec<String>) -> (r: bool)
    requires
        forall|j: int| 0 <= j < children.len() ==> is_plain_name(#[trigger] children@[j]@),
    ensures
        r == any_data_file(children@),
{
    let mut j: usize = 0;
    while j < children.len()
        invariant
            j <= children.len(),
            forall|j: int| 0 <= j < children.len() ==> is_plain_name(#[trigger] children@[j]@),
            forall|k: int| 0 <= k < j ==> !is_data_file_name(#[trigger] children@[k]@),
        decreases children.len() - j,
    {
        if is_data_file(children[j].as_str()) {
            return true;
        }
        j = j + 1;
    }
    false
}

fn table_of_entry(e: &Entry) -> (r: Option<TableSource>)
    requires
        is_plain_name(e.name@),
        match e.kind {
            EntryKind::Dir(Some(c)) => forall|j: int|
                0 <= j < c.len() ==> is_plain_name(#[trigger] c@[j]@),
            _ => true,
        },
    ensures
        match r {
            Some(t) => entry_table(*e) == Some(source_view(t)),
            None => entry_table(*e) is None,
        },
{
    match &e.kind {
        EntryKind::File => {
            if is_data_file(e.name.as_str()) {
                Some(TableSource { table: table_name_of_file(e.name.as_str()), entry: e.name.clone() })
            } else {
                None
            }
        },
        EntryKind::Dir(Some(c)) => {
            if has_data_file(c) {
                Some(TableSource { table: e.name.clone(), entry: e.name.clone() })
            } else {
                None
            }
        },
        EntryKind::Dir(None) => None,
    }
}

/// Whether at least two tables of `ts` are named `n`.
pub open spec fn collides(ts: Seq<(Seq<char>, Seq<char>)>, n: Seq<char>) -> bool {
    exists|i: int, j: int| 0 <= i < j < ts.len() && (#[trigger] ts[i]).0 == n && (#[trigger] ts[j]).0 == n
}

/// Strict lexicographic order on byte strings.
pub open spec fn bytes_lt(a: Seq<u8>, b: Seq<u8>) -> bool
    decreases a.len(),
{
    if a.len() == 0 {
        b.len() > 0
    } else if b.len() == 0 {
        false
    } else if a[0] != b[0] {
        a[0] < b[0]
    } else {
        bytes_lt(a.drop_first(), b.drop_first())
    }
}

/// `n` is the colliding name that comes first in the order of UTF-8 bytes.
pub open spec fn least_collision(ts: Seq<(Seq<char>, Seq<char>)>, n: Seq<char>) -> bool {
    &&& collides(ts, n)
    &&& forall|m: Seq<char>| #[trigger] collides(ts, m) ==> !bytes_lt(encode_utf8(m), encode_utf8(n))
}

fn bytes_less(a: &[u8], b: &[u8]) -> (r: bool)
    ensures
        r == bytes_lt(a@, b@),
{
    let mut i: usize = 0;
    assert(a@.skip(0) =~= a@);
    assert(b@.skip(0) =~= b@);
    while i < a.len() && i < b.len()
        invariant
            i <= a@.len(),
            i <= b@.len(),
            bytes_lt(a@, b@) == bytes_lt(a@.skip(i as int), b@.skip(i as int)),
        decreases a.len() - i,
    {
        if a[i] != b[i] {
            return a[i] < b[i];
        }
        assert(a@.skip(i as int).drop_first() =~= a@.skip(i + 1));
        assert(b@.skip(i as int).drop_first() =~= b@.skip(i + 1));
        i = i + 1;
    }
    i < b.len()
}

/// Whether a table before index `i` has the name of the table at `i`.
fn named_before(ts: &Vec<TableSource>, i: usize) -> (r: bool)
    requires
        i < ts.len(),
    ensures
        r == exists|y: int| 0 <= y < i && (#[trigger] ts@[y]).table@ == ts@[i as int].table@,
{
    let mut y: usize = 0;
    while y < i
        invariant
            i < ts.len(),
            y <= i,
            forall|z: int| 0 <= z < y ==> (#[trigger] ts@[z]).table@ != ts@[i as int].table@,
        decreases i - y,
    {
        if ts[y].table == ts[i].table {
            return true;
        }
        y = y + 1;
    }
    false
}

fn collect_tables(entries: &Vec<Entry>) -> (ts: Vec<TableSource>)
    requires
        names_plain(entries@),
    ensures
        ts@.map_values(|t: TableSource| source_view(t)) == planned(entries@),
{
    let mut ts: Vec<TableSource> = Vec::new();
    let mut i: usize = 0;
    while i < entries.len()
        invariant
            i <= entries.len(),
            names_plain(entries@),
            ts@.map_values(|t: TableSource| source_view(t)) == planned(entries@.subrange(0, i as int)),
        decreases entries.len() - i,
    {
        let ghost before = entries@.subrange(0, i as int);
        let ghost after = entries@.subrange(0, i + 1);
        assert(after.drop_last() =~= before);
        assert(after.last() == entries@[i as int]);
        assert(is_plain_name(entries@[i as int].name@));
        match table_of_entry(&entries[i]) {
            Some(t) => {
                ts.push(t);
                assert(ts@.map_values(|t: TableSource| source_view(t)) =~= planned(after));
            },
            None => {},
        }
        i = i + 1;
    }
    assert(entries@.subrange(0, entries@.len() as int) =~= entries@);
    ts
}

/// The tables that a listing of the data root registers, in listing order.
/// An empty listing, as for a root that does not exist, gives no table.
/// Fails exactly when two entries would register the same table name; the
/// error then names the least such name in byte order, so that it does not
/// depend on the order of the listing.
pub fn plan_tables(entries: &Vec<Entry>) -> (r: Result<Vec<TableSource>, CatalogError>)
    requires
        names_plain(entries@),
    ensures
        match r {
            Ok(ts) => distinct_tables(planned(entries@)) && ts@.map_values(
                |t: TableSource| source_view(t),
            ) == planned(entries@),
            Err(CatalogError::DuplicateTable(n)) => !distinct_tables(planned(entries@))
                && least_collision(planned(entries@), n@),
        },
{
    let ts = collect_tables(entries);
    let ghost p = planned(entries@);
    assert forall|k: int| 0 <= k < ts.len() implies #[trigger] p[k] == source_view(ts@[k]) by {
        assert(ts@.map_values(|t: TableSource| source_view(t))[k] == source_view(ts@[k]));
    }
    let mut best: Option<usize> = None;
    let mut i: usize = 0;
    while i < ts.len()
        invariant
            i <= ts.len(),
            p.len() == ts.len(),
            forall|k: int| 0 <= k < ts.len() ==> #[trigger] p[k] == source_view(ts@[k]),
            match best {
                Some(b) => b < ts.len() && collides(p, ts@[b as int].table@) && forall|x: int, y: int|
                    0 <= y < x < i && (#[trigger] p[y]).0 == (#[trigger] p[x]).0 ==> !bytes_lt(
                        encode_utf8(p[x].0),
                        encode_utf8(ts@[b as int].table@),
                    ),
                None => forall|x: int, y: int|
                    0 <= y < x < i ==> (#[trigger] p[y]).0 != (#[trigger] p[x]).0,
            },
        decreases ts.len() - i,
    {
        if named_before(&ts, i) {
            let ghost y = choose|y: int| 0 <= y < i && (#[trigger] ts@[y]).table@ == ts@[i as int].table@;
            assert(p[y] == source_view(ts@[y]));
            assert(p[i as int] == source_view(ts@[i as int]));
            assert(collides(p, ts@[i as int].table@));
            let take = match best {
                None => true,
                Some(b) => bytes_less(ts[i].table.as_str().as_bytes(), ts[b].table.as_str().as_bytes()),
            };
            let ghost e = encode_utf8(ts@[i as int].table@);
            proof {
                lemma_bytes_lt_irreflexive(e);
            }
            if take {
                proof {
                    if let Some(b) = best {
                        lemma_bytes_lt_transitive_total(e, encode_utf8(ts@[b as int].table@));
                    }
                    assert forall|x: int, y: int|
                        0 <= y < x < i + 1 && (#[trigger] p[y]).0 == (#[trigger] p[x]).0 implies !bytes_lt(
                        encode_utf8(p[x].0),
                        e,
                    ) by {
                        if x < i {
                            if let Some(b) = best {
                                assert(!bytes_lt(encode_utf8(p[x].0), encode_utf8(ts@[b as int].table@)));
                            }
                        }
                    }
                }
                best = Some(i);
            }
        } else {
            proof {
                assert forall|y: int| 0 <= y < i implies (#[trigger] p[y]).0 != p[i as int].0 by {
                    assert(p[y] == source_view(ts@[y]));
                }
            }
        }
        i = i + 1;
    }
    match best {
        None => {
            Ok(ts)
        },
        Some(b) => {
            let n = ts[b].table.clone();
            proof {
                assert forall|m: Seq<char>| #[trigger] collides(p, m) implies !bytes_lt(
                    encode_utf8(m),
                    encode_utf8(n@),
                ) by {
                    let (y, x) = choose|y: int, x: int|
                        0 <= y < x < p.len() && (#[trigger] p[y]).0 == m && (#[trigger] p[x]).0 == m;
                    assert(p[y].0 == p[x].0);
                }
            }
            Err(CatalogError::DuplicateTable(n))
        },
    }
}

/// Byte order is total on distinct byte strings, and `b <= a` with `a < c`
/// gives `b < c` where needed to keep a least element.
proof fn lemma_bytes_lt_transitive_total(a: Seq<u8>, c: Seq<u8>)
    ensures
        bytes_lt(a, c) ==> forall|b: Seq<u8>| !bytes_lt(b, c) ==> !bytes_lt(b, a),
{
    if bytes_lt(a, c) {
        assert forall|b: Seq<u8>| !bytes_lt(b, c) implies !bytes_lt(b, a) by {
            if bytes_lt(b, a) {
                lemma_bytes_lt_transitive(b, a, c);
            }
        }
    }
}

proof fn lemma_bytes_lt_irreflexive(a: Seq<u8>)
    ensures
        !bytes_lt(a, a),
    decreases a.len(),
{
    if a.len() > 0 {
        lemma_bytes_lt_irreflexive(a.drop_first());
    }
}

proof fn lemma_bytes_lt_transitive(a: Seq<u8>, b: Seq<u8>, c: Seq<u8>)
    requires
        bytes_lt(a, b),
        bytes_lt(b, c),
    ensures
        bytes_lt(a, c),
    decreases a.len(),
{
    if a.len() > 0 && b.len() > 0 && c.len() > 0 && a[0] == b[0] && b[0] == c[0] {
        lemma_bytes_lt_transitive(a.drop_first(), b.drop_first(), c.drop_first());
    }
}

proof fn lemma_bytes_lt_total(a: Seq<u8>, b: Seq<u8>)
    requires
        a != b,
    ensures
        bytes_lt(a, b) || bytes_lt(b, a),
    decreases a.len(),
{
    if a.len() > 0 && b.len() > 0 && a[0] == b[0] {
        if a.drop_first() == b.drop_first() {
            assert(a =~= seq![a[0]] + a.drop_first());
            assert(b =~= seq![b[0]] + b.drop_first());
        }
        lemma_bytes_lt_total(a.drop_first(), b.drop_first());
    } else if a.len() == 0 && b.len() == 0 {
        assert(a =~= b);
    }
}

/// The name that a collision error carries is determined by the tables
/// alone: two names that both meet its description are the same.
pub proof fn law_collision_name_is_determined(
    ts: Seq<(Seq<char>, Seq<char>)>,
    n1: Seq<char>,
    n2: Seq<char>,
)
    requires
        least_collision(ts, n1),
        least_collision(ts, n2),
    ensures
        n1 == n2,
{
    broadcast use vstd::utf8::encode_utf8_decode_utf8;

    if encode_utf8(n1) != encode_utf8(n2) {
        lemma_bytes_lt_total(encode_utf8(n1), encode_utf8(n2));
        assert(collides(ts, n1));
        assert(collides(ts, n2));
    }
    assert(decode_utf8(encode_utf8(n1)) == n1);
    assert(decode_utf8(encode_utf8(n2)) == n2);
}

} // verus!
