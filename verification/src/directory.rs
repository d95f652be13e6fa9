//! What the operations on a directory's bytes do to its records.

use crate::layout::{empty_record, entry_inode, entry_name, is_nul, lemma_empty_record};
use crate::model::{
    append, cleared, entries, entry_at, entry_count, erase, insert, listed, listing, lookup, named,
    names_distinct, overwrite, resolve,
};
use crate::search::{first_index, lemma_first_index, lemma_first_index_is};
use vstd::prelude::*;

verus! {

/// The record that is left of `rec` where the records called `name` are cleared.
pub open spec fn erased(name: Seq<u8>) -> spec_fn(Seq<u8>) -> Seq<u8> {
    |rec: Seq<u8>|
        if entry_name(rec) == name {
            empty_record()
        } else {
            rec
        }
}

/// Overwriting record `k` replaces that record and no other.
pub proof fn lemma_entries_overwrite(content: Seq<u8>, k: int, rec: Seq<u8>)
    requires
        0 <= k < entry_count(content),
        rec.len() == 32,
    ensures
        entries(overwrite(content, 32 * k, rec)) == entries(content).update(k, rec),
{
    let c = overwrite(content, 32 * k, rec);
    assert forall|i: int| 0 <= i < entry_count(content) implies #[trigger] entries(c)[i] == entries(
        content,
    ).update(k, rec)[i] by {
        if i == k {
            assert(entry_at(c, i) =~= rec);
        } else {
            assert(entry_at(c, i) =~= entry_at(content, i));
        }
    }
    assert(entries(c) =~= entries(content).update(k, rec));
}

/// Appending a record keeps the records before it.
pub proof fn lemma_entries_append(content: Seq<u8>, rec: Seq<u8>)
    requires
        rec.len() == 32,
    ensures
        append(content, rec).len() == 32 * (entry_count(content) + 1),
        entries(append(content, rec)) == entries(content).push(rec),
{
    let c = append(content, rec);
    let n = entry_count(content);
    assert(entry_count(c) == n + 1);
    assert forall|i: int| 0 <= i < n + 1 implies #[trigger] entries(c)[i] == entries(content).push(
        rec,
    )[i] by {
        if i == n {
            assert(entry_at(c, i) =~= rec);
        } else {
            assert(entry_at(c, i) =~= entry_at(content, i));
        }
    }
    assert(entries(c) =~= entries(content).push(rec));
}

/// Erasing a name clears its records and keeps the others.
pub proof fn lemma_entries_erase(content: Seq<u8>, name: Seq<u8>)
    ensures
        erase(content, name).len() == content.len(),
        entries(erase(content, name)) == entries(content).map_values(erased(name)),
{
    let c = erase(content, name);
    let want = entries(content).map_values(erased(name));
    assert forall|i: int| 0 <= i < entry_count(content) implies #[trigger] entries(c)[i]
        == want[i] by {
        if entry_name(entry_at(content, i)) == name {
            assert(entry_at(c, i) =~= empty_record());
        } else {
            assert(entry_at(c, i) =~= entry_at(content, i));
        }
    }
    assert(entries(c) =~= want);
}

/// The directory with the records called `name` cleared among its first `i`.
pub open spec fn erase_first(content: Seq<u8>, name: Seq<u8>, i: int) -> Seq<u8> {
    erase(content, name).take(32 * i) + content.skip(32 * i)
}

/// With the first `i` records done, record `i` is as it was, and clearing it where it
/// carries the name does one record more.
pub proof fn lemma_erase_step(content: Seq<u8>, name: Seq<u8>, i: int)
    requires
        0 <= i < entry_count(content),
    ensures
        ({
            let now = erase_first(content, name, i);
            let rec = entry_at(content, i);
            &&& now.len() == content.len()
            &&& entry_at(now, i) == rec
            &&& erase_first(content, name, i + 1) == if entry_name(rec) == name {
                overwrite(now, 32 * i, empty_record())
            } else {
                now
            }
        }),
{
    let now = erase_first(content, name, i);
    let next = erase_first(content, name, i + 1);
    lemma_empty_record();
    assert(entry_at(now, i) =~= entry_at(content, i));
    if entry_name(entry_at(content, i)) == name {
        assert(next =~= overwrite(now, 32 * i, empty_record()));
    } else {
        assert(next =~= now);
    }
}

/// A record names something exactly when it does not start with the terminator.
pub proof fn lemma_name_empty(rec: Seq<u8>)
    requires
        rec.len() == 32,
    ensures
        entry_name(rec).len() == 0 <==> rec[0] == 0,
{
    lemma_first_index(rec.take(28), is_nul());
    assert(rec.take(28)[0] == rec[0]);
    if rec[0] == 0 {
        lemma_first_index_is(rec.take(28), is_nul(), 0);
    }
}

/// A record at the end is found under its name where no record before it is.
pub proof fn lemma_resolve_push(recs: Seq<Seq<u8>>, rec: Seq<u8>, name: Seq<u8>)
    ensures
        resolve(recs.push(rec), name) == match resolve(recs, name) {
            Some(id) => Some(id),
            None => if entry_name(rec) == name {
                Some(entry_inode(rec))
            } else {
                None
            },
        },
{
    let p = named(name);
    let longer = recs.push(rec);
    lemma_first_index(recs, p);
    let k = first_index(recs, p);
    assert forall|j: int| 0 <= j < k implies !p(#[trigger] longer[j]) by {
        assert(longer[j] == recs[j]);
    }
    if k < recs.len() {
        lemma_first_index_is(longer, p, k);
    } else if p(rec) {
        lemma_first_index_is(longer, p, k);
    } else {
        assert(longer[k] == rec);
        lemma_first_index_is(longer, p, k + 1);
    }
}

/// Replacing a record leaves the names alone that neither the old nor the new
/// record carries.
pub proof fn lemma_resolve_update(recs: Seq<Seq<u8>>, k: int, rec: Seq<u8>, name: Seq<u8>)
    requires
        0 <= k < recs.len(),
        entry_name(recs[k]) != name,
        entry_name(rec) != name,
    ensures
        resolve(recs.update(k, rec), name) == resolve(recs, name),
{
    let p = named(name);
    let other = recs.update(k, rec);
    lemma_first_index(recs, p);
    let r = first_index(recs, p);
    assert forall|j: int| 0 <= j < r implies !p(#[trigger] other[j]) by {
        if j != k {
            assert(other[j] == recs[j]);
        }
    }
    lemma_first_index_is(other, p, r);
}

/// A record with a name that no record has is found under it wherever it is put.
pub proof fn lemma_resolve_update_fresh(recs: Seq<Seq<u8>>, k: int, rec: Seq<u8>)
    requires
        0 <= k < recs.len(),
        resolve(recs, entry_name(rec)) is None,
    ensures
        resolve(recs.update(k, rec), entry_name(rec)) == Some(entry_inode(rec)),
{
    let p = named(entry_name(rec));
    let other = recs.update(k, rec);
    lemma_first_index(recs, p);
    assert forall|j: int| 0 <= j < k implies !p(#[trigger] other[j]) by {
        assert(other[j] == recs[j]);
    }
    lemma_first_index_is(other, p, k);
}

/// Clearing the records of one name leaves the other names alone.
pub proof fn lemma_resolve_erased(recs: Seq<Seq<u8>>, name: Seq<u8>, other: Seq<u8>)
    requires
        other.len() > 0,
    ensures
        resolve(recs.map_values(erased(name)), other) == if other == name {
            None
        } else {
            resolve(recs, other)
        },
{
    let p = named(other);
    let left = recs.map_values(erased(name));
    lemma_empty_record();
    lemma_first_index(recs, p);
    let r = first_index(recs, p);
    if other == name {
        assert forall|j: int| 0 <= j < left.len() implies !p(#[trigger] left[j]) by {
            assert(left[j] == erased(name)(recs[j]));
        }
        lemma_first_index_is(left, p, left.len() as int);
    } else {
        assert forall|j: int| 0 <= j < r implies !p(#[trigger] left[j]) by {
            assert(left[j] == erased(name)(recs[j]));
            assert(!p(recs[j]));
        }
        if r < recs.len() {
            assert(left[r] == erased(name)(recs[r]));
        }
        lemma_first_index_is(left, p, r);
    }
}

/// What a directory with one record more, at the end, finds.
pub proof fn lemma_lookup_append(content: Seq<u8>, rec: Seq<u8>, name: Seq<u8>)
    requires
        rec.len() == 32,
    ensures
        lookup(append(content, rec), name) == match lookup(content, name) {
            Some(id) => Some(id),
            None => if entry_name(rec) == name {
                Some(entry_inode(rec))
            } else {
                None
            },
        },
{
    lemma_entries_append(content, rec);
    lemma_resolve_push(entries(content), rec, name);
}

/// What a directory with one record more, of a new name, finds under a name.
pub proof fn lemma_lookup_insert(content: Seq<u8>, rec: Seq<u8>, name: Seq<u8>)
    requires
        rec.len() == 32,
        lookup(content, entry_name(rec)) is None,
        name == entry_name(rec) || name.len() > 0,
    ensures
        lookup(insert(content, rec), name) == if name == entry_name(rec) {
            Some(entry_inode(rec))
        } else {
            lookup(content, name)
        },
{
    let recs = entries(content);
    lemma_first_index(recs, cleared());
    let k = first_index(recs, cleared());
    if k < entry_count(content) {
        lemma_entries_overwrite(content, k, rec);
        if name == entry_name(rec) {
            lemma_resolve_update_fresh(recs, k, rec);
        } else {
            lemma_name_empty(recs[k]);
            lemma_resolve_update(recs, k, rec, name);
        }
    } else {
        lemma_lookup_append(content, rec, name);
    }
}

/// A record of a new name at the end keeps the names apart.
pub proof fn lemma_names_append(content: Seq<u8>, rec: Seq<u8>)
    requires
        rec.len() == 32,
        lookup(content, entry_name(rec)) is None,
        names_distinct(entries(content)),
    ensures
        names_distinct(entries(append(content, rec))),
{
    let recs = entries(content);
    let p = named(entry_name(rec));
    lemma_entries_append(content, rec);
    lemma_first_index(recs, p);
    assert forall|j: int| 0 <= j < recs.len() implies entry_name(#[trigger] recs[j]) != entry_name(
        rec,
    ) by {
        assert(!p(recs[j]));
    }
}

/// A record of a new name keeps the names apart wherever it is put in.
pub proof fn lemma_names_insert(content: Seq<u8>, rec: Seq<u8>)
    requires
        rec.len() == 32,
        lookup(content, entry_name(rec)) is None,
        names_distinct(entries(content)),
    ensures
        names_distinct(entries(insert(content, rec))),
{
    let recs = entries(content);
    let p = named(entry_name(rec));
    lemma_first_index(recs, cleared());
    let k = first_index(recs, cleared());
    if k < entry_count(content) {
        lemma_entries_overwrite(content, k, rec);
        lemma_first_index(recs, p);
        assert forall|j: int| 0 <= j < recs.len() implies entry_name(#[trigger] recs[j])
            != entry_name(rec) by {
            assert(!p(recs[j]));
        }
    } else {
        lemma_names_append(content, rec);
    }
}

/// Clearing the records of one name keeps the names apart.
pub proof fn lemma_names_erase(content: Seq<u8>, name: Seq<u8>)
    requires
        names_distinct(entries(content)),
    ensures
        names_distinct(entries(erase(content, name))),
{
    let recs = entries(content);
    let left = entries(erase(content, name));
    lemma_empty_record();
    lemma_entries_erase(content, name);
    assert forall|i: int, j: int|
        #![trigger left[i], left[j]]
        0 <= i < j < left.len() && left[i][0] != 0 && left[j][0] != 0 implies entry_name(left[i])
        != entry_name(left[j]) by {
        assert(left[i] == erased(name)(recs[i]));
        assert(left[j] == erased(name)(recs[j]));
    }
}

/// What a directory finds after the records of one name are cleared.
pub proof fn lemma_lookup_erase(content: Seq<u8>, name: Seq<u8>, other: Seq<u8>)
    requires
        other.len() > 0,
    ensures
        lookup(erase(content, name), other) == if other == name {
            None
        } else {
            lookup(content, other)
        },
{
    lemma_entries_erase(content, name);
    lemma_resolve_erased(entries(content), name, other);
}

/// A filtered sequence has the elements of the sequence that pass the filter.
proof fn lemma_filter_contains<A>(s: Seq<A>, p: spec_fn(A) -> bool, a: A)
    ensures
        s.filter(p).contains(a) <==> s.contains(a) && p(a),
    decreases s.len(),
{
    reveal(Seq::filter);
    if s.len() > 0 {
        let init = s.drop_last();
        lemma_filter_contains(init, p, a);
        let f = init.filter(p);
        if p(s.last()) {
            assert(s.filter(p) == f.push(s.last()));
            if s.filter(p).contains(a) && a != s.last() {
                let i = choose|i: int| 0 <= i < s.filter(p).len() && s.filter(p)[i] == a;
                assert(f[i] == a);
            }
            if f.contains(a) {
                let i = choose|i: int| 0 <= i < f.len() && f[i] == a;
                assert(s.filter(p)[i] == a);
            }
            assert(s.filter(p)[f.len() as int] == s.last());
        }
        if s.contains(a) && a != s.last() {
            let i = choose|i: int| 0 <= i < s.len() && s[i] == a;
            assert(init[i] == a);
        }
        if init.contains(a) {
            let i = choose|i: int| 0 <= i < init.len() && init[i] == a;
            assert(s[i] == a);
        }
        assert(s[s.len() - 1] == s.last());
    }
}

/// A directory lists exactly the non-empty names that it finds.
pub proof fn lemma_listing(content: Seq<u8>, name: Seq<u8>)
    ensures
        listing(content).contains(name) <==> name.len() > 0 && lookup(content, name) is Some,
{
    let recs = entries(content);
    let shown = recs.filter(listed());
    let p = named(name);
    lemma_first_index(recs, p);
    let k = first_index(recs, p);
    if name.len() > 0 && k < recs.len() {
        lemma_name_empty(recs[k]);
        lemma_filter_contains(recs, listed(), recs[k]);
        assert(recs.contains(recs[k]));
        let i = choose|i: int| 0 <= i < shown.len() && shown[i] == recs[k];
        assert(listing(content)[i] == name);
    }
    if listing(content).contains(name) {
        let i = choose|i: int| 0 <= i < listing(content).len() && listing(content)[i] == name;
        let rec = shown[i];
        assert(shown.contains(rec));
        lemma_filter_contains(recs, listed(), rec);
        let j = choose|j: int| 0 <= j < recs.len() && recs[j] == rec;
        assert(p(recs[j]));
        lemma_name_empty(rec);
    }
}

/// Replacing an element that the filter drops by another such element leaves the
/// filtered sequence alone.
proof fn lemma_filter_update<A>(s: Seq<A>, p: spec_fn(A) -> bool, k: int, a: A)
    requires
        0 <= k < s.len(),
        !p(s[k]),
        !p(a),
    ensures
        s.update(k, a).filter(p) == s.filter(p),
    decreases s.len(),
{
    reveal(Seq::filter);
    let t = s.update(k, a);
    if k == s.len() - 1 {
        assert(t.drop_last() =~= s.drop_last());
    } else {
        assert(t.drop_last() =~= s.drop_last().update(k, a));
        lemma_filter_update(s.drop_last(), p, k, a);
    }
}

/// A record of a new name, put in and erased again, leaves the names and their
/// order as they were.
pub proof fn lemma_listing_insert_erase(content: Seq<u8>, rec: Seq<u8>)
    requires
        rec.len() == 32,
        lookup(content, entry_name(rec)) is None,
    ensures
        listing(erase(insert(content, rec), entry_name(rec))) == listing(content),
{
    let name = entry_name(rec);
    let recs = entries(content);
    let full = insert(content, rec);
    let left = entries(erase(full, name));
    lemma_empty_record();
    lemma_entries_erase(full, name);
    lemma_first_index(recs, named(name));
    lemma_first_index(recs, cleared());
    let k = first_index(recs, cleared());
    assert forall|j: int| 0 <= j < recs.len() implies entry_name(#[trigger] recs[j]) != name by {
        assert(!named(name)(recs[j]));
    }
    if k < entry_count(content) {
        lemma_entries_overwrite(content, k, rec);
        assert(left =~= recs.update(k, empty_record()));
        lemma_filter_update(recs, listed(), k, empty_record());
    } else {
        lemma_entries_append(content, rec);
        assert(left =~= recs.push(empty_record()));
        assert(left.drop_last() =~= recs);
        reveal(Seq::filter);
    }
}

} // verus!
