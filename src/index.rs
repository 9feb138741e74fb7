//! The archive index: the map from path to record that inserting a table of
//! contents in order produces, and the facts about it that loading relies on.

use crate::fileentry::EntryView;
use vstd::prelude::*;

verus! {

/// The index built by inserting `recs` in order, each under its name; a
/// later record replaces an earlier one of the same name.
pub open spec fn index_of(recs: Seq<EntryView>) -> Map<Seq<char>, EntryView>
    decreases recs.len(),
{
    if recs.len() == 0 {
        Map::empty()
    } else {
        index_of(recs.drop_last()).insert(recs.last().name(), recs.last())
    }
}

/// No two records of `recs` share a name.
pub open spec fn names_unique(recs: Seq<EntryView>) -> bool {
    forall|i: int, j: int|
        0 <= i < recs.len() && 0 <= j < recs.len() && i != j ==> #[trigger] recs[i].name()
            != #[trigger] recs[j].name()
}

/// The index holds exactly the names of the records.
pub proof fn lemma_index_keys(recs: Seq<EntryView>, k: Seq<char>)
    ensures
        index_of(recs).contains_key(k) <==> exists|j: int|
            0 <= j < recs.len() && #[trigger] recs[j].name() == k,
    decreases recs.len(),
{
    if recs.len() > 0 {
        let front = recs.drop_last();
        lemma_index_keys(front, k);
        if index_of(recs).contains_key(k) && k != recs.last().name() {
            let j = choose|j: int| 0 <= j < front.len() && #[trigger] front[j].name() == k;
            assert(recs[j].name() == k);
        }
        if exists|j: int| 0 <= j < recs.len() && #[trigger] recs[j].name() == k {
            let j = choose|j: int| 0 <= j < recs.len() && #[trigger] recs[j].name() == k;
            if j < recs.len() - 1 {
                assert(front[j].name() == k);
            }
        }
    }
}

/// A record that no later record of the same name follows is what the
/// index holds under that name.
pub proof fn lemma_index_last_wins(recs: Seq<EntryView>, j: int)
    requires
        0 <= j < recs.len(),
        forall|k: int| j < k < recs.len() ==> #[trigger] recs[k].name() != recs[j].name(),
    ensures
        index_of(recs).contains_key(recs[j].name()),
        index_of(recs)[recs[j].name()] == recs[j],
    decreases recs.len(),
{
    if j < recs.len() - 1 {
        let front = recs.drop_last();
        assert forall|k: int| j < k < front.len() implies #[trigger] front[k].name()
            != front[j].name() by {
            assert(recs[k].name() != recs[j].name());
        }
        lemma_index_last_wins(front, j);
        assert(recs.last().name() != recs[j].name());
    }
}

/// With unique names every record is in the index under its name.
pub proof fn lemma_index_unique(recs: Seq<EntryView>, j: int)
    requires
        names_unique(recs),
        0 <= j < recs.len(),
    ensures
        index_of(recs).contains_key(recs[j].name()),
        index_of(recs)[recs[j].name()] == recs[j],
{
    assert forall|k: int| j < k < recs.len() implies #[trigger] recs[k].name()
        != recs[j].name() by {}
    lemma_index_last_wins(recs, j);
}

/// The index is finite, with at most one key per record, and exactly one
/// per record when the names are unique.
pub proof fn lemma_index_len(recs: Seq<EntryView>)
    ensures
        index_of(recs).dom().finite(),
        index_of(recs).dom().len() <= recs.len(),
        names_unique(recs) ==> index_of(recs).dom().len() == recs.len(),
    decreases recs.len(),
{
    if recs.len() > 0 {
        let front = recs.drop_last();
        lemma_index_len(front);
        if names_unique(recs) {
            assert(names_unique(front)) by {
                assert forall|i: int, j: int|
                    0 <= i < front.len() && 0 <= j < front.len() && i != j implies #[trigger] front[i].name()
                    != #[trigger] front[j].name() by {
                    assert(recs[i].name() != recs[j].name());
                }
            }
            lemma_index_keys(front, recs.last().name());
            if index_of(front).contains_key(recs.last().name()) {
                let j = choose|j: int|
                    0 <= j < front.len() && #[trigger] front[j].name() == recs.last().name();
                assert(recs[j].name() == recs[recs.len() - 1].name());
            }
        }
    }
}

/// Appending a record whose name is new extends the index by that record.
pub proof fn lemma_index_push(recs: Seq<EntryView>, e: EntryView)
    ensures
        index_of(recs.push(e)) == index_of(recs).insert(e.name(), e),
{
    assert(recs.push(e).drop_last() =~= recs);
}

/// Replacing a record by one of the same name, where names are unique,
/// replaces the value the index holds under that name.
pub proof fn lemma_index_replace(recs: Seq<EntryView>, j: int, e: EntryView)
    requires
        names_unique(recs),
        0 <= j < recs.len(),
        recs[j].name() == e.name(),
    ensures
        names_unique(recs.update(j, e)),
        index_of(recs.update(j, e)) == index_of(recs).insert(e.name(), e),
{
    let t = recs.update(j, e);
    assert(names_unique(t)) by {
        assert forall|a: int, b: int|
            0 <= a < t.len() && 0 <= b < t.len() && a != b implies #[trigger] t[a].name()
            != #[trigger] t[b].name() by {
            assert(recs[a].name() != recs[b].name());
        }
    }
    let m = index_of(recs).insert(e.name(), e);
    assert forall|k: Seq<char>| #[trigger] index_of(t).contains_key(k) <==> m.contains_key(k) by {
        lemma_index_keys(t, k);
        lemma_index_keys(recs, k);
        if exists|i: int| 0 <= i < recs.len() && #[trigger] recs[i].name() == k {
            let i = choose|i: int| 0 <= i < recs.len() && #[trigger] recs[i].name() == k;
            assert(t[i].name() == k);
        }
        if exists|i: int| 0 <= i < t.len() && #[trigger] t[i].name() == k {
            let i = choose|i: int| 0 <= i < t.len() && #[trigger] t[i].name() == k;
            assert(recs[i].name() == k);
        }
    }
    assert forall|k: Seq<char>| #[trigger] index_of(t).contains_key(k) implies index_of(t)[k]
        == m[k] by {
        lemma_index_keys(t, k);
        let i = choose|i: int| 0 <= i < t.len() && #[trigger] t[i].name() == k;
        lemma_index_unique(t, i);
        if i != j {
            assert(recs[i].name() == k);
            lemma_index_unique(recs, i);
        }
    }
    assert(index_of(t) =~= m);
}

} // verus!
