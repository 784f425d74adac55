//! Tables keyed by name, kept as sequences of entries and seen as maps.

use vstd::prelude::*;

verus! {

/// The map an entry sequence stands for; a later entry of a name hides an
/// earlier one.
pub open spec fn to_map<V>(entries: Seq<(Seq<char>, V)>) -> Map<Seq<char>, V>
    decreases entries.len(),
{
    if entries.len() == 0 {
        Map::empty()
    } else {
        to_map(entries.drop_last()).insert(entries.last().0, entries.last().1)
    }
}

/// No two entries share a name.
pub open spec fn distinct_names<V>(entries: Seq<(Seq<char>, V)>) -> bool {
    forall|i: int, j: int|
        0 <= i < entries.len() && 0 <= j < entries.len() && i != j ==> #[trigger] entries[i].0
            != #[trigger] entries[j].0
}

pub proof fn lemma_to_map_absent<V>(entries: Seq<(Seq<char>, V)>, k: Seq<char>)
    requires
        forall|j: int| 0 <= j < entries.len() ==> #[trigger] entries[j].0 != k,
    ensures
        !to_map(entries).contains_key(k),
    decreases entries.len(),
{
    if entries.len() > 0 {
        let prev = entries.drop_last();
        assert forall|j: int| 0 <= j < prev.len() implies #[trigger] prev[j].0 != k by {
            assert(prev[j] == entries[j]);
        }
        lemma_to_map_absent(prev, k);
    }
}

pub proof fn lemma_to_map_last<V>(entries: Seq<(Seq<char>, V)>, i: int)
    requires
        0 <= i < entries.len(),
        forall|j: int| i < j < entries.len() ==> #[trigger] entries[j].0 != entries[i].0,
    ensures
        to_map(entries).contains_key(entries[i].0),
        to_map(entries)[entries[i].0] == entries[i].1,
    decreases entries.len(),
{
    let prev = entries.drop_last();
    if i < entries.len() - 1 {
        assert forall|j: int| i < j < prev.len() implies #[trigger] prev[j].0 != prev[i].0 by {
            assert(prev[j] == entries[j]);
        }
        lemma_to_map_last(prev, i);
        assert(entries[entries.len() - 1].0 != entries[i].0);
    }
}

pub proof fn lemma_to_map_distinct<V>(entries: Seq<(Seq<char>, V)>, i: int)
    requires
        distinct_names(entries),
        0 <= i < entries.len(),
    ensures
        to_map(entries).contains_key(entries[i].0),
        to_map(entries)[entries[i].0] == entries[i].1,
{
    lemma_to_map_last(entries, i);
}

pub proof fn lemma_to_map_update<V>(entries: Seq<(Seq<char>, V)>, i: int, v: V)
    requires
        0 <= i < entries.len(),
        forall|j: int| i < j < entries.len() ==> #[trigger] entries[j].0 != entries[i].0,
    ensures
        to_map(entries.update(i, (entries[i].0, v))) == to_map(entries).insert(entries[i].0, v),
    decreases entries.len(),
{
    let k = entries[i].0;
    let upd = entries.update(i, (k, v));
    let prev = entries.drop_last();
    if i == entries.len() - 1 {
        assert(upd.drop_last() =~= prev);
        assert(to_map(upd) =~= to_map(entries).insert(k, v));
    } else {
        assert forall|j: int| i < j < prev.len() implies #[trigger] prev[j].0 != prev[i].0 by {
            assert(prev[j] == entries[j]);
        }
        lemma_to_map_update(prev, i, v);
        assert(upd.drop_last() =~= prev.update(i, (k, v)));
        assert(upd.last() == entries.last());
        assert(entries.last().0 != k);
        assert(to_map(upd) =~= to_map(entries).insert(k, v));
    }
}

pub proof fn lemma_to_map_len<V>(entries: Seq<(Seq<char>, V)>)
    requires
        distinct_names(entries),
    ensures
        to_map(entries).dom().finite(),
        to_map(entries).len() == entries.len(),
    decreases entries.len(),
{
    if entries.len() > 0 {
        let prev = entries.drop_last();
        assert(distinct_names(prev)) by {
            assert forall|i: int, j: int|
                0 <= i < prev.len() && 0 <= j < prev.len() && i != j implies #[trigger] prev[i].0
                != #[trigger] prev[j].0 by {
                assert(prev[i] == entries[i] && prev[j] == entries[j]);
            }
        }
        lemma_to_map_len(prev);
        assert forall|j: int| 0 <= j < prev.len() implies #[trigger] prev[j].0
            != entries.last().0 by {
            assert(prev[j] == entries[j]);
            assert(entries.last() == entries[entries.len() - 1]);
        }
        lemma_to_map_absent(prev, entries.last().0);
    }
}

/// The index of the last entry named `k`, if any.
pub fn find_last<V>(entries: &Vec<(String, V)>, k: &String) -> (r: Option<usize>)
    ensures
        match r {
            Some(i) => i < entries.len() && entries[i as int].0@ == k@ && forall|j: int|
                i < j < entries.len() ==> #[trigger] entries[j].0@ != k@,
            None => forall|j: int| 0 <= j < entries.len() ==> #[trigger] entries[j].0@ != k@,
        },
{
    let mut i = entries.len();
    while i > 0
        invariant
            i <= entries.len(),
            forall|j: int| i <= j < entries.len() ==> #[trigger] entries[j].0@ != k@,
        decreases i,
    {
        i -= 1;
        if entries[i].0 == *k {
            return Some(i);
        }
    }
    None
}

} // verus!
