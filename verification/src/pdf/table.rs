//! Tables keyed by glyph id: the ids that occur, in ascending order, each
//! with the value that came with its first occurrence.
use vstd::prelude::*;

verus! {

/// The value of the first entry with id `id`, if any.
pub open spec fn first_value_for<V>(entries: Seq<(u32, V)>, id: u32) -> Option<V>
    decreases entries.len(),
{
    if entries.len() == 0 {
        None
    } else if entries[0].0 == id {
        Some(entries[0].1)
    } else {
        first_value_for(entries.drop_first(), id)
    }
}

/// Whether `id` occurs in `table` as a key.
pub open spec fn has_id<V>(table: Seq<(u32, V)>, id: u32) -> bool {
    exists|k: int| 0 <= k < table.len() && (#[trigger] table[k]).0 == id
}

/// Whether the ids of `table` strictly increase.
pub open spec fn ids_increasing<V>(table: Seq<(u32, V)>) -> bool {
    forall|a: int, b: int| 0 <= a < b < table.len() ==> (#[trigger] table[a]).0 < (#[trigger] table[b]).0
}

/// Whether `table` holds each id of `entries` once, in ascending order,
/// with the value of the id's first entry.
pub open spec fn is_first_table<V>(table: Seq<(u32, V)>, entries: Seq<(u32, V)>) -> bool {
    &&& ids_increasing(table)
    &&& forall|k: int| 0 <= k < table.len() ==> first_value_for(entries, (#[trigger] table[k]).0) == Some(table[k].1)
    &&& forall|j: int| 0 <= j < entries.len() ==> has_id(table, (#[trigger] entries[j]).0)
}

/// The table of `entries`: each id once, ascending, with its first value.
pub open spec fn first_table<V>(entries: Seq<(u32, V)>) -> Seq<(u32, V)> {
    choose|t: Seq<(u32, V)>| is_first_table(t, entries)
}

/// An id has a first value exactly when some entry carries it.
pub proof fn lemma_first_value_some<V>(entries: Seq<(u32, V)>, id: u32)
    ensures
        first_value_for(entries, id) is Some <==> exists|j: int| 0 <= j < entries.len() && (#[trigger] entries[j]).0 == id,
    decreases entries.len(),
{
    if entries.len() > 0 {
        lemma_first_value_some(entries.drop_first(), id);
        if entries[0].0 != id {
            if exists|j: int| 0 <= j < entries.len() && (#[trigger] entries[j]).0 == id {
                let j = choose|j: int| 0 <= j < entries.len() && (#[trigger] entries[j]).0 == id;
                assert(entries.drop_first()[j - 1].0 == id);
            }
            if first_value_for(entries.drop_first(), id) is Some {
                let j = choose|j: int| 0 <= j < entries.len() - 1 && (#[trigger] entries.drop_first()[j]).0 == id;
                assert(entries[j + 1].0 == id);
            }
        }
    }
}

/// Appending an entry leaves the first value of every id that already had
/// one, and gives the new id its value where it had none.
pub proof fn lemma_first_value_push<V>(entries: Seq<(u32, V)>, e: (u32, V), id: u32)
    ensures
        first_value_for(entries.push(e), id) == match first_value_for(entries, id) {
            Some(v) => Some(v),
            None => if e.0 == id { Some(e.1) } else { None },
        },
    decreases entries.len(),
{
    if entries.len() == 0 {
        assert(entries.push(e).drop_first() =~= Seq::<(u32, V)>::empty());
        assert(entries.push(e)[0] == e);
        assert(first_value_for(entries.push(e).drop_first(), id) is None);
        assert(first_value_for(entries, id) is None);
    } else {
        assert(entries.push(e).drop_first() =~= entries.drop_first().push(e));
        assert(entries.push(e)[0] == entries[0]);
        lemma_first_value_push(entries.drop_first(), e, id);
        if entries[0].0 == id {
            assert(first_value_for(entries, id) == Some(entries[0].1));
        } else {
            assert(first_value_for(entries, id) == first_value_for(entries.drop_first(), id));
        }
    }
}

/// Two tables of the same entries are the same table.
pub proof fn lemma_first_table_unique<V>(t1: Seq<(u32, V)>, t2: Seq<(u32, V)>, entries: Seq<(u32, V)>)
    requires
        is_first_table(t1, entries),
        is_first_table(t2, entries),
    ensures
        t1 == t2,
{
    assert forall|x: u32| has_id(t1, x) <==> has_id(t2, x) by {
        if has_id(t1, x) {
            let k = choose|k: int| 0 <= k < t1.len() && (#[trigger] t1[k]).0 == x;
            lemma_first_value_some(entries, x);
            let j = choose|j: int| 0 <= j < entries.len() && (#[trigger] entries[j]).0 == x;
            assert(has_id(t2, entries[j].0));
        }
        if has_id(t2, x) {
            let k = choose|k: int| 0 <= k < t2.len() && (#[trigger] t2[k]).0 == x;
            lemma_first_value_some(entries, x);
            let j = choose|j: int| 0 <= j < entries.len() && (#[trigger] entries[j]).0 == x;
            assert(has_id(t1, entries[j].0));
        }
    }
    lemma_same_ids(t1, t2);
    assert forall|k: int| 0 <= k < t1.len() implies t1[k] == t2[k] by {
        assert(first_value_for(entries, t1[k].0) == Some(t1[k].1));
        assert(first_value_for(entries, t2[k].0) == Some(t2[k].1));
    }
    assert(t1 =~= t2);
}

/// Two tables with increasing ids and the same set of ids have the same
/// ids at every position.
proof fn lemma_same_ids<V>(t1: Seq<(u32, V)>, t2: Seq<(u32, V)>)
    requires
        ids_increasing(t1),
        ids_increasing(t2),
        forall|x: u32| has_id(t1, x) <==> has_id(t2, x),
    ensures
        t1.len() == t2.len(),
        forall|k: int| 0 <= k < t1.len() ==> (#[trigger] t1[k]).0 == t2[k].0,
    decreases t1.len() + t2.len(),
{
    if t1.len() == 0 {
        if t2.len() > 0 {
            assert(has_id(t2, t2[0].0));
        }
    } else if t2.len() == 0 {
        assert(has_id(t1, t1[0].0));
    } else {
        assert(has_id(t1, t1[0].0));
        assert(has_id(t2, t2[0].0));
        let j = choose|j: int| 0 <= j < t2.len() && (#[trigger] t2[j]).0 == t1[0].0;
        let i = choose|i: int| 0 <= i < t1.len() && (#[trigger] t1[i]).0 == t2[0].0;
        if j > 0 {
            assert(t2[0].0 < t2[j].0);
            if i > 0 {
                assert(t1[0].0 < t1[i].0);
            }
        }
        assert(t1[0].0 == t2[0].0);
        let r1 = t1.drop_first();
        let r2 = t2.drop_first();
        assert forall|x: u32| has_id(r1, x) <==> has_id(r2, x) by {
            if has_id(r1, x) {
                let k = choose|k: int| 0 <= k < r1.len() && (#[trigger] r1[k]).0 == x;
                assert(t1[k + 1].0 == x);
                assert(has_id(t1, x));
                let m = choose|m: int| 0 <= m < t2.len() && (#[trigger] t2[m]).0 == x;
                assert(t1[0].0 < t1[k + 1].0);
                assert(m != 0);
                assert(r2[m - 1].0 == x);
            }
            if has_id(r2, x) {
                let k = choose|k: int| 0 <= k < r2.len() && (#[trigger] r2[k]).0 == x;
                assert(t2[k + 1].0 == x);
                assert(has_id(t2, x));
                let m = choose|m: int| 0 <= m < t1.len() && (#[trigger] t1[m]).0 == x;
                assert(t2[0].0 < t2[k + 1].0);
                assert(m != 0);
                assert(r1[m - 1].0 == x);
            }
        }
        lemma_same_ids(r1, r2);
        assert forall|k: int| 0 <= k < t1.len() implies (#[trigger] t1[k]).0 == t2[k].0 by {
            if k > 0 {
                assert(r1[k - 1].0 == r2[k - 1].0);
            }
        }
    }
}

/// Every table of entries is the table of those entries.
pub proof fn lemma_is_first_table<V>(t: Seq<(u32, V)>, entries: Seq<(u32, V)>)
    requires
        is_first_table(t, entries),
    ensures
        first_table(entries) == t,
{
    let c = first_table(entries);
    assert(is_first_table(c, entries));
    lemma_first_table_unique(c, t, entries);
}

/// Where an entry with id `id` goes in a table with increasing ids: after
/// the leading entries whose ids are smaller.
pub open spec fn insertion_point<V>(t: Seq<(u32, V)>, id: u32) -> nat
    decreases t.len(),
{
    if t.len() == 0 || t[0].0 >= id {
        0
    } else {
        1 + insertion_point(t.drop_first(), id)
    }
}

/// The table with one more entry: unchanged where the entry's id is
/// already there, else with the entry inserted in id order.
pub open spec fn table_insert<V>(t: Seq<(u32, V)>, e: (u32, V)) -> Seq<(u32, V)> {
    if has_id(t, e.0) {
        t
    } else {
        t.insert(insertion_point(t, e.0) as int, e)
    }
}

/// The insertion point is the first position whose id is not smaller.
proof fn lemma_insertion_point<V>(t: Seq<(u32, V)>, id: u32, p: int)
    requires
        0 <= p <= t.len(),
        forall|k: int| 0 <= k < p ==> (#[trigger] t[k]).0 < id,
        p == t.len() || t[p].0 >= id,
    ensures
        insertion_point(t, id) == p,
    decreases p,
{
    if p > 0 {
        let r = t.drop_first();
        assert(t[0].0 < id);
        assert forall|k: int| 0 <= k < p - 1 implies (#[trigger] r[k]).0 < id by {
            assert(r[k] == t[k + 1]);
        }
        if p < t.len() {
            assert(r[p - 1] == t[p]);
        }
        lemma_insertion_point(r, id, p - 1);
    }
}

/// The ids before the insertion point are smaller, and those from it on
/// are not.
proof fn lemma_insertion_point_splits<V>(t: Seq<(u32, V)>, id: u32)
    requires
        ids_increasing(t),
    ensures
        insertion_point(t, id) <= t.len(),
        forall|k: int| 0 <= k < insertion_point(t, id) ==> (#[trigger] t[k]).0 < id,
        forall|k: int| insertion_point(t, id) <= k < t.len() ==> (#[trigger] t[k]).0 >= id,
    decreases t.len(),
{
    if t.len() > 0 && t[0].0 < id {
        let r = t.drop_first();
        assert forall|a: int, b: int| 0 <= a < b < r.len() implies (#[trigger] r[a]).0 < (#[trigger] r[b]).0 by {
            assert(r[a] == t[a + 1]);
            assert(r[b] == t[b + 1]);
        }
        lemma_insertion_point_splits(r, id);
        assert forall|k: int| 0 <= k < insertion_point(t, id) implies (#[trigger] t[k]).0 < id by {
            if k > 0 {
                assert(t[k] == r[k - 1]);
            }
        }
        assert forall|k: int| insertion_point(t, id) <= k < t.len() implies (#[trigger] t[k]).0 >= id by {
            assert(t[k] == r[k - 1]);
        }
    } else if t.len() > 0 {
        assert forall|k: int| 0 <= k < t.len() implies (#[trigger] t[k]).0 >= id by {
            if k > 0 {
                assert(t[0].0 < t[k].0);
            }
        }
    }
}

/// Inserting the next entry into the table of some entries gives the
/// table of those entries and the next one; every entry of the new table
/// is the new entry or one of the old table.
pub proof fn lemma_table_insert<V>(t: Seq<(u32, V)>, entries: Seq<(u32, V)>, e: (u32, V))
    requires
        is_first_table(t, entries),
    ensures
        is_first_table(table_insert(t, e), entries.push(e)),
        forall|k: int| 0 <= k < table_insert(t, e).len() ==> (#[trigger] table_insert(t, e)[k]) == e
            || exists|m: int| 0 <= m < t.len() && t[m] == table_insert(t, e)[k],
{
    let t1 = table_insert(t, e);
    let id = e.0;
    assert forall|x: u32| #[trigger] first_value_for(entries.push(e), x) == (match first_value_for(entries, x) {
        Some(v) => Some(v),
        None => if e.0 == x { Some(e.1) } else { None },
    }) by {
        lemma_first_value_push(entries, e, x);
    }
    if has_id(t, id) {
        let k0 = choose|k: int| 0 <= k < t.len() && (#[trigger] t[k]).0 == id;
        assert forall|j: int| 0 <= j < entries.push(e).len() implies has_id(t, (#[trigger] entries.push(e)[j]).0) by {
            if j == entries.len() {
                assert(t[k0].0 == id);
            } else {
                assert(entries.push(e)[j] == entries[j]);
            }
        }
        assert forall|k: int| 0 <= k < t1.len() implies (#[trigger] t1[k]) == e
            || exists|m: int| 0 <= m < t.len() && t[m] == t1[k] by {
            assert(t[k] == t1[k]);
        }
    } else {
        lemma_insertion_point_splits(t, id);
        let p = insertion_point(t, id) as int;
        assert forall|k: int| p <= k < t.len() implies (#[trigger] t[k]).0 > id by {
            assert(t[k].0 >= id);
            if t[k].0 == id {
                assert(has_id(t, id));
            }
        }
        lemma_first_value_some(entries, id);
        assert(first_value_for(entries, id) is None) by {
            if first_value_for(entries, id) is Some {
                let j = choose|j: int| 0 <= j < entries.len() && (#[trigger] entries[j]).0 == id;
                assert(has_id(t, entries[j].0));
            }
        }
        assert(t1 =~= t.subrange(0, p).push(e) + t.subrange(p, t.len() as int));
        assert forall|k: int| 0 <= k < t1.len() implies first_value_for(entries.push(e), (#[trigger] t1[k]).0) == Some(t1[k].1) by {
            if k < p {
                assert(t1[k] == t[k]);
            } else if k > p {
                assert(t1[k] == t[k - 1]);
            }
        }
        assert forall|a: int, b: int| 0 <= a < b < t1.len() implies (#[trigger] t1[a]).0 < (#[trigger] t1[b]).0 by {
            if a < p && b > p {
                assert(t1[b] == t[b - 1]);
                assert(t1[a] == t[a]);
            } else if a > p {
                assert(t1[b] == t[b - 1]);
                assert(t1[a] == t[a - 1]);
            } else if b < p {
                assert(t1[b] == t[b]);
                assert(t1[a] == t[a]);
            } else if a == p {
                assert(t1[b] == t[b - 1]);
            } else {
                assert(t1[a] == t[a]);
            }
        }
        assert forall|j: int| 0 <= j < entries.push(e).len() implies has_id(t1, (#[trigger] entries.push(e)[j]).0) by {
            if j == entries.len() {
                assert(t1[p].0 == id);
            } else {
                assert(entries.push(e)[j] == entries[j]);
                assert(has_id(t, entries[j].0));
                let k = choose|k: int| 0 <= k < t.len() && (#[trigger] t[k]).0 == entries[j].0;
                if k < p {
                    assert(t1[k] == t[k]);
                } else {
                    assert(t1[k + 1] == t[k]);
                }
            }
        }
        assert forall|k: int| 0 <= k < t1.len() implies (#[trigger] t1[k]) == e
            || exists|m: int| 0 <= m < t.len() && t[m] == t1[k] by {
            if k < p {
                assert(t[k] == t1[k]);
            } else if k > p {
                assert(t[k - 1] == t1[k]);
            }
        }
    }
}

/// Every list of entries has its table: each id once, ascending, with the
/// value of its first entry.
pub proof fn lemma_first_table_exists<V>(entries: Seq<(u32, V)>)
    ensures
        is_first_table(first_table(entries), entries),
    decreases entries.len(),
{
    if entries.len() == 0 {
        let t = Seq::<(u32, V)>::empty();
        assert(is_first_table(t, entries));
    } else {
        let init = entries.drop_last();
        lemma_first_table_exists(init);
        let t = first_table(init);
        lemma_table_insert(t, init, entries.last());
        assert(init.push(entries.last()) =~= entries);
        assert(is_first_table(table_insert(t, entries.last()), entries));
    }
}

/// Adds an entry to a table: kept where its id is already there, else
/// inserted in id order.
pub fn insert_first<V: Copy>(table: &mut Vec<(u32, V)>, id: u32, value: V, Ghost(entries): Ghost<Seq<(u32, V)>>)
    requires
        is_first_table(old(table)@, entries),
    ensures
        final(table)@ == table_insert(old(table)@, (id, value)),
        is_first_table(final(table)@, entries.push((id, value))),
        forall|k: int| 0 <= k < final(table)@.len() ==> (#[trigger] final(table)@[k]) == (id, value)
            || exists|m: int| 0 <= m < old(table)@.len() && old(table)@[m] == final(table)@[k],
{
    let ghost t0 = table@;
    proof {
        lemma_table_insert(t0, entries, (id, value));
        lemma_insertion_point_splits(t0, id);
    }
    let mut p: usize = 0;
    while p < table.len() && table[p].0 < id
        invariant
            p <= table@.len(),
            table@ == t0,
            forall|k: int| 0 <= k < p ==> (#[trigger] table@[k]).0 < id,
        decreases table@.len() - p,
    {
        p += 1;
    }
    proof {
        lemma_insertion_point(t0, id, p as int);
    }
    if p < table.len() && table[p].0 == id {
        assert(has_id(t0, id));
        return;
    }
    assert(!has_id(t0, id)) by {
        if has_id(t0, id) {
            let k = choose|k: int| 0 <= k < t0.len() && (#[trigger] t0[k]).0 == id;
            assert(k < p || k >= p);
        }
    }
    table.insert(p, (id, value));
}

} // verus!
