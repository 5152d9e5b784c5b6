//! The table of stored rows as a sequence, most recent first, with the rules
//! that every table keeps and the moves that the operations are made of.

use vstd::prelude::*;

use crate::text::str_eq;
use crate::types::{row_views, RowView, StoredRow};

verus! {

/// No two rows share an id.
pub open spec fn distinct_ids(rows: Seq<RowView>) -> bool {
    forall|i: int, j: int|
        0 <= i < j < rows.len() ==> (#[trigger] rows[i]).id != (#[trigger] rows[j]).id
}

/// No two rows share a content identity.
pub open spec fn distinct_hashes(rows: Seq<RowView>) -> bool {
    forall|i: int, j: int|
        0 <= i < j < rows.len() ==> (#[trigger] rows[i]).hash != (#[trigger] rows[j]).hash
}

/// Rows stand in the order of their last copy, the latest first.
pub open spec fn most_recent_first(rows: Seq<RowView>) -> bool {
    forall|i: int, j: int|
        0 <= i < j < rows.len() ==> (#[trigger] rows[i]).last_copied_at >= (
        #[trigger] rows[j]).last_copied_at
}

/// Every row was copied at least once, and its id is one that was handed out.
pub open spec fn rows_in_range(rows: Seq<RowView>, last_id: i64) -> bool {
    forall|i: int|
        0 <= i < rows.len() ==> (#[trigger] rows[i]).times_copied >= 1 && rows[i].id <= last_id
}

/// The rules of a table whose largest id handed out so far is `last_id`.
pub open spec fn valid_rows(rows: Seq<RowView>, last_id: i64) -> bool {
    &&& distinct_ids(rows)
    &&& distinct_hashes(rows)
    &&& most_recent_first(rows)
    &&& rows_in_range(rows, last_id)
    &&& chronological(rows)
}

/// No row was last copied before it was first copied.
pub open spec fn chronological(rows: Seq<RowView>) -> bool {
    forall|i: int|
        0 <= i < rows.len() ==> (#[trigger] rows[i]).first_copied_at <= rows[i].last_copied_at
}

/// Whether some row has the content identity `hash`.
pub open spec fn has_hash(rows: Seq<RowView>, hash: Seq<char>) -> bool {
    exists|i: int| 0 <= i < rows.len() && (#[trigger] rows[i]).hash == hash
}

/// The place of the row with the content identity `hash`, where there is one.
pub open spec fn hash_index(rows: Seq<RowView>, hash: Seq<char>) -> int {
    choose|i: int| 0 <= i < rows.len() && (#[trigger] rows[i]).hash == hash
}

/// Whether some row has the id `id`.
pub open spec fn has_id(rows: Seq<RowView>, id: i64) -> bool {
    exists|i: int| 0 <= i < rows.len() && (#[trigger] rows[i]).id == id
}

/// The place of the row with the id `id`, where there is one.
pub open spec fn id_index(rows: Seq<RowView>, id: i64) -> int {
    choose|i: int| 0 <= i < rows.len() && (#[trigger] rows[i]).id == id
}

/// The place at which a row last copied at `at` goes: behind the leading rows
/// that were copied later, before all others.
pub open spec fn slot_for(rows: Seq<RowView>, at: i64) -> int
    decreases rows.len(),
{
    if rows.len() == 0 || rows[0].last_copied_at <= at {
        0
    } else {
        1 + slot_for(rows.drop_first(), at)
    }
}

/// `rows` with `row` put at the place that its last copy gives it.
pub open spec fn placed(rows: Seq<RowView>, row: RowView) -> Seq<RowView> {
    rows.insert(slot_for(rows, row.last_copied_at), row)
}

/// The counter after one more copy; it stays at the largest value once it is there.
pub open spec fn next_count(n: u64) -> u64 {
    if n < u64::MAX {
        (n + 1) as u64
    } else {
        n
    }
}

/// The later of two moments.
pub open spec fn later_of(a: i64, b: i64) -> i64 {
    if a >= b {
        a
    } else {
        b
    }
}

/// `row` after one more copy at `now`: the counter goes up, and the last copy is
/// `now` unless the row was already copied later than that, so that the last copy
/// of a row never moves back.
pub open spec fn touched(row: RowView, now: i64) -> RowView {
    RowView {
        last_copied_at: later_of(now, row.last_copied_at),
        times_copied: next_count(row.times_copied),
        ..row
    }
}

/// Whether `after` is `before` after one more copy: the counter went up, the last
/// copy did not move back, and all else stayed.
pub open spec fn copied_again(before: RowView, after: RowView) -> bool {
    &&& after == (RowView {
        last_copied_at: after.last_copied_at,
        times_copied: next_count(before.times_copied),
        ..before
    })
    &&& after.last_copied_at >= before.last_copied_at
}

/// `rows` after the row at `i` was copied once more at `now` and moved to its new place.
pub open spec fn bumped(rows: Seq<RowView>, i: int, now: i64) -> Seq<RowView> {
    placed(rows.remove(i), touched(rows[i], now))
}

/// `rows` with the pin of the row at `i` flipped.
pub open spec fn flipped(rows: Seq<RowView>, i: int) -> Seq<RowView> {
    rows.update(i, RowView { is_pinned: !rows[i].is_pinned, ..rows[i] })
}

/// The pinned rows of `rows`, in their order.
pub open spec fn pinned_rows(rows: Seq<RowView>) -> Seq<RowView> {
    rows.filter(|r: RowView| r.is_pinned)
}

/// The window of `limit` entries that starts `offset` entries into `s`, cut where
/// `s` ends.
pub open spec fn page<A>(s: Seq<A>, limit: nat, offset: nat) -> Seq<A> {
    let start = if offset < s.len() { offset as int } else { s.len() as int };
    let end = if offset + limit < s.len() { (offset + limit) as int } else { s.len() as int };
    s.subrange(start, end)
}

/// The slot lies within the table; every row before it was copied later than `at`,
/// and the row at it, if any, was not.
pub proof fn lemma_slot_for(rows: Seq<RowView>, at: i64)
    ensures
        0 <= slot_for(rows, at) <= rows.len(),
        forall|i: int| 0 <= i < slot_for(rows, at) ==> (#[trigger] rows[i]).last_copied_at > at,
        slot_for(rows, at) < rows.len() ==> rows[slot_for(rows, at)].last_copied_at <= at,
    decreases rows.len(),
{
    if rows.len() == 0 || rows[0].last_copied_at <= at {
    } else {
        let rest = rows.drop_first();
        lemma_slot_for(rest, at);
        assert forall|i: int| 0 <= i < slot_for(rows, at) implies (#[trigger] rows[i]).last_copied_at
            > at by {
            if i > 0 {
                assert(rows[i] == rest[i - 1]);
            }
        }
        if slot_for(rows, at) < rows.len() {
            assert(rows[slot_for(rows, at)] == rest[slot_for(rest, at)]);
        }
    }
}

/// The one place that ends the leading rows copied later than `at` is the slot.
pub proof fn lemma_slot_is(rows: Seq<RowView>, at: i64, p: int)
    requires
        0 <= p <= rows.len(),
        forall|i: int| 0 <= i < p ==> (#[trigger] rows[i]).last_copied_at > at,
        p < rows.len() ==> rows[p].last_copied_at <= at,
    ensures
        slot_for(rows, at) == p,
{
    lemma_slot_for(rows, at);
    let s = slot_for(rows, at);
    if s < p {
        assert(rows[s].last_copied_at > at);
    } else if p < s {
        assert(rows[p].last_copied_at > at);
    }
}

/// Putting a row with a new id and a new identity at its place keeps a table valid.
pub proof fn lemma_placed_valid(rows: Seq<RowView>, row: RowView, last_id: i64)
    requires
        valid_rows(rows, last_id),
        !has_id(rows, row.id),
        !has_hash(rows, row.hash),
        row.times_copied >= 1,
        row.id <= last_id,
        row.first_copied_at <= row.last_copied_at,
    ensures
        valid_rows(placed(rows, row), last_id),
        placed(rows, row).len() == rows.len() + 1,
{
    lemma_slot_for(rows, row.last_copied_at);
    let p = slot_for(rows, row.last_copied_at);
    let out = placed(rows, row);
    assert forall|i: int| 0 <= i < out.len() implies (#[trigger] out[i]) == (if i < p {
        rows[i]
    } else if i == p {
        row
    } else {
        rows[i - 1]
    }) by {}
    assert forall|i: int, j: int| 0 <= i < j < out.len() implies (#[trigger] out[i]).id != (
    #[trigger] out[j]).id by {
        let a = if i < p { i } else { i - 1 };
        let b = if j < p { j } else { j - 1 };
        if i != p && j != p {
            assert(rows[a].id != rows[b].id);
        } else if i == p {
            assert(rows[b].id != row.id);
        } else {
            assert(rows[a].id != row.id);
        }
    }
    assert forall|i: int, j: int| 0 <= i < j < out.len() implies (#[trigger] out[i]).hash != (
    #[trigger] out[j]).hash by {
        let a = if i < p { i } else { i - 1 };
        let b = if j < p { j } else { j - 1 };
        if i != p && j != p {
            assert(rows[a].hash != rows[b].hash);
        } else if i == p {
            assert(rows[b].hash != row.hash);
        } else {
            assert(rows[a].hash != row.hash);
        }
    }
    assert forall|i: int, j: int| 0 <= i < j < out.len() implies (#[trigger] out[i]).last_copied_at
        >= (#[trigger] out[j]).last_copied_at by {
        let a = if i < p { i } else { i - 1 };
        let b = if j < p { j } else { j - 1 };
        if i != p && j != p {
            assert(rows[a].last_copied_at >= rows[b].last_copied_at);
        } else if i == p {
            if b > p {
                assert(rows[p].last_copied_at >= rows[b].last_copied_at);
            }
        } else {
            assert(rows[a].last_copied_at > row.last_copied_at);
        }
    }
    assert forall|i: int| 0 <= i < out.len() implies (#[trigger] out[i]).times_copied >= 1
        && out[i].id <= last_id && out[i].first_copied_at <= out[i].last_copied_at by {
        let a = if i < p { i } else { i - 1 };
        if i != p {
            assert(rows[a].times_copied >= 1);
        }
    }
}

/// Taking a row out keeps a table valid, and its id and identity are then free.
pub proof fn lemma_remove_valid(rows: Seq<RowView>, i: int, last_id: i64)
    requires
        valid_rows(rows, last_id),
        0 <= i < rows.len(),
    ensures
        valid_rows(rows.remove(i), last_id),
        !has_id(rows.remove(i), rows[i].id),
        !has_hash(rows.remove(i), rows[i].hash),
        rows.remove(i).len() == rows.len() - 1,
{
    let out = rows.remove(i);
    assert forall|k: int| 0 <= k < out.len() implies (#[trigger] out[k]) == (if k < i {
        rows[k]
    } else {
        rows[k + 1]
    }) by {}
    assert forall|a: int, b: int| 0 <= a < b < out.len() implies (#[trigger] out[a]).id != (
    #[trigger] out[b]).id by {
        let x = if a < i { a } else { a + 1 };
        let y = if b < i { b } else { b + 1 };
        assert(rows[x].id != rows[y].id);
    }
    assert forall|a: int, b: int| 0 <= a < b < out.len() implies (#[trigger] out[a]).hash != (
    #[trigger] out[b]).hash by {
        let x = if a < i { a } else { a + 1 };
        let y = if b < i { b } else { b + 1 };
        assert(rows[x].hash != rows[y].hash);
    }
    assert forall|a: int, b: int| 0 <= a < b < out.len() implies (#[trigger] out[a]).last_copied_at
        >= (#[trigger] out[b]).last_copied_at by {
        let x = if a < i { a } else { a + 1 };
        let y = if b < i { b } else { b + 1 };
        assert(rows[x].last_copied_at >= rows[y].last_copied_at);
    }
    assert forall|k: int| 0 <= k < out.len() implies (#[trigger] out[k]).times_copied >= 1
        && out[k].id <= last_id && out[k].first_copied_at <= out[k].last_copied_at by {
        let x = if k < i { k } else { k + 1 };
        assert(rows[x].times_copied >= 1);
    }
    assert forall|k: int| 0 <= k < out.len() implies (#[trigger] out[k]).id != rows[i].id by {
        let x = if k < i { k } else { k + 1 };
        if x < i {
            assert(rows[x].id != rows[i].id);
        } else {
            assert(rows[i].id != rows[x].id);
        }
    }
    assert forall|k: int| 0 <= k < out.len() implies (#[trigger] out[k]).hash != rows[i].hash by {
        let x = if k < i { k } else { k + 1 };
        if x < i {
            assert(rows[x].hash != rows[i].hash);
        } else {
            assert(rows[i].hash != rows[x].hash);
        }
    }
}

/// One more copy of the row at `i` keeps a table valid and its size.
pub proof fn lemma_bumped_valid(rows: Seq<RowView>, i: int, now: i64, last_id: i64)
    requires
        valid_rows(rows, last_id),
        0 <= i < rows.len(),
    ensures
        valid_rows(bumped(rows, i, now), last_id),
        bumped(rows, i, now).len() == rows.len(),
{
    lemma_remove_valid(rows, i, last_id);
    lemma_placed_valid(rows.remove(i), touched(rows[i], now), last_id);
}

/// After one more copy of the row at `i`, its id and its identity find the row as
/// the copy left it, and no row was added or lost.
pub proof fn lemma_bumped_found(rows: Seq<RowView>, i: int, now: i64, last_id: i64)
    requires
        valid_rows(rows, last_id),
        0 <= i < rows.len(),
    ensures
        bumped(rows, i, now).len() == rows.len(),
        has_id(bumped(rows, i, now), rows[i].id),
        has_hash(bumped(rows, i, now), rows[i].hash),
        bumped(rows, i, now)[id_index(bumped(rows, i, now), rows[i].id)] == touched(rows[i], now),
        bumped(rows, i, now)[hash_index(bumped(rows, i, now), rows[i].hash)] == touched(
            rows[i],
            now,
        ),
        copied_again(rows[i], touched(rows[i], now)),
{
    lemma_remove_valid(rows, i, last_id);
    lemma_placed_found(rows.remove(i), touched(rows[i], now));
}

/// Flipping a pin keeps a table valid.
pub proof fn lemma_flipped_valid(rows: Seq<RowView>, i: int, last_id: i64)
    requires
        valid_rows(rows, last_id),
        0 <= i < rows.len(),
    ensures
        valid_rows(flipped(rows, i), last_id),
{
    let out = flipped(rows, i);
    assert forall|a: int, b: int| 0 <= a < b < out.len() implies (#[trigger] out[a]).id != (
    #[trigger] out[b]).id by {
        assert(rows[a].id != rows[b].id);
    }
    assert forall|a: int, b: int| 0 <= a < b < out.len() implies (#[trigger] out[a]).hash != (
    #[trigger] out[b]).hash by {
        assert(rows[a].hash != rows[b].hash);
    }
    assert forall|a: int, b: int| 0 <= a < b < out.len() implies (#[trigger] out[a]).last_copied_at
        >= (#[trigger] out[b]).last_copied_at by {
        assert(rows[a].last_copied_at >= rows[b].last_copied_at);
    }
    assert forall|k: int| 0 <= k < out.len() implies (#[trigger] out[k]).times_copied >= 1
        && out[k].id <= last_id && out[k].first_copied_at <= out[k].last_copied_at by {
        assert(rows[k].times_copied >= 1);
    }
}

/// Where ids are distinct, the place of an id is the one place that holds it.
pub proof fn lemma_id_index(rows: Seq<RowView>, id: i64, i: int)
    requires
        distinct_ids(rows),
        0 <= i < rows.len(),
        rows[i].id == id,
    ensures
        has_id(rows, id),
        id_index(rows, id) == i,
{
    let k = id_index(rows, id);
    if k < i {
        assert(rows[k].id != rows[i].id);
    } else if i < k {
        assert(rows[i].id != rows[k].id);
    }
}

/// Where identities are distinct, the place of an identity is the one place that holds it.
pub proof fn lemma_hash_index(rows: Seq<RowView>, hash: Seq<char>, i: int)
    requires
        distinct_hashes(rows),
        0 <= i < rows.len(),
        rows[i].hash == hash,
    ensures
        has_hash(rows, hash),
        hash_index(rows, hash) == i,
{
    let k = hash_index(rows, hash);
    if k < i {
        assert(rows[k].hash != rows[i].hash);
    } else if i < k {
        assert(rows[i].hash != rows[k].hash);
    }
}

/// A row put at its place, with an identity that no other row has, is the row that
/// its identity finds; so it is for its id.
pub proof fn lemma_placed_found(rows: Seq<RowView>, row: RowView)
    ensures
        placed(rows, row).len() == rows.len() + 1,
        has_hash(placed(rows, row), row.hash),
        has_id(placed(rows, row), row.id),
        !has_hash(rows, row.hash) ==> placed(rows, row)[hash_index(placed(rows, row), row.hash)]
            == row,
        !has_id(rows, row.id) ==> placed(rows, row)[id_index(placed(rows, row), row.id)] == row,
{
    lemma_slot_for(rows, row.last_copied_at);
    let p = slot_for(rows, row.last_copied_at);
    let out = placed(rows, row);
    assert(out[p] == row);
    if !has_hash(rows, row.hash) {
        let k = hash_index(out, row.hash);
        if k < p {
            assert(out[k] == rows[k]);
        } else if k > p {
            assert(out[k] == rows[k - 1]);
        }
    }
    if !has_id(rows, row.id) {
        let k = id_index(out, row.id);
        if k < p {
            assert(out[k] == rows[k]);
        } else if k > p {
            assert(out[k] == rows[k - 1]);
        }
    }
}

/// What holds of every earlier and later entry of a sequence holds of every earlier
/// and later entry of what a predicate keeps of it.
pub proof fn lemma_filter_keeps_order<A>(
    s: Seq<A>,
    pred: spec_fn(A) -> bool,
    rel: spec_fn(A, A) -> bool,
)
    requires
        forall|i: int, j: int| 0 <= i < j < s.len() ==> rel(#[trigger] s[i], #[trigger] s[j]),
    ensures
        forall|i: int, j: int|
            0 <= i < j < s.filter(pred).len() ==> rel(
                #[trigger] s.filter(pred)[i],
                #[trigger] s.filter(pred)[j],
            ),
    decreases s.len(),
{
    reveal(Seq::filter);
    if s.len() > 0 {
        let front = s.drop_last();
        let last = s.last();
        assert forall|i: int, j: int| 0 <= i < j < front.len() implies rel(
            #[trigger] front[i],
            #[trigger] front[j],
        ) by {
            assert(front[i] == s[i] && front[j] == s[j]);
        }
        lemma_filter_keeps_order(front, pred, rel);
        let kept = front.filter(pred);
        let out = s.filter(pred);
        assert forall|i: int, j: int| 0 <= i < j < out.len() implies rel(
            #[trigger] out[i],
            #[trigger] out[j],
        ) by {
            if j < kept.len() {
                assert(out[i] == kept[i] && out[j] == kept[j]);
            } else {
                assert(out[i] == kept[i]);
                front.lemma_filter_contains_rev(pred, kept[i]);
                let w = choose|w: int| 0 <= w < front.len() && front[w] == kept[i];
                assert(rel(s[w], s[s.len() - 1]));
            }
        }
    }
}

/// The rows that a predicate keeps of a valid table form a valid table.
pub proof fn lemma_filter_valid(rows: Seq<RowView>, pred: spec_fn(RowView) -> bool, last_id: i64)
    requires
        valid_rows(rows, last_id),
    ensures
        valid_rows(rows.filter(pred), last_id),
        forall|k: int|
            0 <= k < rows.filter(pred).len() ==> rows.contains(#[trigger] rows.filter(pred)[k]),
    decreases rows.len(),
{
    reveal(Seq::filter);
    if rows.len() > 0 {
        let front = rows.drop_last();
        let last = rows.last();
        assert forall|i: int| 0 <= i < front.len() implies #[trigger] front[i] == rows[i] by {}
        assert(valid_rows(front, last_id)) by {
            assert forall|i: int, j: int| 0 <= i < j < front.len() implies (#[trigger] front[i]).id
                != (#[trigger] front[j]).id by {
                assert(rows[i].id != rows[j].id);
            }
            assert forall|i: int, j: int| 0 <= i < j < front.len() implies (
            #[trigger] front[i]).hash != (#[trigger] front[j]).hash by {
                assert(rows[i].hash != rows[j].hash);
            }
            assert forall|i: int, j: int| 0 <= i < j < front.len() implies (
            #[trigger] front[i]).last_copied_at >= (#[trigger] front[j]).last_copied_at by {
                assert(rows[i].last_copied_at >= rows[j].last_copied_at);
            }
            assert forall|i: int| 0 <= i < front.len() implies (#[trigger] front[i]).times_copied
                >= 1 && front[i].id <= last_id && front[i].first_copied_at <= front[i].last_copied_at by {
                assert(rows[i].times_copied >= 1);
            }
        }
        lemma_filter_valid(front, pred, last_id);
        let kept = front.filter(pred);
        let out = rows.filter(pred);
        assert forall|k: int| 0 <= k < out.len() implies rows.contains(#[trigger] out[k]) by {
            if k < kept.len() {
                assert(out[k] == kept[k]);
                assert(front.contains(kept[k]));
                let w = choose|w: int| 0 <= w < front.len() && front[w] == kept[k];
                assert(rows[w] == out[k]);
            } else {
                assert(out[k] == rows[rows.len() - 1]);
            }
        }
        if pred(last) {
            let n = kept.len() as int;
            assert forall|k: int| 0 <= k < n implies (#[trigger] kept[k]).id != last.id
                && kept[k].hash != last.hash && kept[k].last_copied_at >= last.last_copied_at by {
                assert(front.contains(kept[k]));
                let w = choose|w: int| 0 <= w < front.len() && front[w] == kept[k];
                assert(rows[w].id != rows[rows.len() - 1].id);
                assert(rows[w].hash != rows[rows.len() - 1].hash);
                assert(rows[w].last_copied_at >= rows[rows.len() - 1].last_copied_at);
            }
            assert forall|i: int, j: int| 0 <= i < j < out.len() implies (#[trigger] out[i]).id != (
            #[trigger] out[j]).id by {
                if j < n {
                    assert(kept[i].id != kept[j].id);
                } else {
                    assert(kept[i].id != last.id);
                }
            }
            assert forall|i: int, j: int| 0 <= i < j < out.len() implies (#[trigger] out[i]).hash
                != (#[trigger] out[j]).hash by {
                if j < n {
                    assert(kept[i].hash != kept[j].hash);
                } else {
                    assert(kept[i].hash != last.hash);
                }
            }
            assert forall|i: int, j: int| 0 <= i < j < out.len() implies (
            #[trigger] out[i]).last_copied_at >= (#[trigger] out[j]).last_copied_at by {
                if j < n {
                    assert(kept[i].last_copied_at >= kept[j].last_copied_at);
                } else {
                    assert(kept[i].last_copied_at >= last.last_copied_at);
                }
            }
            assert forall|k: int| 0 <= k < out.len() implies (#[trigger] out[k]).times_copied >= 1
                && out[k].id <= last_id && out[k].first_copied_at <= out[k].last_copied_at by {
                if k < n {
                    assert(kept[k].times_copied >= 1);
                } else {
                    assert(rows[rows.len() - 1].times_copied >= 1);
                }
            }
        }
    }
}

/// Finds the row with the id `id`.
pub(crate) fn find_id(rows: &Vec<StoredRow>, id: i64) -> (at: Option<usize>)
    requires
        distinct_ids(row_views(rows@)),
    ensures
        match at {
            Some(i) => {
                &&& i < rows@.len()
                &&& rows@[i as int].id == id
                &&& has_id(row_views(rows@), id)
                &&& id_index(row_views(rows@), id) == i
            },
            None => !has_id(row_views(rows@), id),
        },
{
    let mut i: usize = 0;
    while i < rows.len()
        invariant
            i <= rows@.len(),
            distinct_ids(row_views(rows@)),
            forall|k: int| 0 <= k < i ==> (#[trigger] row_views(rows@)[k]).id != id,
        decreases rows.len() - i,
    {
        if rows[i].id == id {
            proof {
                lemma_id_index(row_views(rows@), id, i as int);
            }
            return Some(i);
        }
        i += 1;
    }
    None
}

/// Finds the row with the content identity `hash`.
pub(crate) fn find_hash(rows: &Vec<StoredRow>, hash: &str) -> (at: Option<usize>)
    requires
        distinct_hashes(row_views(rows@)),
    ensures
        match at {
            Some(i) => {
                &&& i < rows@.len()
                &&& rows@[i as int].hash@ == hash@
                &&& has_hash(row_views(rows@), hash@)
                &&& hash_index(row_views(rows@), hash@) == i
            },
            None => !has_hash(row_views(rows@), hash@),
        },
{
    let mut i: usize = 0;
    while i < rows.len()
        invariant
            i <= rows@.len(),
            distinct_hashes(row_views(rows@)),
            forall|k: int| 0 <= k < i ==> (#[trigger] row_views(rows@)[k]).hash != hash@,
        decreases rows.len() - i,
    {
        if str_eq(rows[i].hash.as_str(), hash) {
            proof {
                lemma_hash_index(row_views(rows@), hash@, i as int);
            }
            return Some(i);
        }
        i += 1;
    }
    None
}

/// Puts `row` at the place that its last copy gives it.
pub(crate) fn place(rows: &mut Vec<StoredRow>, row: StoredRow)
    ensures
        row_views(final(rows)@) == placed(row_views(old(rows)@), row@),
{
    let ghost before = row_views(rows@);
    let mut p: usize = 0;
    while p < rows.len() && rows[p].last_copied_at > row.last_copied_at
        invariant
            p <= rows@.len(),
            row_views(rows@) == before,
            forall|k: int| 0 <= k < p ==> (#[trigger] before[k]).last_copied_at > row.last_copied_at,
        decreases rows.len() - p,
    {
        p += 1;
    }
    proof {
        lemma_slot_is(before, row.last_copied_at, p as int);
    }
    let ghost shown = row@;
    rows.insert(p, row);
    assert(row_views(rows@) =~= before.insert(p as int, shown));
}

/// Records one more copy, at `now`, of the row at `i`, and moves the row to its
/// new place. The row's last copy becomes `now` unless it is later already.
pub(crate) fn bump(rows: &mut Vec<StoredRow>, i: usize, now: i64)
    requires
        i < old(rows)@.len(),
    ensures
        row_views(final(rows)@) == bumped(row_views(old(rows)@), i as int, now),
{
    let ghost before = row_views(rows@);
    let mut row = rows.remove(i);
    assert(row_views(rows@) =~= before.remove(i as int));
    assert(row@ == before[i as int]);
    if now > row.last_copied_at {
        row.last_copied_at = now;
    }
    if row.times_copied < u64::MAX {
        row.times_copied = row.times_copied + 1;
    }
    assert(row@ == touched(before[i as int], now));
    place(rows, row);
}

/// Tells whether `rows` keep the rules of a table whose largest id handed out so
/// far is `last_id`.
pub fn rows_are_valid(rows: &Vec<StoredRow>, last_id: i64) -> (ok: bool)
    ensures
        ok == valid_rows(row_views(rows@), last_id),
{
    let ghost views = row_views(rows@);
    let mut j: usize = 0;
    while j < rows.len()
        invariant
            j <= rows@.len(),
            views == row_views(rows@),
            forall|a: int, b: int|
                0 <= a < b < j ==> {
                    &&& (#[trigger] views[a]).id != (#[trigger] views[b]).id
                    &&& views[a].hash != views[b].hash
                    &&& views[a].last_copied_at >= views[b].last_copied_at
                },
            forall|b: int| 0 <= b < j ==> (#[trigger] views[b]).times_copied >= 1 && views[b].id
                <= last_id,
            forall|b: int|
                0 <= b < j ==> (#[trigger] views[b]).first_copied_at <= views[b].last_copied_at,
        decreases rows.len() - j,
    {
        if rows[j].times_copied < 1 || rows[j].id > last_id {
            assert(!(views[j as int].times_copied >= 1 && views[j as int].id <= last_id));
            return false;
        }
        if rows[j].first_copied_at > rows[j].last_copied_at {
            assert(views[j as int].first_copied_at > views[j as int].last_copied_at);
            return false;
        }
        let mut i: usize = 0;
        while i < j
            invariant
                i <= j < rows@.len(),
                views == row_views(rows@),
                forall|a: int|
                    0 <= a < i ==> {
                        &&& (#[trigger] views[a]).id != views[j as int].id
                        &&& views[a].hash != views[j as int].hash
                        &&& views[a].last_copied_at >= views[j as int].last_copied_at
                    },
            decreases j - i,
        {
            if rows[i].id == rows[j].id {
                assert(views[i as int].id == views[j as int].id);
                return false;
            }
            if str_eq(rows[i].hash.as_str(), rows[j].hash.as_str()) {
                assert(views[i as int].hash == views[j as int].hash);
                return false;
            }
            if rows[i].last_copied_at < rows[j].last_copied_at {
                assert(views[i as int].last_copied_at < views[j as int].last_copied_at);
                return false;
            }
            i += 1;
        }
        j += 1;
    }
    true
}

} // verus!
