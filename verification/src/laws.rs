//! What holds of the history whatever is done with it.

use vstd::prelude::*;

use crate::listing::{
    admitted, kept_by, listed, listing, pinned_word, searched, shown, Filter,
};
use crate::manager::HistoryView;
use crate::table::{
    chronological, copied_again, distinct_hashes, flipped, has_hash, has_id, hash_index,
    id_index, later_of, lemma_bumped_found, lemma_bumped_valid, lemma_filter_keeps_order,
    lemma_filter_valid, lemma_flipped_valid, lemma_id_index, lemma_placed_found,
    lemma_placed_valid, lemma_remove_valid, page, pinned_rows, touched, valid_rows,
};
use crate::text::{ellipsis, preview_of};
use crate::types::{ContentType, ItemView, RowView, INLINE_CONTENT_THRESHOLD_BYTES};

verus! {

/// Recording a copy keeps the rules of the history: in particular no two rows ever
/// share a content identity.
pub proof fn law_add_item_keeps_rules(
    h: HistoryView,
    hash: Seq<char>,
    content_type: ContentType,
    content: Seq<char>,
    source_app_name: Option<Seq<char>>,
    now: i64,
    preview_nonce: Seq<u8>,
    content_nonce: Seq<u8>,
)
    requires
        h.wf(),
    ensures
        h.add_item(
            hash,
            content_type,
            content,
            source_app_name,
            now,
            preview_nonce,
            content_nonce,
        ).0.wf(),
        distinct_hashes(
            h.add_item(
                hash,
                content_type,
                content,
                source_app_name,
                now,
                preview_nonce,
                content_nonce,
            ).0.rows,
        ),
{
    let out = h.add_item(
        hash,
        content_type,
        content,
        source_app_name,
        now,
        preview_nonce,
        content_nonce,
    );
    if has_hash(h.rows, hash) {
        lemma_bumped_valid(h.rows, hash_index(h.rows, hash), now, h.last_id);
    } else if out.1 is Ok {
        let row = h.fresh_row(
            hash,
            content_type,
            content,
            source_app_name,
            now,
            preview_nonce,
            content_nonce,
        );
        assert(valid_rows(h.rows, row.id));
        assert(!has_id(h.rows, row.id));
        lemma_placed_valid(h.rows, row, row.id);
    }
}

/// One more copy of a row, its removal, the flip of its pin and the purge of the
/// rows that are not pinned each keep the rules of the history.
pub proof fn law_changes_keep_rules(h: HistoryView, id: i64, now: i64)
    requires
        h.wf(),
    ensures
        h.item_was_copied(id, now).wf(),
        h.delete_item(id).wf(),
        h.toggle_pin(id).wf(),
        h.clear_all().wf(),
{
    if has_id(h.rows, id) {
        let i = id_index(h.rows, id);
        lemma_bumped_valid(h.rows, i, now, h.last_id);
        lemma_remove_valid(h.rows, i, h.last_id);
        lemma_flipped_valid(h.rows, i, h.last_id);
    }
    lemma_filter_valid(h.rows, |r: RowView| r.is_pinned, h.last_id);
}

/// Of every row of a history it holds that it was not last copied before it was
/// first copied, that it was copied at least once, and that no other row shares
/// its content identity or its id.
pub proof fn law_rows_keep_their_rules(h: HistoryView, i: int, j: int)
    requires
        h.wf(),
        0 <= i < h.rows.len(),
        0 <= j < h.rows.len(),
        i != j,
    ensures
        chronological(h.rows),
        h.rows[i].first_copied_at <= h.rows[i].last_copied_at,
        h.rows[i].times_copied >= 1,
        h.rows[i].hash != h.rows[j].hash,
        h.rows[i].id != h.rows[j].id,
{
    if i < j {
        assert(h.rows[i].hash != h.rows[j].hash);
        assert(h.rows[i].id != h.rows[j].id);
    } else {
        assert(h.rows[j].hash != h.rows[i].hash);
        assert(h.rows[j].id != h.rows[i].id);
    }
}

/// A copy of content whose identity is known changes one row and adds none: the
/// row's counter goes up by one, its last copy becomes the moment of this copy
/// unless it is later already, and all else that it holds stays. So the last copy
/// never moves back, moves forward with a later moment, and is never before the
/// first copy.
pub proof fn law_repeat_copy(
    h: HistoryView,
    hash: Seq<char>,
    content_type: ContentType,
    content: Seq<char>,
    source_app_name: Option<Seq<char>>,
    now: i64,
    preview_nonce: Seq<u8>,
    content_nonce: Seq<u8>,
)
    requires
        h.wf(),
        has_hash(h.rows, hash),
    ensures
        ({
            let before = h.row_with_hash(hash);
            let out = h.add_item(
                hash,
                content_type,
                content,
                source_app_name,
                now,
                preview_nonce,
                content_nonce,
            );
            let after = out.0.row_with_hash(hash);
            &&& out.1 is Ok
            &&& out.0.wf()
            &&& out.0.rows.len() == h.rows.len()
            &&& has_hash(out.0.rows, hash)
            &&& after == touched(before, now)
            &&& copied_again(before, after)
            &&& after.first_copied_at == before.first_copied_at
            &&& after.last_copied_at == later_of(now, before.last_copied_at)
            &&& after.last_copied_at >= before.last_copied_at
            &&& after.last_copied_at >= after.first_copied_at
            &&& after.times_copied >= 1
            &&& before.times_copied < u64::MAX ==> after.times_copied == before.times_copied + 1
            &&& now > before.last_copied_at ==> after.last_copied_at == now
                && after.last_copied_at > before.last_copied_at
        }),
{
    let i = hash_index(h.rows, hash);
    lemma_bumped_valid(h.rows, i, now, h.last_id);
    lemma_bumped_found(h.rows, i, now, h.last_id);
    assert(h.rows[i].first_copied_at <= h.rows[i].last_copied_at);
    assert(h.rows[i].times_copied >= 1);
}

/// One more copy of a row by its id changes that row and adds none: the counter
/// goes up by one, the last copy becomes the moment of this copy unless it is later
/// already, and all else that the row holds stays. Every row is still copied at
/// least once and not last copied before it was first copied.
pub proof fn law_copy_by_id(h: HistoryView, id: i64, now: i64)
    requires
        h.wf(),
        has_id(h.rows, id),
    ensures
        ({
            let before = h.row_with_id(id);
            let out = h.item_was_copied(id, now);
            let after = out.row_with_id(id);
            &&& out.wf()
            &&& chronological(out.rows)
            &&& out.rows.len() == h.rows.len()
            &&& has_id(out.rows, id)
            &&& after == touched(before, now)
            &&& copied_again(before, after)
            &&& after.first_copied_at == before.first_copied_at
            &&& after.last_copied_at == later_of(now, before.last_copied_at)
            &&& after.last_copied_at >= before.last_copied_at
            &&& after.last_copied_at >= after.first_copied_at
            &&& after.times_copied >= 1
            &&& before.times_copied < u64::MAX ==> after.times_copied == before.times_copied + 1
            &&& now > before.last_copied_at ==> after.last_copied_at == now
        }),
{
    let i = id_index(h.rows, id);
    lemma_bumped_valid(h.rows, i, now, h.last_id);
    lemma_bumped_found(h.rows, i, now, h.last_id);
    assert(h.rows[i].first_copied_at <= h.rows[i].last_copied_at);
    assert(h.rows[i].times_copied >= 1);
}

/// Content that is copied for the first time and then once more has one row, which
/// counts two copies, keeps the moment of the first and shows the later of the two
/// moments as its last copy.
pub proof fn law_copy_twice(
    h: HistoryView,
    hash: Seq<char>,
    content_type: ContentType,
    content: Seq<char>,
    source_app_name: Option<Seq<char>>,
    first: i64,
    second: i64,
    preview_nonce: Seq<u8>,
    content_nonce: Seq<u8>,
)
    requires
        h.wf(),
        !has_hash(h.rows, hash),
        h.add_item(
            hash,
            content_type,
            content,
            source_app_name,
            first,
            preview_nonce,
            content_nonce,
        ).1 is Ok,
    ensures
        ({
            let once = h.add_item(
                hash,
                content_type,
                content,
                source_app_name,
                first,
                preview_nonce,
                content_nonce,
            ).0;
            let twice = once.add_item(
                hash,
                content_type,
                content,
                source_app_name,
                second,
                preview_nonce,
                content_nonce,
            ).0;
            let row = twice.rows[hash_index(twice.rows, hash)];
            &&& once.rows.len() == h.rows.len() + 1
            &&& twice.rows.len() == h.rows.len() + 1
            &&& row.times_copied == 2
            &&& row.first_copied_at == first
            &&& row.last_copied_at == later_of(second, first)
            &&& row.last_copied_at >= row.first_copied_at
            &&& second > first ==> row.last_copied_at == second && row.last_copied_at > first
        }),
{
    let fresh = h.fresh_row(
        hash,
        content_type,
        content,
        source_app_name,
        first,
        preview_nonce,
        content_nonce,
    );
    lemma_placed_found(h.rows, fresh);
    law_add_item_keeps_rules(
        h,
        hash,
        content_type,
        content,
        source_app_name,
        first,
        preview_nonce,
        content_nonce,
    );
    let once = h.add_item(
        hash,
        content_type,
        content,
        source_app_name,
        first,
        preview_nonce,
        content_nonce,
    ).0;
    law_repeat_copy(
        once,
        hash,
        content_type,
        content,
        source_app_name,
        second,
        preview_nonce,
        content_nonce,
    );
}

/// Flipping the pin of a row twice leaves the history as it was.
pub proof fn law_toggle_twice(h: HistoryView, id: i64)
    requires
        h.wf(),
    ensures
        h.toggle_pin(id).toggle_pin(id) == h,
{
    if has_id(h.rows, id) {
        let i = id_index(h.rows, id);
        let once = flipped(h.rows, i);
        lemma_flipped_valid(h.rows, i, h.last_id);
        assert(once[i].id == id);
        lemma_id_index(once, id, i);
        assert(flipped(once, i) =~= h.rows);
    }
}

/// The purge leaves every pinned row as it was and in its order, and no other row:
/// a row is in the history afterwards exactly if it was there before and pinned,
/// and so it is for each id.
pub proof fn law_clear_all(h: HistoryView)
    requires
        h.wf(),
    ensures
        h.clear_all().last_id == h.last_id,
        h.clear_all().rows.len() <= h.rows.len(),
        forall|r: RowView| #[trigger]
            h.clear_all().rows.contains(r) <==> h.rows.contains(r) && r.is_pinned,
        forall|id: i64| #[trigger]
            has_id(h.clear_all().rows, id) <==> has_id(h.rows, id) && h.rows[id_index(
                h.rows,
                id,
            )].is_pinned,
        forall|id: i64|
            has_id(h.clear_all().rows, id) ==> (#[trigger] h.clear_all().rows[id_index(
                h.clear_all().rows,
                id,
            )]) == h.rows[id_index(h.rows, id)],
{
    let pinned = |r: RowView| r.is_pinned;
    let out = pinned_rows(h.rows);
    h.rows.lemma_filter_len(pinned);
    lemma_filter_valid(h.rows, pinned, h.last_id);
    assert forall|r: RowView| #[trigger] out.contains(r) <==> h.rows.contains(r)
        && r.is_pinned by {
        if out.contains(r) {
            let k = choose|k: int| 0 <= k < out.len() && out[k] == r;
            h.rows.lemma_filter_pred(pinned, k);
            h.rows.lemma_filter_contains_rev(pinned, r);
        }
        if h.rows.contains(r) && r.is_pinned {
            let k = choose|k: int| 0 <= k < h.rows.len() && h.rows[k] == r;
            h.rows.lemma_filter_contains(pinned, k);
        }
    }
    assert forall|id: i64| #[trigger]
        has_id(out, id) <==> has_id(h.rows, id) && h.rows[id_index(h.rows, id)].is_pinned by {
        if has_id(out, id) {
            let k = id_index(out, id);
            assert(out.contains(out[k]));
            let w = choose|w: int| 0 <= w < h.rows.len() && h.rows[w] == out[k];
            lemma_id_index(h.rows, id, w);
        }
        if has_id(h.rows, id) && h.rows[id_index(h.rows, id)].is_pinned {
            let w = id_index(h.rows, id);
            assert(h.rows.contains(h.rows[w]));
            assert(out.contains(h.rows[w]));
            let k = choose|k: int| 0 <= k < out.len() && out[k] == h.rows[w];
            assert(out[k].id == id);
        }
    }
    assert forall|id: i64| has_id(out, id) implies (#[trigger] out[id_index(out, id)])
        == h.rows[id_index(h.rows, id)] by {
        let k = id_index(out, id);
        assert(out.contains(out[k]));
        let w = choose|w: int| 0 <= w < h.rows.len() && h.rows[w] == out[k];
        lemma_id_index(h.rows, id, w);
    }
}

/// A preview of content that fits the bound is the content; of longer content it
/// is the first scalar values up to the bound, followed by the marker of three.
pub proof fn law_preview(content: Seq<char>, max_chars: nat)
    ensures
        content.len() <= max_chars ==> preview_of(content, max_chars) == content,
        content.len() > max_chars ==> {
            &&& preview_of(content, max_chars).len() == max_chars + 3
            &&& preview_of(content, max_chars).subrange(0, max_chars as int) == content.subrange(
                0,
                max_chars as int,
            )
            &&& preview_of(content, max_chars).subrange(max_chars as int, max_chars as int + 3)
                == ellipsis()
        },
{
    if content.len() > max_chars {
        let p = preview_of(content, max_chars);
        assert(p.subrange(0, max_chars as int) =~= content.subrange(0, max_chars as int));
        assert(p.subrange(max_chars as int, max_chars as int + 3) =~= ellipsis());
    }
}

/// Every item of a listing shows a row of the history that the filter admits,
/// and is one that the search term keeps.
pub proof fn law_listing_items(
    h: HistoryView,
    filter: Filter,
    term: Option<Seq<char>>,
    limit: nat,
    offset: nat,
    k: int,
)
    requires
        0 <= k < listing(h.rows, h.key, filter, term, limit, offset).len(),
    ensures
        kept_by(listing(h.rows, h.key, filter, term, limit, offset)[k], term),
        exists|j: int|
            0 <= j < h.rows.len() && filter.admits(#[trigger] h.rows[j]) && listing(
                h.rows,
                h.key,
                filter,
                term,
                limit,
                offset,
            )[k] == listed(h.rows[j], h.key),
{
    let admits = |r: RowView| filter.admits(r);
    let keeps = |i: ItemView| kept_by(i, term);
    let sel = admitted(h.rows, filter);
    let window = page(sel, limit, offset);
    let items = shown(window, h.key);
    let out = searched(items, term);
    let item = out[k];
    items.lemma_filter_pred(keeps, k);
    assert(out.contains(item));
    items.lemma_filter_contains_rev(keeps, item);
    let a = choose|a: int| 0 <= a < items.len() && items[a] == item;
    assert(item == listed(window[a], h.key));
    let start = if offset < sel.len() { offset as int } else { sel.len() as int };
    assert(window[a] == sel[start + a]);
    h.rows.lemma_filter_pred(admits, start + a);
    assert(sel.contains(sel[start + a]));
    h.rows.lemma_filter_contains_rev(admits, sel[start + a]);
    let j = choose|j: int| 0 <= j < h.rows.len() && h.rows[j] == sel[start + a];
    assert(filter.admits(h.rows[j]));
}

/// A listing is in the order of the last copy, the latest first, whatever the
/// filter, the page and the search term.
pub proof fn law_listing_order(
    h: HistoryView,
    filter: Filter,
    term: Option<Seq<char>>,
    limit: nat,
    offset: nat,
)
    requires
        h.wf(),
    ensures
        forall|a: int, b: int|
            0 <= a < b < listing(h.rows, h.key, filter, term, limit, offset).len() ==> (
            #[trigger] listing(h.rows, h.key, filter, term, limit, offset)[a]).last_copied_at >= (
            #[trigger] listing(h.rows, h.key, filter, term, limit, offset)[b]).last_copied_at,
{
    let sel = admitted(h.rows, filter);
    let window = page(sel, limit, offset);
    let items = shown(window, h.key);
    lemma_filter_keeps_order(
        h.rows,
        |r: RowView| filter.admits(r),
        |x: RowView, y: RowView| x.last_copied_at >= y.last_copied_at,
    );
    let start = if offset < sel.len() { offset as int } else { sel.len() as int };
    assert forall|a: int, b: int| 0 <= a < b < items.len() implies (
    #[trigger] items[a]).last_copied_at >= (#[trigger] items[b]).last_copied_at by {
        assert(window[a] == sel[start + a]);
        assert(window[b] == sel[start + b]);
    }
    lemma_filter_keeps_order(
        items,
        |i: ItemView| kept_by(i, term),
        |x: ItemView, y: ItemView| x.last_copied_at >= y.last_copied_at,
    );
}

/// An item whose content is larger than the inline threshold is listed without its
/// content; an item up to the threshold is listed with the content that a fetch by
/// its id returns, and without content where that fetch fails.
pub proof fn law_externalization(
    h: HistoryView,
    filter: Filter,
    term: Option<Seq<char>>,
    limit: nat,
    offset: nat,
    k: int,
)
    requires
        h.wf(),
        0 <= k < listing(h.rows, h.key, filter, term, limit, offset).len(),
    ensures
        ({
            let item = listing(h.rows, h.key, filter, term, limit, offset)[k];
            &&& has_id(h.rows, item.id)
            &&& item.content_size_bytes > INLINE_CONTENT_THRESHOLD_BYTES
                ==> item.content_value is None
            &&& item.content_size_bytes <= INLINE_CONTENT_THRESHOLD_BYTES ==> item.content_value
                == match h.get_item_content(item.id) {
                Ok(text) => Some(text),
                Err(_) => None,
            }
        }),
{
    law_listing_items(h, filter, term, limit, offset, k);
    let item = listing(h.rows, h.key, filter, term, limit, offset)[k];
    let j = choose|j: int|
        0 <= j < h.rows.len() && filter.admits(#[trigger] h.rows[j]) && item == listed(
            h.rows[j],
            h.key,
        );
    lemma_id_index(h.rows, item.id, j);
}

/// A listing under the word for pinned rows holds pinned items only.
pub proof fn law_pinned_listing(
    h: HistoryView,
    term: Option<Seq<char>>,
    limit: u32,
    offset: u32,
    k: int,
)
    requires
        0 <= k < h.get_items(pinned_word(), term, limit, offset).len(),
    ensures
        h.get_items(pinned_word(), term, limit, offset)[k].is_pinned,
{
    law_listing_items(h, Filter::Pinned, term, limit as nat, offset as nat, k);
}

/// A listing under the word of a kind holds items of that kind only.
pub proof fn law_kind_listing(
    h: HistoryView,
    kind: ContentType,
    term: Option<Seq<char>>,
    limit: u32,
    offset: u32,
    k: int,
)
    requires
        0 <= k < h.get_items(kind.name(), term, limit, offset).len(),
    ensures
        h.get_items(kind.name(), term, limit, offset)[k].content_type == kind,
{
    kind.lemma_parse_name();
    assert(kind.name().len() != pinned_word().len());
    assert(Filter::parse(kind.name()) == Filter::Kind(kind));
    law_listing_items(h, Filter::Kind(kind), term, limit as nat, offset as nat, k);
}

/// A word that names neither the pinned rows nor a kind asks for every row, and a
/// listing without a search term then shows the page of all rows.
pub proof fn law_unknown_filter(
    h: HistoryView,
    word: Seq<char>,
    limit: u32,
    offset: u32,
)
    requires
        word != pinned_word(),
        ContentType::parse(word) is None,
    ensures
        Filter::parse(word) == Filter::All,
        h.get_items(word, None, limit, offset) == shown(
            page(h.rows, limit as nat, offset as nat),
            h.key,
        ),
{
    lemma_filter_all(h.rows, |r: RowView| Filter::All.admits(r));
    let items = shown(page(h.rows, limit as nat, offset as nat), h.key);
    lemma_filter_all(items, |i: ItemView| kept_by(i, None));
}

/// A predicate that holds of every entry keeps the whole sequence.
proof fn lemma_filter_all<A>(s: Seq<A>, pred: spec_fn(A) -> bool)
    requires
        forall|i: int| 0 <= i < s.len() ==> pred(#[trigger] s[i]),
    ensures
        s.filter(pred) == s,
    decreases s.len(),
{
    reveal(Seq::filter);
    if s.len() > 0 {
        let front = s.drop_last();
        assert forall|i: int| 0 <= i < front.len() implies pred(#[trigger] front[i]) by {
            assert(front[i] == s[i]);
        }
        lemma_filter_all(front, pred);
        assert(front.push(s.last()) =~= s);
    } else {
        assert(s.filter(pred) =~= s);
    }
}

} // verus!
