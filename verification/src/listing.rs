//! What a listing shows: which rows a filter admits, how a row is shown, and
//! which shown items a search term keeps.

use vstd::prelude::*;
use vstd::string::*;

use crate::codec::{decrypt, decrypted};
use crate::table::page;
use crate::text::{contains_ignoring_case, lowercase_of, occurs_in, str_eq, to_lowercase};
use crate::types::{
    copy_text, text_of, ClipboardItem, ContentType, ItemView, RowView, StoredRow,
    INLINE_CONTENT_THRESHOLD_BYTES,
};

verus! {

/// The rows that a listing is drawn from.
#[derive(Clone, Copy, Debug, PartialEq, Eq, Structural)]
pub enum Filter {
    /// Every row.
    All,
    /// The pinned rows.
    Pinned,
    /// The rows of one kind.
    Kind(ContentType),
}

/// The word that asks for the pinned rows.
pub open spec fn pinned_word() -> Seq<char> {
    seq!['p', 'i', 'n', 'n', 'e', 'd']
}

impl Filter {
    /// The filter that `word` asks for: the pinned rows, the rows of the kind that
    /// the word names, or, for any other word, every row.
    pub open spec fn parse(word: Seq<char>) -> Filter {
        if word == pinned_word() {
            Filter::Pinned
        } else {
            match ContentType::parse(word) {
                Some(kind) => Filter::Kind(kind),
                None => Filter::All,
            }
        }
    }

    /// Whether the filter lets `row` into a listing.
    pub open spec fn admits(self, row: RowView) -> bool {
        match self {
            Filter::All => true,
            Filter::Pinned => row.is_pinned,
            Filter::Kind(kind) => row.content_type == kind,
        }
    }

    /// Reads a filter from the word that a caller gives; an unknown word asks for
    /// every row.
    pub fn from_str(word: &str) -> (filter: Filter)
        ensures
            filter == Filter::parse(word@),
    {
        proof {
            reveal_strlit("pinned");
            assert("pinned"@ =~= pinned_word());
        }
        if str_eq(word, "pinned") {
            Filter::Pinned
        } else {
            match ContentType::from_str(word) {
                Some(kind) => Filter::Kind(kind),
                None => Filter::All,
            }
        }
    }

    /// Tells whether the filter lets `row` into a listing.
    pub fn lets_in(&self, row: &StoredRow) -> (yes: bool)
        ensures
            yes == self.admits(row@),
    {
        match self {
            Filter::All => true,
            Filter::Pinned => row.is_pinned,
            Filter::Kind(kind) => row.content_type == *kind,
        }
    }
}

/// The clear text of an optional token under `key`; absent where the token is
/// absent or does not decrypt.
pub open spec fn revealed(token: Option<Seq<char>>, key: Seq<u8>) -> Option<Seq<char>> {
    match token {
        Some(t) => decrypted(t, key),
        None => None,
    }
}

/// Whether a row's full content is listed with it.
pub open spec fn is_inline(row: RowView) -> bool {
    row.content_size_bytes <= INLINE_CONTENT_THRESHOLD_BYTES
}

/// How a listing shows `row` under `key`: the content only where it is small enough
/// to go inline, content and preview each absent where it does not decrypt.
pub open spec fn listed(row: RowView, key: Seq<u8>) -> ItemView {
    ItemView {
        id: row.id,
        hash: row.hash,
        content_type: row.content_type,
        content_value: if is_inline(row) {
            decrypted(row.encrypted_content, key)
        } else {
            None
        },
        preview: revealed(row.encrypted_preview, key),
        content_size_bytes: row.content_size_bytes,
        source_app_name: row.source_app_name,
        first_copied_at: row.first_copied_at,
        last_copied_at: row.last_copied_at,
        times_copied: row.times_copied,
        is_pinned: row.is_pinned,
    }
}

/// Whether a search for `lower_term` keeps `item`: the term is looked for in the
/// lower-case preview where there is a preview, else in the lower-case content
/// where there is content; an item with neither is dropped.
pub open spec fn found_by(item: ItemView, lower_term: Seq<char>) -> bool {
    match item.preview {
        Some(p) => occurs_in(lower_term, lowercase_of(p)),
        None => match item.content_value {
            Some(c) => occurs_in(lower_term, lowercase_of(c)),
            None => false,
        },
    }
}

/// Whether a search term narrows a listing at all.
pub open spec fn is_searching(term: Option<Seq<char>>) -> bool {
    term matches Some(t) && t.len() > 0
}

/// Whether `item` stays in a listing under `term`.
pub open spec fn kept_by(item: ItemView, term: Option<Seq<char>>) -> bool {
    match term {
        Some(t) => t.len() == 0 || found_by(item, lowercase_of(t)),
        None => true,
    }
}

/// The items of one page that a search term keeps.
pub open spec fn searched(items: Seq<ItemView>, term: Option<Seq<char>>) -> Seq<ItemView> {
    items.filter(|i: ItemView| kept_by(i, term))
}

/// The rows that `filter` admits, in their order.
pub open spec fn admitted(rows: Seq<RowView>, filter: Filter) -> Seq<RowView> {
    rows.filter(|r: RowView| filter.admits(r))
}

/// Each of `rows` as a listing shows it under `key`.
pub open spec fn shown(rows: Seq<RowView>, key: Seq<u8>) -> Seq<ItemView> {
    rows.map_values(|r: RowView| listed(r, key))
}

/// A listing of `rows`: the rows that the filter admits, the page of them that
/// `limit` and `offset` cut out, each shown under `key`, and of these the ones
/// that the search term keeps. The search looks at the page only.
pub open spec fn listing(
    rows: Seq<RowView>,
    key: Seq<u8>,
    filter: Filter,
    term: Option<Seq<char>>,
    limit: nat,
    offset: nat,
) -> Seq<ItemView> {
    searched(shown(page(admitted(rows, filter), limit, offset), key), term)
}

/// The admitted rows of a table grown by one row at its end.
pub proof fn lemma_admitted_push(rows: Seq<RowView>, row: RowView, filter: Filter)
    ensures
        admitted(rows.push(row), filter) == if filter.admits(row) {
            admitted(rows, filter).push(row)
        } else {
            admitted(rows, filter)
        },
{
    rows.lemma_filter_push(row, |r: RowView| filter.admits(r));
}

/// A listing of a table grown by one row at its end: the row is added where the
/// filter admits it, its rank among the admitted rows falls into the page, and the
/// search keeps it; otherwise the listing stays as it was.
pub proof fn lemma_listing_push(
    rows: Seq<RowView>,
    row: RowView,
    key: Seq<u8>,
    filter: Filter,
    term: Option<Seq<char>>,
    limit: nat,
    offset: nat,
)
    ensures
        listing(rows.push(row), key, filter, term, limit, offset) == ({
            let rank = admitted(rows, filter).len();
            let before = listing(rows, key, filter, term, limit, offset);
            if filter.admits(row) && offset <= rank < offset + limit && kept_by(
                listed(row, key),
                term,
            ) {
                before.push(listed(row, key))
            } else {
                before
            }
        }),
{
    let old_sel = admitted(rows, filter);
    let new_sel = admitted(rows.push(row), filter);
    lemma_admitted_push(rows, row, filter);
    let rank = old_sel.len();
    let old_page = page(old_sel, limit, offset);
    let new_page = page(new_sel, limit, offset);
    if filter.admits(row) && offset <= rank < offset + limit {
        assert(new_page =~= old_page.push(row));
        assert(shown(new_page, key) =~= shown(old_page, key).push(listed(row, key)));
        shown(old_page, key).lemma_filter_push(
            listed(row, key),
            |i: ItemView| kept_by(i, term),
        );
    } else {
        assert(new_page =~= old_page);
    }
}

/// Shows `row` as a listing does: decrypts the preview, and the content where its
/// size lets it go inline; a field that does not decrypt is left absent.
pub fn row_to_clipboard_item(row: &StoredRow, key: &[u8; 32]) -> (item: ClipboardItem)
    ensures
        item@ == listed(row@, key@),
{
    let content_value = if row.content_size_bytes <= INLINE_CONTENT_THRESHOLD_BYTES {
        match decrypt(row.encrypted_content.as_str(), key) {
            Ok(text) => Some(text),
            Err(_) => None,
        }
    } else {
        None
    };
    let preview = match &row.encrypted_preview {
        Some(token) => match decrypt(token.as_str(), key) {
            Ok(text) => Some(text),
            Err(_) => None,
        },
        None => None,
    };
    ClipboardItem {
        id: row.id,
        hash: row.hash.clone(),
        content_type: row.content_type,
        content_value,
        preview,
        content_size_bytes: row.content_size_bytes,
        source_app_name: copy_text(&row.source_app_name),
        first_copied_at: row.first_copied_at,
        last_copied_at: row.last_copied_at,
        times_copied: row.times_copied,
        is_pinned: row.is_pinned,
    }
}

/// Tells whether a search for the lower-case term keeps `item`.
pub fn matches_search(item: &ClipboardItem, lower_term: &str) -> (yes: bool)
    ensures
        yes == found_by(item@, lower_term@),
{
    match &item.preview {
        Some(preview) => contains_ignoring_case(preview.as_str(), lower_term),
        None => match &item.content_value {
            Some(value) => contains_ignoring_case(value.as_str(), lower_term),
            None => false,
        },
    }
}

/// The lower-case form of a search term that narrows a listing; `None` where no
/// term was given or the term is empty.
pub fn active_term(term: &Option<String>) -> (lower: Option<String>)
    ensures
        lower is Some <==> is_searching(text_of(*term)),
        lower matches Some(l) ==> term matches Some(t) && l@ == lowercase_of(t@),
{
    match term {
        Some(t) => {
            if t.as_str().unicode_len() == 0 {
                None
            } else {
                Some(to_lowercase(t.as_str()))
            }
        },
        None => None,
    }
}

} // verus!
