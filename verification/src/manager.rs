//! The history engine: one table of rows, most recent first, one row for each
//! content identity.

use vstd::prelude::*;
use vstd::string::*;
use vstd::utf8::*;

use crate::clock::now_nanos;
use crate::codec::{can_seal, decrypt, decrypted, encrypt_with_nonce, sealed_token, NONCE_LEN};
use crate::entropy::{number_from, random_bytes};
use crate::error::AppError;
use crate::listing::{
    active_term, admitted, is_searching, kept_by, lemma_admitted_push, lemma_listing_push, listed,
    listing, matches_search, row_to_clipboard_item, Filter,
};
use crate::table::{
    bump, bumped, copied_again, find_hash, find_id, flipped, has_hash, has_id, hash_index,
    id_index, lemma_bumped_found, lemma_bumped_valid, lemma_filter_valid, lemma_flipped_valid,
    lemma_placed_found, lemma_placed_valid, lemma_remove_valid, pinned_rows, place, placed,
    rows_are_valid, touched, valid_rows,
};
use crate::text::{decimal, lowercase_of, make_preview, preview_of, push_decimal};
use crate::types::{
    item_views, row_views, text_of, ClipboardItem, ContentType, ItemView, RowView, StoredRow,
    INLINE_CONTENT_THRESHOLD_BYTES, PREVIEW_LENGTH_CHARS,
};

verus! {

/// What a history holds, as plain values.
pub ghost struct HistoryView {
    /// The rows, most recent first.
    pub rows: Seq<RowView>,
    /// The largest id handed out so far.
    pub last_id: i64,
    /// The key under which payloads and previews are sealed.
    pub key: Seq<u8>,
    /// The directory kept for image payloads.
    pub image_dir: Seq<char>,
}

/// The name of the image directory of a history made for a test, from the number
/// drawn for it.
pub open spec fn test_dir_name(n: nat) -> Seq<char> {
    seq!['r', 'a', 'y', 'c', 'a', 's', 't', '_', 't', 'e', 's', 't', '_'] + decimal(n)
}

impl HistoryView {
    /// The rules that every history keeps: ids and identities are distinct, rows
    /// stand most recent first, every row was copied at least once, was not last
    /// copied before it was first copied, and has an id that was handed out.
    pub open spec fn wf(self) -> bool {
        &&& valid_rows(self.rows, self.last_id)
        &&& self.key.len() == 32
    }

    /// A history without rows.
    pub open spec fn empty(key: Seq<u8>, image_dir: Seq<char>) -> HistoryView {
        HistoryView { rows: Seq::empty(), last_id: 0, key, image_dir }
    }

    /// The history made for a test from the number `n`: no rows, the key of zeros,
    /// an image directory named after `n`.
    pub open spec fn for_test(n: nat) -> HistoryView {
        HistoryView::empty(Seq::new(32, |i: int| 0u8), test_dir_name(n))
    }

    /// The row that a first copy creates.
    pub open spec fn fresh_row(
        self,
        hash: Seq<char>,
        content_type: ContentType,
        content: Seq<char>,
        source_app_name: Option<Seq<char>>,
        now: i64,
        preview_nonce: Seq<u8>,
        content_nonce: Seq<u8>,
    ) -> RowView {
        RowView {
            id: (self.last_id + 1) as i64,
            hash,
            content_type,
            encrypted_content: sealed_token(content, self.key, content_nonce),
            encrypted_preview: Some(
                sealed_token(
                    preview_of(content, PREVIEW_LENGTH_CHARS as nat),
                    self.key,
                    preview_nonce,
                ),
            ),
            content_size_bytes: encode_utf8(content).len() as u64,
            source_app_name,
            first_copied_at: now,
            last_copied_at: now,
            times_copied: 1,
            is_pinned: false,
        }
    }

    /// The history after a copy of the content with the identity `hash` at `now`, and
    /// whether the copy was recorded. A known identity has its row copied once
    /// more and moved to its new place; its last copy becomes `now` unless it is
    /// later already, and content, preview and pin stay. A new
    /// identity gets a row of its own, unless its preview or content cannot be
    /// sealed or no id is left.
    pub open spec fn add_item(
        self,
        hash: Seq<char>,
        content_type: ContentType,
        content: Seq<char>,
        source_app_name: Option<Seq<char>>,
        now: i64,
        preview_nonce: Seq<u8>,
        content_nonce: Seq<u8>,
    ) -> (HistoryView, Result<(), AppError>) {
        if has_hash(self.rows, hash) {
            (
                HistoryView { rows: bumped(self.rows, hash_index(self.rows, hash), now), ..self },
                Ok(()),
            )
        } else if !can_seal(preview_of(content, PREVIEW_LENGTH_CHARS as nat)) || !can_seal(
            content,
        ) {
            (self, Err(AppError::Encryption))
        } else if self.last_id == i64::MAX {
            (self, Err(AppError::IdsExhausted))
        } else {
            (
                HistoryView {
                    rows: placed(
                        self.rows,
                        self.fresh_row(
                            hash,
                            content_type,
                            content,
                            source_app_name,
                            now,
                            preview_nonce,
                            content_nonce,
                        ),
                    ),
                    last_id: (self.last_id + 1) as i64,
                    ..self
                },
                Ok(()),
            )
        }
    }

    /// The history after the row with the id `id` was copied once more at `now`: its
    /// counter goes up and its last copy becomes `now` unless it is later already.
    pub open spec fn item_was_copied(self, id: i64, now: i64) -> HistoryView {
        if has_id(self.rows, id) {
            HistoryView { rows: bumped(self.rows, id_index(self.rows, id), now), ..self }
        } else {
            self
        }
    }

    /// The history without the row with the id `id`.
    pub open spec fn delete_item(self, id: i64) -> HistoryView {
        if has_id(self.rows, id) {
            HistoryView { rows: self.rows.remove(id_index(self.rows, id)), ..self }
        } else {
            self
        }
    }

    /// The history after the pin of the row with the id `id` was flipped.
    pub open spec fn toggle_pin(self, id: i64) -> HistoryView {
        if has_id(self.rows, id) {
            HistoryView { rows: flipped(self.rows, id_index(self.rows, id)), ..self }
        } else {
            self
        }
    }

    /// The history with its pinned rows only.
    pub open spec fn clear_all(self) -> HistoryView {
        HistoryView { rows: pinned_rows(self.rows), ..self }
    }

    /// How a listing shows the row with the id `id`.
    pub open spec fn item(self, id: i64) -> ItemView {
        listed(self.rows[id_index(self.rows, id)], self.key)
    }

    /// Whether the row with the id `id` holds `content`: the content is what a fetch
    /// by the id returns, a listing shows its preview, and shows the content itself
    /// exactly where its size in bytes is within the inline threshold.
    pub open spec fn holds(self, id: i64, content: Seq<char>) -> bool {
        &&& has_id(self.rows, id)
        &&& self.get_item_content(id) == Ok::<Seq<char>, AppError>(content)
        &&& self.item(id).content_size_bytes == encode_utf8(content).len()
        &&& self.item(id).preview == Some(preview_of(content, PREVIEW_LENGTH_CHARS as nat))
        &&& self.item(id).content_value == if encode_utf8(content).len()
            <= INLINE_CONTENT_THRESHOLD_BYTES {
            Some(content)
        } else {
            None
        }
    }

    /// How many rows an operation on the row with the id `id` touches.
    pub open spec fn rows_with_id(self, id: i64) -> nat {
        if has_id(self.rows, id) {
            1
        } else {
            0
        }
    }

    /// What a listing returns.
    pub open spec fn get_items(
        self,
        filter: Seq<char>,
        search_term: Option<Seq<char>>,
        limit: u32,
        offset: u32,
    ) -> Seq<ItemView> {
        listing(self.rows, self.key, Filter::parse(filter), search_term, limit as nat, offset as nat)
    }

    /// The full content of the row `offset` places behind the most recent one:
    /// nothing where the table ends before it, and nothing where the content does
    /// not decrypt.
    pub open spec fn get_content_by_offset(self, offset: u32) -> Option<Seq<char>> {
        if offset < self.rows.len() {
            decrypted(self.rows[offset as int].encrypted_content, self.key)
        } else {
            None
        }
    }

    /// The row with the content identity `hash`, where there is one.
    pub open spec fn row_with_hash(self, hash: Seq<char>) -> RowView {
        self.rows[hash_index(self.rows, hash)]
    }

    /// The row with the id `id`, where there is one.
    pub open spec fn row_with_id(self, id: i64) -> RowView {
        self.rows[id_index(self.rows, id)]
    }

    /// The full content of the row with the id `id`: a failure where no row has the
    /// id or the content does not decrypt.
    pub open spec fn get_item_content(self, id: i64) -> Result<Seq<char>, AppError> {
        if has_id(self.rows, id) {
            match decrypted(self.rows[id_index(self.rows, id)].encrypted_content, self.key) {
                Some(text) => Ok(text),
                None => Err(AppError::Decryption),
            }
        } else {
            Err(AppError::NotFound)
        }
    }
}

/// The clipboard history.
pub struct ClipboardHistoryManager {
    rows: Vec<StoredRow>,
    last_id: i64,
    key: [u8; 32],
    image_dir: String,
}

impl View for ClipboardHistoryManager {
    type V = HistoryView;

    closed spec fn view(&self) -> HistoryView {
        HistoryView {
            rows: row_views(self.rows@),
            last_id: self.last_id,
            key: self.key@,
            image_dir: self.image_dir@,
        }
    }
}

impl ClipboardHistoryManager {
    #[verifier::type_invariant]
    spec fn inv(self) -> bool {
        self@.wf()
    }

    /// Takes the rows out, to be changed and put back.
    fn take_rows(&mut self) -> (rows: Vec<StoredRow>)
        ensures
            row_views(rows@) == old(self)@.rows,
            valid_rows(row_views(rows@), old(self)@.last_id),
            final(self)@ == (HistoryView { rows: Seq::empty(), ..old(self)@ }),
            final(self).last_id == old(self).last_id,
            final(self).key == old(self).key,
    {
        proof {
            use_type_invariant(&*self);
        }
        let mut rows: Vec<StoredRow> = Vec::new();
        assert(row_views(rows@) =~= Seq::empty());
        core::mem::swap(&mut self.rows, &mut rows);
        assert(row_views(self.rows@) =~= Seq::empty());
        rows
    }

    /// A history that holds `rows`, in their order, under `key`; `last_id` is the
    /// largest id handed out so far. It is refused where the rows break the rules
    /// of a table: two rows with one id or one identity, a row that stands before
    /// one copied later, a row never copied, a row last copied before it was first
    /// copied, an id beyond `last_id`.
    pub fn new(key: [u8; 32], image_dir: String, rows: Vec<StoredRow>, last_id: i64) -> (made:
        Result<Self, AppError>)
        ensures
            match made {
                Ok(m) => {
                    &&& valid_rows(row_views(rows@), last_id)
                    &&& m@ == (HistoryView {
                        rows: row_views(rows@),
                        last_id,
                        key: key@,
                        image_dir: image_dir@,
                    })
                    &&& m@.wf()
                },
                Err(e) => !valid_rows(row_views(rows@), last_id) && e == AppError::InvalidRows,
            },
    {
        if rows_are_valid(&rows, last_id) {
            Ok(ClipboardHistoryManager { rows, last_id, key, image_dir })
        } else {
            Err(AppError::InvalidRows)
        }
    }

    /// A history without rows under the key of zeros, with an image directory
    /// named after a number drawn for it.
    pub fn new_for_test() -> (made: Self)
        ensures
            exists|n: nat| n <= u32::MAX && made@ == #[trigger] HistoryView::for_test(n),
            made@.wf(),
    {
        let drawn: [u8; 4] = random_bytes();
        let n = number_from(&drawn);
        let mut image_dir = "raycast_test_".to_owned();
        proof {
            reveal_strlit("raycast_test_");
            assert("raycast_test_"@ =~= seq![
                'r',
                'a',
                'y',
                'c',
                'a',
                's',
                't',
                '_',
                't',
                'e',
                's',
                't',
                '_',
            ]);
        }
        push_decimal(&mut image_dir, n);
        let key: [u8; 32] = [0u8; 32];
        let rows: Vec<StoredRow> = Vec::new();
        assert(row_views(rows@) =~= Seq::empty());
        assert(key@ =~= Seq::new(32, |i: int| 0u8));
        let made = ClipboardHistoryManager { rows, last_id: 0, key, image_dir };
        assert(made@ == HistoryView::for_test(n as nat));
        made
    }

    /// Records a copy, at `now`, of the content with the identity `hash`. The two
    /// nonces seal the preview and the content of a row that the copy creates.
    pub fn add_item_at(
        &mut self,
        hash: String,
        content_type: ContentType,
        content_value: String,
        source_app_name: Option<String>,
        now: i64,
        preview_nonce: &[u8; 12],
        content_nonce: &[u8; 12],
    ) -> (done: Result<(), AppError>)
        ensures
            (final(self)@, done) == old(self)@.add_item(
                hash@,
                content_type,
                content_value@,
                text_of(source_app_name),
                now,
                preview_nonce@,
                content_nonce@,
            ),
            final(self)@.wf(),
            done is Ok && !has_hash(old(self)@.rows, hash@) ==> final(self)@.holds(
                (old(self)@.last_id + 1) as i64,
                content_value@,
            ),
            has_hash(old(self)@.rows, hash@) ==> {
                &&& done is Ok
                &&& final(self)@.rows.len() == old(self)@.rows.len()
                &&& has_hash(final(self)@.rows, hash@)
                &&& final(self)@.row_with_hash(hash@) == touched(
                    old(self)@.row_with_hash(hash@),
                    now,
                )
            },
    {
        proof {
            use_type_invariant(&*self);
        }
        let ghost before = self@;
        let mut rows = self.take_rows();
        match find_hash(&rows, hash.as_str()) {
            Some(i) => {
                proof {
                    lemma_bumped_valid(before.rows, i as int, now, before.last_id);
                    lemma_bumped_found(before.rows, i as int, now, before.last_id);
                }
                bump(&mut rows, i, now);
                self.rows = rows;
                Ok(())
            },
            None => {
                let size = content_value.as_str().as_bytes().len() as u64;
                let preview_text = make_preview(content_value.as_str(), PREVIEW_LENGTH_CHARS);
                let encrypted_preview = match encrypt_with_nonce(
                    preview_text.as_str(),
                    &self.key,
                    preview_nonce,
                ) {
                    Ok(token) => token,
                    Err(e) => {
                        self.rows = rows;
                        return Err(e);
                    },
                };
                let encrypted_content = match encrypt_with_nonce(
                    content_value.as_str(),
                    &self.key,
                    content_nonce,
                ) {
                    Ok(token) => token,
                    Err(e) => {
                        self.rows = rows;
                        return Err(e);
                    },
                };
                if self.last_id == i64::MAX {
                    self.rows = rows;
                    return Err(AppError::IdsExhausted);
                }
                let id = self.last_id + 1;
                let row = StoredRow {
                    id,
                    hash,
                    content_type,
                    encrypted_content,
                    encrypted_preview: Some(encrypted_preview),
                    content_size_bytes: size,
                    source_app_name,
                    first_copied_at: now,
                    last_copied_at: now,
                    times_copied: 1,
                    is_pinned: false,
                };
                proof {
                    assert(row@ == before.fresh_row(
                        hash@,
                        content_type,
                        content_value@,
                        text_of(source_app_name),
                        now,
                        preview_nonce@,
                        content_nonce@,
                    ));
                    assert(valid_rows(before.rows, id));
                    assert(!has_id(before.rows, id));
                    lemma_placed_valid(before.rows, row@, id);
                    lemma_placed_found(before.rows, row@);
                }
                place(&mut rows, row);
                self.last_id = id;
                self.rows = rows;
                Ok(())
            },
        }
    }

    /// Records a copy of the content with the identity `hash`, now. A known identity
    /// has its row copied once more; a new one gets a row of its own, with the
    /// content and its preview sealed under nonces drawn for them.
    pub fn add_item(
        &mut self,
        hash: String,
        content_type: ContentType,
        content_value: String,
        source_app_name: Option<String>,
    ) -> (done: Result<(), AppError>)
        ensures
            exists|now: i64, preview_nonce: Seq<u8>, content_nonce: Seq<u8>|
                preview_nonce.len() == NONCE_LEN && content_nonce.len() == NONCE_LEN && (
                    final(self)@,
                    done,
                ) == #[trigger] old(self)@.add_item(
                    hash@,
                    content_type,
                    content_value@,
                    text_of(source_app_name),
                    now,
                    preview_nonce,
                    content_nonce,
                ),
            final(self)@.wf(),
            done is Ok && !has_hash(old(self)@.rows, hash@) ==> final(self)@.holds(
                (old(self)@.last_id + 1) as i64,
                content_value@,
            ),
            has_hash(old(self)@.rows, hash@) ==> {
                &&& done is Ok
                &&& final(self)@.rows.len() == old(self)@.rows.len()
                &&& has_hash(final(self)@.rows, hash@)
                &&& copied_again(
                    old(self)@.row_with_hash(hash@),
                    final(self)@.row_with_hash(hash@),
                )
            },
    {
        proof {
            use_type_invariant(&*self);
            if has_hash(self@.rows, hash@) {
                let i = hash_index(self@.rows, hash@);
                assert forall|now: i64| copied_again(
                    self@.rows[i],
                    #[trigger] touched(self@.rows[i], now),
                ) by {}
            }
        }
        let now = now_nanos();
        let preview_nonce: [u8; 12] = random_bytes();
        let content_nonce: [u8; 12] = random_bytes();
        self.add_item_at(
            hash,
            content_type,
            content_value,
            source_app_name,
            now,
            &preview_nonce,
            &content_nonce,
        )
    }

    /// Lists items, most recent first: the rows that `filter` admits (`pinned`, or
    /// the word of a kind; any other word admits every row), of these the `limit`
    /// rows that start `offset` rows in, and of that page the items that the
    /// search term, if it is not empty, is found in.
    pub fn get_items(
        &self,
        filter: String,
        search_term: Option<String>,
        limit: u32,
        offset: u32,
    ) -> (items: Vec<ClipboardItem>)
        ensures
            item_views(items@) == self@.get_items(filter@, text_of(search_term), limit, offset),
            self@.wf(),
    {
        proof {
            use_type_invariant(self);
        }
        let kind = Filter::from_str(filter.as_str());
        let lower_term = active_term(&search_term);
        let ghost term = text_of(search_term);
        let ghost all = self@.rows;
        let first: u64 = offset as u64;
        let end: u64 = offset as u64 + limit as u64;
        let mut items: Vec<ClipboardItem> = Vec::new();
        let mut rank: u64 = 0;
        let mut i: usize = 0;
        proof {
            reveal(Seq::filter);
            assert(all.take(0) =~= Seq::empty());
            assert(admitted(all.take(0), kind) =~= Seq::empty());
            assert(listing(all.take(0), self@.key, kind, term, limit as nat, offset as nat)
                =~= Seq::empty());
            assert(item_views(items@) =~= Seq::empty());
        }
        while i < self.rows.len()
            invariant
                i <= self.rows@.len(),
                all == self@.rows,
                all.len() == self.rows@.len(),
                term == text_of(search_term),
                first == offset,
                end == offset + limit,
                lower_term is Some <==> is_searching(term),
                lower_term matches Some(l) ==> term matches Some(t) && l@ == lowercase_of(
                    t,
                ),
                rank == admitted(all.take(i as int), kind).len(),
                rank <= i,
                item_views(items@) == listing(
                    all.take(i as int),
                    self@.key,
                    kind,
                    term,
                    limit as nat,
                    offset as nat,
                ),
            decreases self.rows.len() - i,
        {
            let row = &self.rows[i];
            proof {
                assert(all.take(i + 1) =~= all.take(i as int).push(row@));
                lemma_admitted_push(all.take(i as int), row@, kind);
                lemma_listing_push(
                    all.take(i as int),
                    row@,
                    self@.key,
                    kind,
                    term,
                    limit as nat,
                    offset as nat,
                );
            }
            if kind.lets_in(row) {
                if first <= rank && rank < end {
                    let item = row_to_clipboard_item(row, &self.key);
                    let keep = match &lower_term {
                        Some(l) => matches_search(&item, l.as_str()),
                        None => true,
                    };
                    assert(keep == kept_by(item@, term));
                    if keep {
                        let ghost shown_before = item_views(items@);
                        let ghost shown_item = item@;
                        items.push(item);
                        assert(item_views(items@) =~= shown_before.push(shown_item));
                    }
                }
                rank = rank + 1;
            }
            i += 1;
        }
        assert(all.take(i as int) =~= all);
        items
    }

    /// The full content of the row `offset` places behind the most recent one. There
    /// is none where the table ends before that place, and none where the content
    /// does not decrypt: a row that cannot be read is no failure of the history.
    pub fn get_content_by_offset(&self, offset: u32) -> (content: Result<Option<String>, AppError>)
        ensures
            content matches Ok(found) && text_of(found) == self@.get_content_by_offset(offset),
    {
        let at = offset as usize;
        if at < self.rows.len() {
            match decrypt(self.rows[at].encrypted_content.as_str(), &self.key) {
                Ok(text) => Ok(Some(text)),
                Err(_) => Ok(None),
            }
        } else {
            Ok(None)
        }
    }

    /// The full content of the row with the id `id`.
    pub fn get_item_content(&self, id: i64) -> (content: Result<String, AppError>)
        ensures
            match content {
                Ok(text) => self@.get_item_content(id) == Ok::<Seq<char>, AppError>(text@),
                Err(e) => self@.get_item_content(id) == Err::<Seq<char>, AppError>(e),
            },
    {
        proof {
            use_type_invariant(self);
        }
        match find_id(&self.rows, id) {
            Some(i) => decrypt(self.rows[i].encrypted_content.as_str(), &self.key),
            None => Err(AppError::NotFound),
        }
    }

    /// Records one more copy, at `now`, of the row with the id `id`. Returns the
    /// number of rows that changed: one, or none where no row has that id.
    pub fn item_was_copied_at(&mut self, id: i64, now: i64) -> (changed: usize)
        ensures
            final(self)@ == old(self)@.item_was_copied(id, now),
            final(self)@.wf(),
            changed == old(self)@.rows_with_id(id),
            has_id(old(self)@.rows, id) ==> {
                &&& final(self)@.rows.len() == old(self)@.rows.len()
                &&& has_id(final(self)@.rows, id)
                &&& final(self)@.row_with_id(id) == touched(old(self)@.row_with_id(id), now)
            },
    {
        proof {
            use_type_invariant(&*self);
        }
        let ghost before = self@;
        let mut rows = self.take_rows();
        match find_id(&rows, id) {
            Some(i) => {
                proof {
                    lemma_bumped_valid(before.rows, i as int, now, before.last_id);
                    lemma_bumped_found(before.rows, i as int, now, before.last_id);
                }
                bump(&mut rows, i, now);
                self.rows = rows;
                1
            },
            None => {
                self.rows = rows;
                0
            },
        }
    }

    /// Records one more copy, now, of the row with the id `id`. Returns the number
    /// of rows that changed: one, or none where no row has that id.
    pub fn item_was_copied(&mut self, id: i64) -> (changed: usize)
        ensures
            exists|now: i64| final(self)@ == #[trigger] old(self)@.item_was_copied(id, now),
            final(self)@.wf(),
            changed == old(self)@.rows_with_id(id),
            has_id(old(self)@.rows, id) ==> {
                &&& final(self)@.rows.len() == old(self)@.rows.len()
                &&& has_id(final(self)@.rows, id)
                &&& copied_again(old(self)@.row_with_id(id), final(self)@.row_with_id(id))
            },
    {
        let now = now_nanos();
        self.item_was_copied_at(id, now)
    }

    /// Removes the row with the id `id`. Returns the number of rows removed: one,
    /// or none where no row has that id.
    pub fn delete_item(&mut self, id: i64) -> (removed: usize)
        ensures
            final(self)@ == old(self)@.delete_item(id),
            final(self)@.wf(),
            removed == old(self)@.rows_with_id(id),
    {
        proof {
            use_type_invariant(&*self);
        }
        let ghost before = self@;
        let mut rows = self.take_rows();
        match find_id(&rows, id) {
            Some(i) => {
                proof {
                    lemma_remove_valid(before.rows, i as int, before.last_id);
                }
                let _ = rows.remove(i);
                assert(row_views(rows@) =~= before.rows.remove(i as int));
                self.rows = rows;
                1
            },
            None => {
                self.rows = rows;
                0
            },
        }
    }

    /// Flips the pin of the row with the id `id`. Returns the number of rows that
    /// changed: one, or none where no row has that id.
    pub fn toggle_pin(&mut self, id: i64) -> (changed: usize)
        ensures
            final(self)@ == old(self)@.toggle_pin(id),
            final(self)@.wf(),
            changed == old(self)@.rows_with_id(id),
    {
        proof {
            use_type_invariant(&*self);
        }
        let ghost before = self@;
        let mut rows = self.take_rows();
        match find_id(&rows, id) {
            Some(i) => {
                proof {
                    lemma_flipped_valid(before.rows, i as int, before.last_id);
                }
                let mut row = rows.remove(i);
                row.is_pinned = !row.is_pinned;
                rows.insert(i, row);
                assert(row_views(rows@) =~= flipped(before.rows, i as int));
                self.rows = rows;
                1
            },
            None => {
                self.rows = rows;
                0
            },
        }
    }

    /// Removes every row that is not pinned. Returns the number of rows removed.
    pub fn clear_all(&mut self) -> (removed: usize)
        ensures
            final(self)@ == old(self)@.clear_all(),
            final(self)@.wf(),
            removed == old(self)@.rows.len() - pinned_rows(old(self)@.rows).len(),
    {
        proof {
            use_type_invariant(&*self);
        }
        let ghost before = self@;
        let rows = self.take_rows();
        let mut kept: Vec<StoredRow> = Vec::new();
        let mut i: usize = 0;
        proof {
            reveal(Seq::filter);
            assert(before.rows.take(0) =~= Seq::empty());
            assert(row_views(kept@) =~= pinned_rows(before.rows.take(0)));
        }
        while i < rows.len()
            invariant
                i <= rows@.len(),
                row_views(rows@) == before.rows,
                row_views(kept@) == pinned_rows(before.rows.take(i as int)),
                kept@.len() <= i,
            decreases rows.len() - i,
        {
            proof {
                assert(before.rows.take(i + 1) =~= before.rows.take(i as int).push(rows@[i as int]@));
                before.rows.take(i as int).lemma_filter_push(
                    rows@[i as int]@,
                    |r: RowView| r.is_pinned,
                );
            }
            if rows[i].is_pinned {
                let ghost shown_before = row_views(kept@);
                let row = rows[i].clone();
                kept.push(row);
                assert(row_views(kept@) =~= shown_before.push(row@));
            }
            i += 1;
        }
        proof {
            assert(before.rows.take(i as int) =~= before.rows);
            lemma_filter_valid(before.rows, |r: RowView| r.is_pinned, before.last_id);
        }
        let removed = rows.len() - kept.len();
        self.rows = kept;
        removed
    }

    /// The rows, most recent first, as they are kept.
    pub fn rows(&self) -> (rows: &Vec<StoredRow>)
        ensures
            row_views(rows@) == self@.rows,
            self@.wf(),
    {
        proof {
            use_type_invariant(self);
        }
        &self.rows
    }

    /// The number of rows.
    pub fn len(&self) -> (n: usize)
        ensures
            n == self@.rows.len(),
    {
        self.rows.len()
    }

    /// The largest id handed out so far.
    pub fn last_id(&self) -> (id: i64)
        ensures
            id == self@.last_id,
    {
        self.last_id
    }

    /// The directory kept for image payloads.
    pub fn image_dir(&self) -> (dir: &str)
        ensures
            dir@ == self@.image_dir,
    {
        self.image_dir.as_str()
    }
}

} // verus!
