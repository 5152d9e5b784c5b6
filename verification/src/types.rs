//! The rows that the history keeps and the items that it hands out.

use vstd::prelude::*;
use vstd::string::*;

use crate::error::AppError;
use crate::text::str_eq;

verus! {

/// An item's full content is listed with it only up to this many bytes.
pub const INLINE_CONTENT_THRESHOLD_BYTES: u64 = 10_000;

/// A preview holds at most this many Unicode scalar values of the content.
pub const PREVIEW_LENGTH_CHARS: usize = 500;

/// The kind of a clipboard capture.
#[derive(Clone, Copy, Debug, PartialEq, Eq, Hash, Structural)]
pub enum ContentType {
    Text,
    Image,
    Link,
    Color,
}

impl ContentType {
    /// The word under which the kind is stored and by which listings are filtered.
    pub open spec fn name(self) -> Seq<char> {
        match self {
            ContentType::Text => seq!['t', 'e', 'x', 't'],
            ContentType::Image => seq!['i', 'm', 'a', 'g', 'e'],
            ContentType::Link => seq!['l', 'i', 'n', 'k'],
            ContentType::Color => seq!['c', 'o', 'l', 'o', 'r'],
        }
    }

    /// The kind that `word` names, if any.
    pub open spec fn parse(word: Seq<char>) -> Option<ContentType> {
        if word == ContentType::Text.name() {
            Some(ContentType::Text)
        } else if word == ContentType::Image.name() {
            Some(ContentType::Image)
        } else if word == ContentType::Link.name() {
            Some(ContentType::Link)
        } else if word == ContentType::Color.name() {
            Some(ContentType::Color)
        } else {
            None
        }
    }

    /// Every kind is read back from its own word.
    pub proof fn lemma_parse_name(self)
        ensures
            ContentType::parse(self.name()) == Some(self),
    {
        assert(ContentType::Text.name().len() == 4);
        assert(ContentType::Image.name().len() == 5);
        assert(ContentType::Link.name().len() == 4);
        assert(ContentType::Color.name().len() == 5);
        assert(ContentType::Text.name()[0] == 't');
        assert(ContentType::Link.name()[0] == 'l');
        assert(ContentType::Image.name()[0] == 'i');
        assert(ContentType::Color.name()[0] == 'c');
    }

    /// The word under which the kind is stored.
    pub fn as_str(&self) -> (word: &'static str)
        ensures
            word@ == self.name(),
    {
        proof {
            reveal_strlit("text");
            reveal_strlit("image");
            reveal_strlit("link");
            reveal_strlit("color");
        }
        match self {
            ContentType::Text => {
                assert("text"@ =~= ContentType::Text.name());
                "text"
            },
            ContentType::Image => {
                assert("image"@ =~= ContentType::Image.name());
                "image"
            },
            ContentType::Link => {
                assert("link"@ =~= ContentType::Link.name());
                "link"
            },
            ContentType::Color => {
                assert("color"@ =~= ContentType::Color.name());
                "color"
            },
        }
    }

    /// Reads a kind from its word; `None` for any other text.
    pub fn from_str(word: &str) -> (kind: Option<ContentType>)
        ensures
            kind == ContentType::parse(word@),
    {
        if str_eq(word, ContentType::Text.as_str()) {
            Some(ContentType::Text)
        } else if str_eq(word, ContentType::Image.as_str()) {
            Some(ContentType::Image)
        } else if str_eq(word, ContentType::Link.as_str()) {
            Some(ContentType::Link)
        } else if str_eq(word, ContentType::Color.as_str()) {
            Some(ContentType::Color)
        } else {
            None
        }
    }
}

/// The text that an optional string holds.
pub open spec fn text_of(s: Option<String>) -> Option<Seq<char>> {
    match s {
        Some(t) => Some(t@),
        None => None,
    }
}

/// Copies an optional string.
pub fn copy_text(s: &Option<String>) -> (copy: Option<String>)
    ensures
        text_of(copy) == text_of(*s),
{
    match s {
        Some(t) => Some(t.clone()),
        None => None,
    }
}

/// A row as it is kept: payload and preview sealed, times in nanoseconds since
/// the Unix epoch.
#[derive(Debug)]
pub struct StoredRow {
    pub id: i64,
    pub hash: String,
    pub content_type: ContentType,
    pub encrypted_content: String,
    pub encrypted_preview: Option<String>,
    pub content_size_bytes: u64,
    pub source_app_name: Option<String>,
    pub first_copied_at: i64,
    pub last_copied_at: i64,
    pub times_copied: u64,
    pub is_pinned: bool,
}

/// What a stored row holds, as plain values.
pub ghost struct RowView {
    pub id: i64,
    pub hash: Seq<char>,
    pub content_type: ContentType,
    pub encrypted_content: Seq<char>,
    pub encrypted_preview: Option<Seq<char>>,
    pub content_size_bytes: u64,
    pub source_app_name: Option<Seq<char>>,
    pub first_copied_at: i64,
    pub last_copied_at: i64,
    pub times_copied: u64,
    pub is_pinned: bool,
}

impl View for StoredRow {
    type V = RowView;

    open spec fn view(&self) -> RowView {
        RowView {
            id: self.id,
            hash: self.hash@,
            content_type: self.content_type,
            encrypted_content: self.encrypted_content@,
            encrypted_preview: text_of(self.encrypted_preview),
            content_size_bytes: self.content_size_bytes,
            source_app_name: text_of(self.source_app_name),
            first_copied_at: self.first_copied_at,
            last_copied_at: self.last_copied_at,
            times_copied: self.times_copied,
            is_pinned: self.is_pinned,
        }
    }
}

impl Clone for StoredRow {
    fn clone(&self) -> (copy: Self)
        ensures
            copy@ == self@,
    {
        StoredRow {
            id: self.id,
            hash: self.hash.clone(),
            content_type: self.content_type,
            encrypted_content: self.encrypted_content.clone(),
            encrypted_preview: copy_text(&self.encrypted_preview),
            content_size_bytes: self.content_size_bytes,
            source_app_name: copy_text(&self.source_app_name),
            first_copied_at: self.first_copied_at,
            last_copied_at: self.last_copied_at,
            times_copied: self.times_copied,
            is_pinned: self.is_pinned,
        }
    }
}

/// A row as the table's columns hold it: the kind as its word, counters and flags
/// as signed integers.
#[derive(Debug)]
pub struct RowColumns {
    pub id: i64,
    pub hash: String,
    pub content_type: String,
    pub encrypted_content: String,
    pub encrypted_preview: Option<String>,
    pub content_size_bytes: i64,
    pub source_app_name: Option<String>,
    pub first_copied_at: i64,
    pub last_copied_at: i64,
    pub times_copied: i64,
    pub is_pinned: i64,
}

/// What a row's columns hold, as plain values.
pub ghost struct ColumnsView {
    pub id: i64,
    pub hash: Seq<char>,
    pub content_type: Seq<char>,
    pub encrypted_content: Seq<char>,
    pub encrypted_preview: Option<Seq<char>>,
    pub content_size_bytes: i64,
    pub source_app_name: Option<Seq<char>>,
    pub first_copied_at: i64,
    pub last_copied_at: i64,
    pub times_copied: i64,
    pub is_pinned: i64,
}

impl View for RowColumns {
    type V = ColumnsView;

    open spec fn view(&self) -> ColumnsView {
        ColumnsView {
            id: self.id,
            hash: self.hash@,
            content_type: self.content_type@,
            encrypted_content: self.encrypted_content@,
            encrypted_preview: text_of(self.encrypted_preview),
            content_size_bytes: self.content_size_bytes,
            source_app_name: text_of(self.source_app_name),
            first_copied_at: self.first_copied_at,
            last_copied_at: self.last_copied_at,
            times_copied: self.times_copied,
            is_pinned: self.is_pinned,
        }
    }
}

impl ColumnsView {
    /// Whether the columns hold a row: a size that is not negative and a counter of
    /// at least one.
    pub open spec fn readable(self) -> bool {
        self.content_size_bytes >= 0 && self.times_copied >= 1
    }

    /// The row that the columns hold: a word that names no kind stands for text,
    /// and a row is pinned exactly where its flag is one.
    pub open spec fn row(self) -> RowView {
        RowView {
            id: self.id,
            hash: self.hash,
            content_type: match ContentType::parse(self.content_type) {
                Some(kind) => kind,
                None => ContentType::Text,
            },
            encrypted_content: self.encrypted_content,
            encrypted_preview: self.encrypted_preview,
            content_size_bytes: self.content_size_bytes as u64,
            source_app_name: self.source_app_name,
            first_copied_at: self.first_copied_at,
            last_copied_at: self.last_copied_at,
            times_copied: self.times_copied as u64,
            is_pinned: self.is_pinned == 1,
        }
    }
}

impl RowView {
    /// The columns that hold the row; a size or a counter too large for a column is
    /// held as the largest value of the column.
    pub open spec fn columns(self) -> ColumnsView {
        ColumnsView {
            id: self.id,
            hash: self.hash,
            content_type: self.content_type.name(),
            encrypted_content: self.encrypted_content,
            encrypted_preview: self.encrypted_preview,
            content_size_bytes: if self.content_size_bytes <= i64::MAX {
                self.content_size_bytes as i64
            } else {
                i64::MAX
            },
            source_app_name: self.source_app_name,
            first_copied_at: self.first_copied_at,
            last_copied_at: self.last_copied_at,
            times_copied: if self.times_copied <= i64::MAX {
                self.times_copied as i64
            } else {
                i64::MAX
            },
            is_pinned: if self.is_pinned {
                1
            } else {
                0
            },
        }
    }

    /// A row that was copied at least once is read back from its columns, as long as
    /// its size and its counter fit into them.
    pub proof fn lemma_columns_round_trip(self)
        requires
            self.times_copied >= 1,
            self.content_size_bytes <= i64::MAX,
            self.times_copied <= i64::MAX,
        ensures
            self.columns().readable(),
            self.columns().row() == self,
    {
        self.content_type.lemma_parse_name();
    }
}

impl StoredRow {
    /// Reads a row from its columns. Columns with a negative size or a counter
    /// below one hold no row.
    pub fn from_columns(columns: RowColumns) -> (row: Result<StoredRow, AppError>)
        ensures
            match row {
                Ok(r) => columns@.readable() && r@ == columns@.row(),
                Err(e) => !columns@.readable() && e == AppError::InvalidRows,
            },
    {
        if columns.content_size_bytes < 0 || columns.times_copied < 1 {
            return Err(AppError::InvalidRows);
        }
        let content_type = match ContentType::from_str(columns.content_type.as_str()) {
            Some(kind) => kind,
            None => ContentType::Text,
        };
        Ok(
            StoredRow {
                id: columns.id,
                hash: columns.hash,
                content_type,
                encrypted_content: columns.encrypted_content,
                encrypted_preview: columns.encrypted_preview,
                content_size_bytes: columns.content_size_bytes as u64,
                source_app_name: columns.source_app_name,
                first_copied_at: columns.first_copied_at,
                last_copied_at: columns.last_copied_at,
                times_copied: columns.times_copied as u64,
                is_pinned: columns.is_pinned == 1,
            },
        )
    }

    /// The columns that hold the row.
    pub fn to_columns(&self) -> (columns: RowColumns)
        ensures
            columns@ == self@.columns(),
    {
        RowColumns {
            id: self.id,
            hash: self.hash.clone(),
            content_type: self.content_type.as_str().to_owned(),
            encrypted_content: self.encrypted_content.clone(),
            encrypted_preview: copy_text(&self.encrypted_preview),
            content_size_bytes: if self.content_size_bytes <= i64::MAX as u64 {
                self.content_size_bytes as i64
            } else {
                i64::MAX
            },
            source_app_name: copy_text(&self.source_app_name),
            first_copied_at: self.first_copied_at,
            last_copied_at: self.last_copied_at,
            times_copied: if self.times_copied <= i64::MAX as u64 {
                self.times_copied as i64
            } else {
                i64::MAX
            },
            is_pinned: if self.is_pinned {
                1
            } else {
                0
            },
        }
    }
}

/// An item as a listing hands it out: payload and preview in clear, each absent
/// where it was withheld or could not be decrypted.
#[derive(Debug)]
pub struct ClipboardItem {
    pub id: i64,
    pub hash: String,
    pub content_type: ContentType,
    pub content_value: Option<String>,
    pub preview: Option<String>,
    pub content_size_bytes: u64,
    pub source_app_name: Option<String>,
    pub first_copied_at: i64,
    pub last_copied_at: i64,
    pub times_copied: u64,
    pub is_pinned: bool,
}

/// What a listed item holds, as plain values.
pub ghost struct ItemView {
    pub id: i64,
    pub hash: Seq<char>,
    pub content_type: ContentType,
    pub content_value: Option<Seq<char>>,
    pub preview: Option<Seq<char>>,
    pub content_size_bytes: u64,
    pub source_app_name: Option<Seq<char>>,
    pub first_copied_at: i64,
    pub last_copied_at: i64,
    pub times_copied: u64,
    pub is_pinned: bool,
}

impl View for ClipboardItem {
    type V = ItemView;

    open spec fn view(&self) -> ItemView {
        ItemView {
            id: self.id,
            hash: self.hash@,
            content_type: self.content_type,
            content_value: text_of(self.content_value),
            preview: text_of(self.preview),
            content_size_bytes: self.content_size_bytes,
            source_app_name: text_of(self.source_app_name),
            first_copied_at: self.first_copied_at,
            last_copied_at: self.last_copied_at,
            times_copied: self.times_copied,
            is_pinned: self.is_pinned,
        }
    }
}

impl Clone for ClipboardItem {
    fn clone(&self) -> (copy: Self)
        ensures
            copy@ == self@,
    {
        ClipboardItem {
            id: self.id,
            hash: self.hash.clone(),
            content_type: self.content_type,
            content_value: copy_text(&self.content_value),
            preview: copy_text(&self.preview),
            content_size_bytes: self.content_size_bytes,
            source_app_name: copy_text(&self.source_app_name),
            first_copied_at: self.first_copied_at,
            last_copied_at: self.last_copied_at,
            times_copied: self.times_copied,
            is_pinned: self.is_pinned,
        }
    }
}

/// The rows of a vector, each as plain values.
pub open spec fn row_views(rows: Seq<StoredRow>) -> Seq<RowView> {
    rows.map_values(|r: StoredRow| r@)
}

/// The items of a vector, each as plain values.
pub open spec fn item_views(items: Seq<ClipboardItem>) -> Seq<ItemView> {
    items.map_values(|i: ClipboardItem| i@)
}

} // verus!
