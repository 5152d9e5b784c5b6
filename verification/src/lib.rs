//! An encrypted clipboard history: successive captures are kept once per
//! content identity, most recent first, with sealed payloads and previews.

pub mod clock;
pub mod codec;
pub mod entropy;
pub mod error;
pub mod hex;
pub mod laws;
pub mod lifecycle;
pub mod listing;
pub mod manager;
pub mod table;
pub mod text;
pub mod types;

pub use error::AppError;
pub use lifecycle::{init, InitOutcome};
pub use manager::ClipboardHistoryManager;
pub use types::{
    ClipboardItem, ContentType, RowColumns, StoredRow, INLINE_CONTENT_THRESHOLD_BYTES,
    PREVIEW_LENGTH_CHARS,
};
