//! Relays new entries of one syndication feed to a chat channel.
//!
//! The verified part holds the entry model, the field extractor, the
//! in-memory entry store with its watermark and idempotency rules, the
//! per-tick decisions of the poller, and the rendering of notifications.
pub mod text;

pub use text::{chars_of, find_from};
pub mod extract;
pub use extract::{
    extract, field_value, join_trimmed, replace_line_breaks, skills_of, summary_markup_of, trim_text,
    ExtractedFields,
};
pub mod entry;
pub mod store;
pub use entry::{EntryError, FeedEntry, RawItem};
pub use store::{EntryStore, InsertOutcome, StoredRecord};
pub mod poll;
pub use poll::{run_tick, Step, Tick};
pub mod notify;
pub use notify::{notify, render, Delivery, Notification};
pub mod feed;
pub use feed::{or_empty, parse_feed, raw_item, FetchError, ItemFields};
