//! Lazy, error-ignoring directory listing.
//!
//! A [`ReadDir`] is the state of a listing that swallows every failure: an
//! open that failed gives a reader that yields nothing, a slot that could not
//! be read is skipped, and the end of the listing ends the reader for good.
//! The operating system's listing handle is carried in the reader; whoever
//! drives it asks that handle for its next raw slot and hands the slot to
//! [`ReadDir::advance`], which decides what the caller sees.

mod laws;
mod reader;

pub use laws::{
    lemma_end_is_final, lemma_failed_open_yields_nothing, lemma_full_listing_yields_all,
    lemma_never_rewinds, lemma_skips_unreadable,
};
pub use reader::{read_dir, ReadDir, Step};
