//! An interactive directory browser's core: fuzzy ranking of directory
//! entries against a typed query, a cursor over the ranked listing, bounded
//! file previews, and the two-mode key dispatch that drives it all.
//!
//! Everything observable about the model lives behind contracts; the
//! surrounding terminal program only reads directories, reads files and
//! draws widgets.

pub mod browser;
pub mod config;
pub mod entry;
pub mod fuzzy;
pub mod keys;
pub mod mode;
pub mod paths;
pub mod preview;
pub mod rank;
mod strutil;

pub use browser::App;
pub use browser::Selection;
pub use config::Config;
pub use entry::Entry;
pub use paths::safe_filename_for_matching;
pub use paths::safe_filename_to_string;

pub use fuzzy::FuzzyMatch;
pub use fuzzy::SearchResult;
pub use fuzzy::fuzzy_match;
pub use mode::Mode;
