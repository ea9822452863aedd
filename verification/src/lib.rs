//! A verified resolution-and-retrieval pipeline.
//!
//! The library models the pure core of a batch downloader: a persisted
//! dedup store of previously seen identifiers, extraction of identifiers
//! from page URLs, resolution of each identifier to the one existing
//! upstream variant by content-type probing over an ordered candidate
//! list, planning of download tasks, and aggregation of per-item
//! outcomes and progress. All network and file I/O stays outside the
//! library; callers hand in the raw bytes or probe outcomes and get
//! decisions and reports back.
mod bytes;
mod dedup;
mod extract;
mod plan;
mod progress;
mod report;
mod resolve;

pub use bytes::bytes_eq;
pub use bytes::clone_bytes;
pub use bytes::contains_bytes;
pub use bytes::push_bytes;
pub use bytes::starts_with_bytes;
pub use bytes::subvec;
pub use dedup::DedupStore;
pub use dedup::lemma_dedup_round_trip;
pub use extract::collect_new_ids;
pub use extract::extract_identifier;
pub use extract::lemma_no_duplicate_enumeration;
pub use extract::profile_marker_bytes;
pub use plan::DownloadTask;
pub use plan::format_decimal;
pub use plan::plan_downloads;
pub use plan::sanitize_title;
pub use progress::ProgressTracker;
pub use progress::summarize_batch;
pub use report::OutcomeReport;
pub use report::lemma_unmatched_exactly_once;
pub use report::resolve_batch;
pub use resolve::CandidateFormat;
pub use resolve::ProbeOutcome;
pub use resolve::ResolvedAsset;
pub use resolve::candidate_url;
pub use resolve::check_probe;
pub use resolve::default_formats;
pub use resolve::lemma_format_tie_break;
pub use resolve::resolve;
pub use resolve::select_format;
