//! Verified core of a peer-to-peer file-replication system.
//!
//! Peers cooperate, arena by arena, to converge their local stores toward
//! the same set of content-addressed files. This crate holds the decision
//! logic of that core — byte-range bookkeeping, ranged hash comparison,
//! the per-file sync protocol, the job scheduler and its notification
//! stream — as verified functions with explicit contracts. Network and
//! file I/O stay outside; callers hand the results of outside calls in as
//! plain values.

use vstd::prelude::*;

mod churten;
mod errors;
mod handler;
mod hashes;
mod indexed_store;
mod movedirs;
mod notify;
mod progress;
mod ranges;
mod tracker;
pub mod types;

pub use churten::BROADCAST_CHANNEL_CAPACITY;
pub use churten::BROADCAST_CHANNEL_RESOLUTION_BYTES;
pub use churten::Churten;
pub use churten::JobPhase;
pub use churten::JobRecord;
pub use churten::NotifKind;
pub use churten::NotifRecord;
pub use churten::PARALLEL_JOB_COUNT;
pub use churten::StorageReport;
pub use churten::count_kind;
pub use churten::counts_zero;
pub use churten::job_accounted;
pub use churten::jobs_have_id;
pub use churten::lemma_bounded_parallelism;
pub use churten::lemma_count_push;
pub use churten::lemma_notification_discipline;
pub use churten::running_count;
pub use errors::StorageError;
pub use handler::DownloadDecision;
pub use handler::JobHandlerImpl;
pub use hashes::HashEntry;
pub use hashes::RangedHash;
pub use hashes::entries_cover;
pub use hashes::entries_match;
pub use hashes::lemma_entries_match_symmetric;
pub use indexed_store::IndexEntry;
pub use indexed_store::check_signature_header;
pub use indexed_store::declares_nonzero_block;
pub use indexed_store::delta_of;
pub use indexed_store::metadata_hash;
pub use indexed_store::open_check;
pub use indexed_store::rsync;
pub use indexed_store::valid_rsync_signature;
pub use movedirs::CHUNK_SIZE;
pub use movedirs::CopyGate;
pub use movedirs::CopyPermit;
pub use movedirs::HASH_FILE_CHUNK;
pub use movedirs::HashCheck;
pub use movedirs::MoveFile;
pub use movedirs::MoveFileError;
pub use movedirs::MovePhase;
pub use movedirs::PARALLEL_FILE_COUNT;
pub use movedirs::PARALLEL_FILE_HASH;
pub use movedirs::ProgressEvent;
pub use movedirs::RealStoreError;
pub use movedirs::RpcError;
pub use movedirs::build_ranged_hash;
pub use movedirs::check_hashes;
pub use movedirs::classify_outcome;
pub use movedirs::copy_plan;
pub use movedirs::dir_totals;
pub use movedirs::sum_triples;
pub use movedirs::sum_matched_sizes;
pub use movedirs::hash_plan;
pub use movedirs::hashes_agree;
pub use movedirs::pair_files;
pub use movedirs::rsync_plan;
pub use movedirs::sum_sizes;
pub use movedirs::tally;
pub use notify::ChurtenNotification;
pub use notify::JobAction;
pub use notify::JobProgress;
pub use notify::progress_like;
pub use progress::ByteCountProgress;
pub use progress::MAX_BACKOFF_FACTOR;
pub use ranges::ByteRange;
pub use ranges::ByteRanges;
pub use ranges::canonical;
pub use ranges::chunk_seq;
pub use ranges::seq_covers;
pub use ranges::sum_bytes;
pub use ranges::lemma_bytecount_within;
pub use tracker::JobInfo;
pub use tracker::JobInfoTracker;
pub use tracker::has_id;
pub use tracker::info_like;
pub use types::Arena;
pub use types::Delta;
pub use types::Job;
pub use types::JobId;
pub use types::JobStatus;
pub use types::Path;
pub use types::PathError;
pub use types::RealStoreOptions;
pub use types::Signature;
pub use types::SyncedFile;
pub use types::UnixTime;
pub use types::dot_component_at;
pub use types::dst_options;
pub use types::job_like;
pub use types::src_options;
pub use types::valid_path;
