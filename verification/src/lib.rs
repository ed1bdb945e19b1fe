//! A media library kept in memory: a catalog of the files that a scan found,
//! a cache of probe results, a priority queue of jobs, and the decisions that
//! turn a queued job into a cached artifact. Every function is verified; the
//! embedding program does the input and output.

pub mod file_scanner;
pub mod fingerprint;
pub mod job_queue;
pub mod json;
pub mod media_cache;
pub mod ordering;
pub mod probe_cache;
pub mod seqs;
pub mod text;
pub mod thumbnail_generator;
