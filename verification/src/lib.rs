//! Attachment grouping engine.
//!
//! A social-media export splits one logical attachment into several media
//! files: resolution variants of the video track, a separate audio track,
//! and a thumbnail image. This library reconstructs the original
//! attachments. Its core is a greedy clustering algorithm that partitions
//! probed media descriptors into groups believed to share an origin,
//! together with the pure planning logic of the assembly pipeline that
//! turns each group into one muxed output plus one thumbnail.
//!
//! All input/output (probing files, running the external transcoder,
//! spawning workers) lives outside this crate; the functions here work on
//! plain descriptor values and return decisions and records.

pub mod assembly;
pub mod grouping;
pub mod media;
pub mod numfmt;
pub mod parse;
pub mod pretty;
pub mod probe;
