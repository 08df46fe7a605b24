//! Recording and replaying of HLS streams.
//!
//! A recording is a directory that holds, for each playlist of a stream, the
//! snapshots that were captured of it, the segments, keys and maps that the
//! snapshots name, and a manifest that says which snapshot was captured
//! when. This library holds the rules of recording and replay: how a
//! playlist is rewritten so that it names local files, which variants and
//! renditions are recorded, what is fetched, how the manifest grows, and
//! which snapshot answers a request. Each rule is a function with a contract
//! that Verus proves. Fetching, storing and serving are left to the caller.

pub mod byte_range;
pub mod hexstring;
pub mod playlist;
pub mod record;
pub mod record_laws;
pub mod record_master;
pub mod record_media;
pub mod recording;
pub mod replay;
pub mod rewrite;
pub mod rewrite_laws;
pub mod select;
pub mod seqs;
pub mod text;
pub mod timestamps;
pub mod urls;
