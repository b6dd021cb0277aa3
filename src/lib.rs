//! Transfer core of a "drop a file into a shared bucket, fetch it elsewhere" helper:
//! ranking the objects of a bucket, tracking streamed downloads, bundling several files
//! into one stored archive, and the decisions of the send and receive operations.

pub mod bundle;
pub mod catalog;
pub mod error;
pub mod local;
pub mod sync;
pub mod transfer;
