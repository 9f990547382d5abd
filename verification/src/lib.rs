//! Verified core of a landmark-selfie feed pipeline: list naming and parsing,
//! fallback selection, montage layout, pipeline tallies and scoring bookkeeping.

pub mod text;
pub mod keyed;
pub mod limit;
pub mod order;
pub mod spec;
pub mod published;
pub mod published_list;
pub mod catalog;
pub mod fallback;
pub mod statistics;
pub mod source;
pub mod preview;
pub mod qr;
pub mod prune;
pub mod metrics;
pub mod refine;
pub mod publisher;
pub mod store_commands;
pub mod ranking;
pub mod retry;
