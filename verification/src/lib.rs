//! Verified core of a newspaper-cover aggregation pipeline: slug derivation,
//! section classification and reordering, JSON framing of the published
//! artifacts, and parsing of the optional AI digest responses.
pub mod classify;
pub mod digest;
pub mod extract;
pub mod jsonfmt;
pub mod pipeline;
pub mod sections;
pub mod slug;
pub mod text;
