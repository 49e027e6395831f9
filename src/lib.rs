//! Per-base coverage of target sequences from pairwise alignment records.
//!
//! A record line is split into its fields ([`record`]), its operation string
//! is read as a run of `(length, class)` pairs ([`cigar`]), and the aligned
//! positions are counted into one vector per target ([`coverage`],
//! [`table`]).
pub mod cigar;
pub mod coverage;
pub mod decimal;
pub mod laws;
pub mod record;
pub mod table;
pub mod text;
