//! Co-registration statistics for event rosters.
//!
//! A roster lists, for one convention, who registered for which event. From
//! it the crate derives named groups of registrants (single events, or events
//! merged into a category), counts for every ordered pair of groups how many
//! registrants they share, and renders the counts as a `;`-delimited matrix.

pub mod configuration;
pub mod error;
pub mod order;
pub mod registration;
pub mod statistics;
pub mod text;
pub mod text_bytes;
