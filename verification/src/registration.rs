//! The roster model: registrants, events, and the convention that ties them.

pub mod cell;
pub mod convention;
pub mod event;
pub mod gender;
pub mod registrant;
