//! Statistics drawn from a convention.

pub mod error;
pub mod events_registrants_dependency;
pub mod gender_repartition;
pub mod groups;
pub mod registrant_set;
pub mod regrouping;
pub mod report;
