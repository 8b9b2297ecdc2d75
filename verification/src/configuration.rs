//! The two configuration documents that tell which events merge into which
//! category.

pub mod events_configuration;
pub mod events_mapping;
