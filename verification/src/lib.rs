//! Verified core of the CLI printing press: naming rules, OpenAPI operation
//! discovery, authentication modelling and target resolution.
pub mod text;
pub mod names;
pub mod slug;
pub mod ordered_map;
pub mod spec;
pub mod operations;
pub mod catalog;
pub mod pipeline;
pub mod verify;
pub mod cli;
