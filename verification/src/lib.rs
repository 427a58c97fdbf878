//! Plain-value rules of the Valytics analytics service: peer-group selection,
//! configuration defaults, request parsing and quote selection.

pub mod text;
pub mod peers;
pub mod config;
pub mod api;
pub mod quotes;
