//! Verified core of a daily cafeteria menu service: a document extractor
//! that turns a semi-structured menu page into a structured `Menu`, a
//! deterministic rendering of that model, and a freshness-bounded,
//! capacity-bounded cache in front of the fetch-and-extract pipeline.

pub mod cache;
pub mod date;
pub mod dom;
pub mod menu;
pub mod page;
pub mod canteen;
pub mod text;
