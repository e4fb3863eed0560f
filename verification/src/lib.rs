//! A single-domain breadth-first web crawler: a FIFO frontier of pending
//! URLs, a store recording visit state and discovered links, and the
//! domain-scoping rules that decide which links are followed.

pub mod crawler;
pub mod data_store;
pub mod fetch;
pub mod parser;
pub mod url;
pub mod url_frontier;
