//! Conversion of MBOX mail exports into a self-contained, randomly accessible
//! archive, and a query engine over such archives.
//!
//! The library is organised around three verified stages: segmenting the raw
//! export into per-message byte buffers, extracting a structured metadata
//! summary from each message, and serving filtered search plus on-demand
//! retrieval against the produced container.

pub mod bytes;
pub mod codec;
pub mod dbio;
pub mod extract;
pub mod headers;
pub mod jsonout;
pub mod mime;
pub mod model;
pub mod reader;
pub mod search;
pub mod segment;
pub mod text;
pub mod writer;
pub mod zipio;
