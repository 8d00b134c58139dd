//! Game-repack catalog aggregation: title normalisation, listing extraction,
//! crawl scheduling, the record store and its search, and the key-rotation
//! policy for the shared metadata-API key.

pub mod text;
pub mod normalize;
pub mod store;
pub mod crawl;
pub mod extract;
pub mod providers;
pub mod rotation;
pub mod login;
pub mod games;
