//! The message store's own logic: the text codec, the caches in front of the
//! store, and the steps around each store query.

pub mod models;
pub mod codec;
pub mod cache;
pub mod manager;
