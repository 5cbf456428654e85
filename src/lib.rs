//! A store of immutable, named and versioned model records, each with an id
//! and a creation time assigned by the store.

pub mod model;
pub mod stamp;
pub mod store;

pub use model::{CreateModelRequest, DeleteModelRequest, Model};
pub use store::{new_model_store, ModelStore};
