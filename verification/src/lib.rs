//! Plans the persistence of a batch of journal records submitted as a JSON
//! array: each item yields a target directory, a file path derived from its
//! `type` field and nested `journal.id`, and the serialized item text.

pub mod decimal;
pub mod json;
pub mod paths;
pub mod plan;
pub mod store;
