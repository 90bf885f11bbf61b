//! A document store's logic: JSON documents, their comparison and filtering,
//! document-id validation, and the lock table with deadlock detection.
pub mod json;
pub mod comparison;
pub mod document;
pub mod query;
pub mod filtering;
pub mod error;
pub mod validation;
pub mod deadlock;
pub mod locking;
pub mod events;
pub mod verification;
pub mod collection;
pub mod sorting;
pub mod constants;
