//! Event-driven reading of GeoJSON documents.
//!
//! A GeoJSON text is parsed, brought into the library's own document model
//! ([`model`]), and then walked in document order. The walk is described by
//! an exact sequence of processing events ([`events`]); the events are handed,
//! in that order, to a user-supplied processor ([`processor`]) until the
//! processor reports an error.
pub mod error;
pub mod model;
pub mod events;
pub mod walk;
pub mod processor;
pub mod convert;
pub mod laws;
pub mod shape;
pub mod property_laws;
pub mod reader;
