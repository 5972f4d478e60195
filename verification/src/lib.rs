//! A tracking store: immutable audit logs, mutable objects linked in a graph,
//! and handlers that fire when a log of a matching type is written.
//!
//! `storage` is the entry point. It rests on the identifier allocator
//! (`ids`), the log store (`logs`), the object store (`objects`) and the event
//! dispatcher (`event`), whose patterns are regular expressions (`pattern`).
//! `record` and `attrs` hold the records and their attribute maps, `document`
//! the shape in which a document store keeps them. `model` states what every
//! operation does as a step of a mathematical state, and `laws` proves what
//! holds of those steps.

pub mod attrs;
mod clock;
pub mod document;
pub mod error;
pub mod event;
pub mod ids;
pub mod laws;
pub mod logs;
pub mod model;
pub mod objects;
pub mod pattern;
pub mod record;
pub mod storage;
pub mod table;
pub mod text;
