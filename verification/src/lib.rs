//! A minimal persistent event registry: create, read, update, delete, count,
//! and enumerate `Event` records identified by a monotonically increasing ID.
//!
//! The registry itself is a plain value (`registry::EventsContract`) holding a
//! creation counter and the live records; a host that persists it between
//! calls reconstructs it with `from_persisted` at the start of each call and
//! writes it back afterwards.

pub mod event;
pub mod model;
pub mod registry;
pub mod laws;
