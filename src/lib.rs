//! A store for the desired state of a set of services: each service name maps
//! to a version requirement. The store keeps its entries ordered by name,
//! stages changes so that they are committed only after they were persisted,
//! reconciles itself with external edits of its backing document, and hands a
//! snapshot of every real change to each of its subscribers.
pub mod names;
pub mod service;
pub mod requirement;
pub mod events;
pub mod store;
pub mod watch;
pub mod laws;
pub mod template;
pub mod report;
pub mod args;
pub mod document;
