//! A page-protecting collection plan: a diagnostic garbage-collection
//! strategy that never moves, frees or reuses an object. After each
//! collection it closes the pages of the objects that were not reached to all
//! access, so that a later use of such an object faults instead of reading
//! stale data.
//!
//! The library decides; it does not touch memory. A caller reserves pages
//! from the operating system and hands the answer to [`global::PageProtect`],
//! which records the object. A collection is started with
//! `schedule_collection` and carried out packet by packet with
//! [`gc_work::do_work`]: the spaces are prepared, the objects that can be
//! reached from the roots are marked, and the spaces are released. Preparing
//! and releasing answer with the requests for opening and closing pages that
//! the caller has to pass on to the operating system.
//!
//! Every function states what it does in its contract. What holds over whole
//! runs of collections is stated and proved in [`cycle`].

pub mod address;
pub mod cycle;
pub mod gc_work;
pub mod global;
pub mod mutator;
pub mod plan;
pub mod scheduler;
pub mod side_metadata;
pub mod space;
