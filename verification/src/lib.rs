//! Watches a media catalog for one or many subscribers and decides what to
//! announce: which items of a listing are new to a subscriber, how they fall
//! into announcements, what each announcement says, and what is recorded once
//! it was delivered. Fetching, delivering and recording are left to the
//! caller, who reports back what came of them.

pub mod announce;
pub mod catalog;
pub mod hierarchy;
pub mod ranges;
pub mod reconcile;
pub mod scheduler;
pub mod seen;
pub mod stats;
pub mod subscriber;
pub mod sweep;
pub mod text;
pub mod title;

pub use crate::subscriber::Instance;
