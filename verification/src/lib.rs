//! A bookmark store for remote-login targets: named groups, the servers
//! filed under them, and the rules that keep the two consistent.
//!
//! A [`Dataset`] is the whole collection, the unit that is loaded and saved.
//! Every operation on it is stated against [`DatasetView`], its mathematical
//! model, and leaves a consistent collection consistent.

pub mod error;
pub mod ident;
pub mod launch;
pub mod laws;
pub mod model;
pub mod rules;
pub mod store;

pub use error::{Error, ErrorView, Record, Violation, ViolationView};
pub use model::{Dataset, DatasetView, Group, GroupView, Server, ServerView};
