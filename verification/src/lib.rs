//! Liveness tracking for a set of named services.
//!
//! The crate holds the state of a service watcher and the rules by which it
//! changes:
//!
//! - [`time`], [`status`], [`spec`], [`service`]: instants, status
//!   observations, the human-readable spec of a service, and the service
//!   record with the actions that change it;
//! - [`buffer`], [`vec_buffer`], [`btree_buffer`]: the bounded history of a
//!   service, under two storage strategies;
//! - [`names`], [`store`]: the order of service names and the store of
//!   records by name;
//! - [`state_actor`]: the single writer that applies requests to the store
//!   one at a time, and what it answers;
//! - [`api_util`]: what its answers become at the HTTP interface;
//! - [`checker`], [`text`]: what a probing client is told and reports, and
//!   the reading and writing of texts.
//!
//! Every function is verified against its contract; the one exception is
//! the call into the URL parser in [`checker`], of which nothing is claimed
//! but that its outcome depends on its input alone. Queues, tasks, sockets
//! and clocks are left to the program around the library.
pub mod api_util;
pub mod btree_buffer;
pub mod buffer;
pub mod checker;
pub mod names;
pub mod service;
pub mod spec;
pub mod state_actor;
pub mod status;
pub mod store;
pub mod text;
pub mod time;
pub mod vec_buffer;

pub use crate::buffer::StatusBuffer;
pub use crate::service::{Service, ServiceAction, ServiceSpec};
pub use crate::spec::Spec;
pub use crate::status::{Status, TimedStatus};
pub use crate::time::Timestamp;
