//! Client-side protocol core for a ZooKeeper-compatible coordination service:
//! the framed big-endian wire format, path and connect-string validation,
//! chroot handling, session state and XID bookkeeping, and the watcher
//! registry that matches server notifications to locally registered
//! observers.

use vstd::prelude::*;

pub mod client;
pub mod codec;
pub mod constants;
pub mod error;
pub mod hosts;
pub mod paths;
pub mod req;
pub mod resp;
pub mod tree;
pub mod watcher;

pub use constants::{AddWatchMode, CreateMode, EventType, KeeperState, States, WatcherType};
pub use error::ZKError;
pub use req::{Scheme, ACL};
pub use resp::Stat;
pub use watcher::{WatchedEvent, Watcher};

verus! {

/// The result type of every fallible operation in this crate.
pub type ZKResult<T> = Result<T, ZKError>;

} // verus!
