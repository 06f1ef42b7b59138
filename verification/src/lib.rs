//! A bridge between a host and a sandboxed guest: the guest asks for event
//! sets by handle, registers observables against them and has events
//! delivered to its handler, one delivery at a time.

pub mod abi;
pub mod dispatch;
pub mod error;
pub mod event_set;
pub mod guest;
pub mod host;
pub mod invoker;
pub mod label;
pub mod memory;
pub mod model;
pub mod observable;
pub mod table;
pub mod text;

pub use crate::dispatch::Dispatch;
pub use crate::error::{Error, Trap};
pub use crate::event_set::EventSet;
pub use crate::guest::{EventHandler, ExecHost};
pub use crate::host::{ExecTables, HostContext};
pub use crate::invoker::{Invoker, Outcome};
pub use crate::observable::Observable;
pub use crate::table::HandleTable;
