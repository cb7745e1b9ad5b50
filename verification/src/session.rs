//! Calls: their states, events and a table of those in progress.

pub mod events;
pub mod manager;
pub mod state;

pub use crate::session::events::CallEvent;
pub use crate::session::manager::{CallSession, SessionHandle, SessionManager};
pub use crate::session::state::{CallDirection, CallState, CallTiming, StateValidator};
