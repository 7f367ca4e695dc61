//! A deterministic, single-threaded stand-in for the Internet Computer, for
//! exercising canister code without the platform.
//!
//! Simulated processes ("canisters") call each other through named methods,
//! pass opaque byte payloads and attach cycles to every call. This crate
//! holds the execution context of one process, the handlers that answer its
//! outbound calls, and the watcher that records what happened.

pub mod bytes;
pub mod certificate;
pub mod principal;
pub mod watcher;
pub mod mock;
pub mod method;
pub mod raw;
pub mod handler;
pub mod connections;

pub use connections::{ConnectionId, WsConnections};
pub use handler::{Answer, CallError, CallHandler, Canister, Entry, Handler};
pub use ic_cdk::api::call::{CallResult, RejectionCode};
pub use method::{Method, MethodAtom};
pub use mock::{Detached, MockContext};
pub use principal::Principal;
pub use raw::RawHandler;
pub use watcher::{Operation, Watcher, WatcherCall};
