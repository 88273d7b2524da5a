//! Completion-barrier core for enumerating a dynamically discovered set of
//! remote audio objects.
//!
//! A session issues asynchronous barrier requests, each answered later by a
//! completion event carrying the request's correlation token.  Discovering a
//! relevant object spawns a fresh request, so the set of outstanding tokens
//! grows while the event loop runs; the loop must stop exactly when every
//! token ever tracked has been matched by its completion event.  This crate
//! holds that barrier, the relevance filter for announced objects, the
//! per-object listeners that resolve devices and settings from property
//! dictionaries, and a driver that folds a whole event sequence into the
//! final store.  The dispatch loop of the underlying client library runs
//! outside the crate and feeds the same handlers.

pub mod device;
pub mod parse;
pub mod pending;
pub mod props;
pub mod session;
pub mod settings;
