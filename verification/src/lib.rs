//! A readiness-driven, single-threaded connection relay.
//!
//! The library models a broadcast relay server: one listening socket plus a
//! set of accepted client connections, multiplexed by a single blocking
//! readiness wait. Bytes received from one client are forwarded, unmodified,
//! to every other connected client. The modules below hold the verified
//! core: the connection bookkeeping, the readiness report, and the dispatch
//! step that turns one round of readiness events into set mutations and
//! broadcast actions. The blocking wait itself and all socket I/O live with
//! the embedding program, which feeds observed events into the dispatcher.

pub mod builders;
pub mod conn;
pub mod dispatch;
pub mod multiplex;
pub mod types;
