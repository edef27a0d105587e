//! A bridge between message-framed front-end connections and byte-oriented
//! backend sockets, with telnet negotiation for telnet-aware targets.
//!
//! - `target`: target specifications and the registry of targets by name.
//! - `telnet`: the negotiator that filters and answers telnet commands.
//! - `bridge`: routing a request to a target, and the relay decisions of a
//!   session in both directions.
pub mod bridge;
pub mod target;
pub mod telnet;
