//! Protocol logic for replicated and peer-to-peer services.
//!
//! A service is made of sessions: each one takes events in, keeps its own state
//! and says what is to be sent or started next. The sessions of PBFT, of the
//! service without replication, of peer lookup and of blob transfer are here as
//! state machines, together with the formats and signatures of their messages,
//! the nets that messages go over, and the contexts, simulated or on sockets,
//! that events come from. Whatever waits for a socket, a timer or another task
//! is left to the programs around this library.

pub mod addr;
pub mod benchmark;
pub mod blob;
pub mod context;
pub mod control;
pub mod crypto;
pub mod error;
pub mod kademlia;
pub mod model;
pub mod net;
pub mod pbft;
pub mod replication;
pub mod submit;
pub mod task;
pub mod transport;
pub mod unreplicated;
pub mod wire;
