//! The availability distribution protocol of a relay chain node.
//!
//! The data of a candidate block is cut into erasure chunks. In case this node
//! is a validator, it makes the chunks of the candidates of its view, stores
//! its own and gossips all of them. Independently of that, it gossips chunks
//! that it receives from peers on to other interested peers.
//!
//! The protocol is a state machine without any input or output of its own. It
//! hands out one [`protocol::Action`] at a time and goes on with the
//! [`protocol::Reply`]; [`subsystem::transition`] says what one step does, and
//! [`laws`] what follows from it. [`behaviour`], [`steps`], [`turns`],
//! [`courses`] and [`frames`] say what the functions, single steps and whole
//! courses of the protocol come to, of inputs and results alone.

pub mod behaviour;
pub mod collections;
pub mod courses;
pub mod frames;
pub mod incoming;
pub mod laws;
pub mod message;
pub mod our_view;
pub mod peer_view;
pub mod primitives;
pub mod protocol;
pub mod reputation;
pub mod state;
pub mod steps;
pub mod subsystem;
pub mod turns;

pub use message::AvailabilityGossipMessage;
pub use subsystem::AvailabilityDistributionSubsystem;
