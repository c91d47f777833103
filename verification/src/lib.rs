//! A fixed-capacity container whose slots can be filled in any order and
//! that turns into a plain `Vec` once every slot holds a value, together
//! with the rules of a few small services that gather, count and relay
//! what they are sent.
//!
//! - [`buffer`] holds the container, [`cells`] its mathematical model,
//!   [`writes`] what holds of it after a series of writes, and [`bits`] the
//!   bit set that records which slots are filled.
//! - [`stackbuf`] writes into a byte buffer of fixed size; [`decimal`] is
//!   the notation of numbers that it and others use.
//! - [`message`], [`client`], [`counter`] and [`text`] are the word counter
//!   and what it is sent.
//! - [`dungeon`], [`warren`], [`dice`] and [`service`] are the dungeon
//!   service.
//! - [`pubsub`] and [`fanin`] name the channels and the data of the relays.

pub mod bits;
pub mod buffer;
pub mod cells;
pub mod client;
pub mod counter;
pub mod decimal;
pub mod dice;
pub mod dungeon;
pub mod fanin;
pub mod message;
pub mod pubsub;
pub mod service;
pub mod stackbuf;
pub mod text;
pub mod warren;
pub mod writes;

pub use crate::buffer::{InitVec, OutOfRange};
pub use crate::message::Message;
pub use crate::pubsub::inbox;
