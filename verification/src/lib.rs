//! A verified core for Reticulum-style mesh networking.
#![allow(unused_imports)]

pub mod buffer;
pub mod channel;
pub(crate) mod clock;
pub mod codec;
pub mod crypto;
pub mod daemon;
pub mod destination;
pub mod icn;
pub mod identity;
pub mod interface;
pub mod mesh;
pub mod packet;
pub mod pieces;
pub mod span;
pub mod table;
pub mod text;
pub mod transport;
pub mod wire;
