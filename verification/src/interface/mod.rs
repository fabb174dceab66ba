//! Framing and link-level state of network interfaces.

pub mod error;
pub mod hdlc;
pub mod kiss;
pub mod serial;
pub mod tcp;

pub use error::InterfaceError;
pub use hdlc::{HdlcDecoder, HdlcFrame};
pub use kiss::{KissDecoder, KissFrame, KissFrameResult};
pub use serial::SerialInterface;
pub use tcp::{TcpClientInterface, TcpServerInterface};
