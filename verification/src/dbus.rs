//! The D-Bus wire format, as much of it as a status bar needs: reading any value the bus may
//! send, and writing the handful of shapes the bar sends.

pub mod bus;
pub mod law;
pub mod message;
pub mod message_law;
pub mod reader;
pub mod signature;
pub mod value;
pub mod writer;
