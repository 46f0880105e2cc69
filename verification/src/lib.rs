//! Host-side core of a macro deck: the wire codec, the device session as a
//! state machine that never touches the port itself, the image patch engine,
//! the flash pipeline, the arbiter of the serial port and the decisions of
//! the control channel.

pub mod bytes;
pub mod error;
pub mod message;
pub mod raster;
pub mod codec;
pub mod device;
pub mod paths;
pub mod cache;
pub mod protocol;
pub mod macro_deck;
pub mod arbiter;
pub mod models;
pub mod flash;
pub mod control;
pub mod ports;
pub mod tools;
