//! Streams data from many sources to a changing set of sinks and back.
//!
//! Every source is a connection to a server and is mapped to the sink that
//! receives its data. Sources and sinks can be added and removed while the
//! reducer runs. This library holds the decisions; sockets, tasks and wake-ups
//! belong to the program around it.
#![allow(unused_imports)]

pub mod address;
pub mod calls;
pub mod channel;
pub mod connect;
pub mod driver;
pub mod error;
pub mod event;
pub mod laws;
pub mod mpsc;
pub mod reducer;
