//! Query and control browser tabs from the command line.
//!
//! A client connects to the native-messaging host of a browser over a Unix socket
//! and sends it one JSON request; the host passes it on to the browser's extension
//! and sends the client the reply. This library holds what both of them compute:
//! the program around it does the reading, the writing and the waiting.

pub mod args;
pub mod base64;
pub mod command;
pub mod frame;
pub mod json;
pub mod output;
pub mod protocol;
pub mod relay;
pub mod socket;
pub mod text;
