//! A bridge between a host application and the web content shown in its
//! windows: a registry of labelled windows, the inbound message protocol and
//! its JSON codec, the table of command handlers and event listeners, the
//! correlation of each request with its reply, and the event loop that
//! serves them, each stated as a contract and proved.
//!
//! The library decides; its caller performs. Each loop event goes to
//! [`bridge::Bridge::handle`], which returns the actions to carry out (run a
//! script in a window, apply a patch, close a window, report the end), and
//! each inbound message goes to [`bridge::Bridge::receive_text`], which says
//! which host handler to call.

pub mod assets;
pub mod bridge;
pub mod config;
pub mod correlation;
pub mod dispatch;
pub mod icon;
pub mod ipc;
pub mod json;
pub mod laws;
pub mod parse;
pub mod registry;
pub mod roundtrip;
pub mod text;
pub mod value;
