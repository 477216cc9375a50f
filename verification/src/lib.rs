//! The core of a notebook kernel for the V language.
//!
//! The kernel speaks the Jupyter messaging protocol. Cells of V code arrive
//! as signed multipart messages; the kernel gathers the declarations and
//! statements of all cells of a session, writes a complete program for each
//! cell, has it run, and reports the outcome on the channels of the
//! protocol.
//!
//! This library holds what the kernel decides and computes:
//!
//! - `codec`: framing of messages and their authentication;
//! - `json` and `message`: the documents that messages carry;
//! - `classifier`: the partition of a cell into declarations and statements;
//! - `session`: the state of a session and the program it stands for;
//! - `runner`: what is reported of a run;
//! - `protocol`: the messages that answer a request, and their order;
//! - `connection`: the addresses of the channels;
//! - `text`: lines, trimming and prefixes of text.
//!
//! Sockets, files and processes are the caller's.

mod ambient;
pub mod classifier;
pub mod codec;
pub mod connection;
pub mod json;
pub mod message;
pub mod protocol;
pub mod runner;
pub mod session;
pub mod text;
