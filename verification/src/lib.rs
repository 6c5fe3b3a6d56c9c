//! A lightweight PTY shepherd that holds terminal sessions across client
//! restarts.
//!
//! A host process owns one PTY and the shell on it, and serves one client at a
//! time over a Unix socket. When the client goes away the shell stays, and the
//! next client gets the terminal back as it is. This library holds what a host
//! and its clients decide; the program around it performs the system calls.
//!
//! - [`protocol`]: the messages between client and host, and their frames.
//! - [`inbound`], [`session`]: the host's side of a session.
//! - [`client`]: the client's side.
//! - [`config`], [`shell`], [`spawn`]: how a session and its host process are
//!   started.
//! - [`args`], [`attach`], [`processes`]: the command line program.
//! - [`ids`], [`sockets`], [`path`]: session IDs and where sessions listen.
//! - [`foreground`]: titles for programs that set none.
//! - [`headless`]: the terminal emulator that tracks a session's terminal.
//! - [`bytes`], [`text`], [`fault`]: byte strings, texts and I/O failures.
//!
//! What holds of these beyond single calls stands in modules of its own:
//!
//! - [`session_laws`], [`event_laws`]: of a session whatever happens, and of what
//!   events lead to.
//! - [`client_laws`], [`connection_laws`], [`handshake_laws`]: between a session
//!   and its client.
//! - [`protocol_laws`], [`attach_laws`], [`title_laws`]: of messages, of the plain
//!   terminal client and of titles.
//! - [`args_laws`], [`shell_laws`], [`spawn_laws`], [`processes_laws`]: of command
//!   lines and processes.
//! - [`path_laws`], [`text_laws`]: of paths and texts.

pub mod args;
pub mod args_laws;
pub mod attach;
pub mod attach_laws;
pub mod bytes;
pub mod client;
pub mod client_laws;
pub mod config;
pub mod connection_laws;
pub mod event_laws;
pub mod fault;
pub mod foreground;
pub mod handshake_laws;
pub mod headless;
pub mod ids;
pub mod inbound;
pub mod path;
pub mod path_laws;
pub mod processes;
pub mod processes_laws;
pub mod protocol;
pub mod protocol_laws;
pub mod session;
pub mod session_laws;
pub mod shell;
pub mod shell_laws;
pub mod sockets;
pub mod spawn;
pub mod spawn_laws;
pub mod text;
pub mod text_laws;
pub mod title_laws;
