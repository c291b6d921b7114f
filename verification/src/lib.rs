//! Remote cross-development runtime: the wire protocol and its stream engine,
//! the Runner's execution decisions, and the transparent remote-file subsystem.
//!
//! Every function here works on plain values. Sockets, files, processes and
//! clocks belong to the program built around this library: it performs the
//! actions that these functions decide on and hands the outcomes back.
//!
//! - `messages`, `wire`, `codec`: the message types and their payload bytes.
//! - `frame`, `message_stream`: frames and the engine that moves them.
//! - `file_server`, `file_client`: the Host's file service and its client.
//! - `fd_map`, `preload`: virtual descriptors and the interposer's decisions.
//! - `remote_runner`, `host`, `file_watcher`, `elf_deps`, `options`: the
//!   decisions of the Runner and of the Host.
//! - `bytes`, `text`, `errno`: byte strings, text, and error numbers.

pub mod bytes;
pub mod codec;
pub mod elf_deps;
pub mod errno;
pub mod fd_map;
pub mod file_client;
pub mod file_server;
pub mod file_watcher;
pub mod frame;
pub mod host;
pub mod message_stream;
pub mod messages;
pub mod options;
pub mod preload;
pub mod remote_runner;
pub mod text;
pub mod wire;
