//! Session logic of the Samari Catcher desktop client: the per-tab state
//! machine that follows a ComputerCraft computer over the relay, the file
//! editing model, the wire-level packet model, checksums, text helpers and
//! the small pure pieces of the UI and of the local AI assistant.

pub mod checksum;
pub mod connection;
pub mod diff;
pub mod file_flags;
pub mod ollama;
pub mod protocol;
pub mod session;
pub mod settings;
pub mod terminal;
pub mod text;
pub mod token;
