//! The packets exchanged with the relay, as values. Their JSON form (a
//! numeric `packet` discriminator and camel-case fields) is written and read
//! at the edge of the program.

use crate::diff::Fragment;
use crate::text::push_char;
use std::collections::HashMap;
use vstd::prelude::*;
use vstd::string::StringExecFns;

verus! {

/// What a file action does.
pub const ACTION_REPLACE: u32 = 0;
pub const ACTION_PATCH: u32 = 1;
pub const ACTION_DELETE: u32 = 2;

/// The largest frame the relay accepts, in bytes.
pub const MAX_PACKET_SIZE: usize = 20000;

/// One file as listed or requested: its name and checksum.
#[derive(Clone, Debug)]
pub struct FileEntry {
    pub file: String,
    pub checksum: u32,
}

/// One change to one file (`FileAction` packets): a replacement with
/// `contents`, a patch made of `delta`, or a deletion.
#[derive(Clone, Debug)]
pub struct FileActionEntry {
    pub file: String,
    /// Checksum of the contents the change was made against.
    pub checksum: u32,
    /// Bits of `file_flags`.
    pub flags: u32,
    /// `ACTION_REPLACE`, `ACTION_PATCH` or `ACTION_DELETE`.
    pub action: u32,
    pub contents: Option<String>,
    pub delta: Option<Vec<Fragment>>,
}

/// How the host took a file action.
#[derive(Clone, Copy, Debug, PartialEq, Eq, Structural)]
pub enum FileConsumeResult {
    Accepted,
    Reject,
    Failure,
}

/// The outcome of one file action (`FileConsume` packets).
#[derive(Clone, Debug)]
pub struct FileConsumeEntry {
    pub file: String,
    pub checksum: u32,
    pub result: FileConsumeResult,
}

/// The screen of the computer, as the host sends it.
#[derive(Clone, Debug)]
pub struct TerminalContents {
    pub width: u32,
    pub height: u32,
    /// Cursor column, counted from 1.
    pub cursor_x: u32,
    /// Cursor row, counted from 1.
    pub cursor_y: u32,
    pub cursor_blink: bool,
    pub cur_fore: Option<String>,
    pub cur_back: Option<String>,
    /// Palette entries keyed by colour code, each a packed `0x00RRGGBB`.
    pub palette: Option<HashMap<String, u32>>,
    pub text: Vec<String>,
    /// Foreground colour codes, one character per cell.
    pub fore: Vec<String>,
    /// Background colour codes, one character per cell.
    pub back: Vec<String>,
}

/// An argument of a terminal event.
#[derive(Clone, Debug)]
pub enum EventArg {
    Str(String),
    Bool(bool),
}

/// An event queued on the computer, such as a key press.
#[derive(Clone, Debug)]
pub struct TerminalEvent {
    pub name: String,
    pub args: Vec<EventArg>,
}

/// A packet of the relay protocol.
#[derive(Clone, Debug)]
pub enum Packet {
    /// A peer joined or left; `capabilities` are those of the other peers.
    ConnectionUpdate { clients: u32, capabilities: Vec<String> },
    ConnectionAbuse { message: String },
    /// Keep-alive; must be echoed.
    ConnectionPing,
    TerminalContents(TerminalContents),
    TerminalEvents { events: Vec<TerminalEvent> },
    TerminalInfo { id: Option<i64>, label: Option<String> },
    FileListing { id: u32, files: Vec<FileEntry> },
    FileRequest { id: u32, files: Vec<FileEntry> },
    FileAction { id: u32, actions: Vec<FileActionEntry> },
    FileConsume { id: u32, files: Vec<FileConsumeEntry> },
}

/// The numeric discriminator of each kind of packet on the wire.
pub open spec fn packet_code_spec(p: Packet) -> u8 {
    match p {
        Packet::ConnectionUpdate { .. } => 0x00,
        Packet::ConnectionAbuse { .. } => 0x01,
        Packet::ConnectionPing => 0x02,
        Packet::TerminalContents(_) => 0x10,
        Packet::TerminalEvents { .. } => 0x11,
        Packet::TerminalInfo { .. } => 0x12,
        Packet::FileListing { .. } => 0x20,
        Packet::FileRequest { .. } => 0x21,
        Packet::FileAction { .. } => 0x22,
        Packet::FileConsume { .. } => 0x23,
    }
}

impl Packet {
    /// The numeric discriminator of this packet on the wire.
    pub fn code(&self) -> (r: u8)
        ensures
            r == packet_code_spec(*self),
    {
        match self {
            Packet::ConnectionUpdate { .. } => 0x00,
            Packet::ConnectionAbuse { .. } => 0x01,
            Packet::ConnectionPing => 0x02,
            Packet::TerminalContents(_) => 0x10,
            Packet::TerminalEvents { .. } => 0x11,
            Packet::TerminalInfo { .. } => 0x12,
            Packet::FileListing { .. } => 0x20,
            Packet::FileRequest { .. } => 0x21,
            Packet::FileAction { .. } => 0x22,
            Packet::FileConsume { .. } => 0x23,
        }
    }
}

/// `p` queues exactly one event named `name` with string and boolean
/// arguments `args` (each a text view or a boolean).
pub open spec fn is_single_event(p: Packet, name: Seq<char>, args: Seq<Result<Seq<char>, bool>>) -> bool {
    &&& p matches Packet::TerminalEvents { events }
    &&& events.len() == 1
    &&& events[0].name@ == name
    &&& events[0].args.len() == args.len()
    &&& forall|i: int|
        0 <= i < args.len() ==> match (#[trigger] events[0].args[i], args[i]) {
            (EventArg::Str(s), Ok(t)) => s@ == t,
            (EventArg::Bool(b), Err(c)) => b == c,
            _ => false,
        }
}

/// A key press on the computer: `key_name` is the CC key identifier (such
/// as `"enter"` or `"a"`), `repeat` tells an auto-repeat.
pub fn key_event_packet(key_name: &str, repeat: bool) -> (p: Packet)
    ensures
        is_single_event(p, "cloud_catcher_key"@, seq![Ok(key_name@), Err(repeat)]),
{
    let args = vec![EventArg::Str(String::from_str(key_name)), EventArg::Bool(repeat)];
    Packet::TerminalEvents {
        events: vec![TerminalEvent { name: String::from_str("cloud_catcher_key"), args }],
    }
}

/// A key release on the computer.
pub fn key_up_packet(key_name: &str) -> (p: Packet)
    ensures
        is_single_event(p, "cloud_catcher_key_up"@, seq![Ok(key_name@)]),
{
    let args = vec![EventArg::Str(String::from_str(key_name))];
    Packet::TerminalEvents {
        events: vec![TerminalEvent { name: String::from_str("cloud_catcher_key_up"), args }],
    }
}

/// A typed character.
pub fn char_packet(ch: char) -> (p: Packet)
    ensures
        is_single_event(p, "char"@, seq![Ok(seq![ch])]),
{
    let mut s = String::new();
    push_char(&mut s, ch);
    let args = vec![EventArg::Str(s)];
    Packet::TerminalEvents { events: vec![TerminalEvent { name: String::from_str("char"), args }] }
}

} // verus!
