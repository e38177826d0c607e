//! The pure parts of the terminal view: colour codes, key names and the
//! status line above the screen.

use crate::protocol::{is_single_event, key_event_packet, key_up_packet, Packet};
use crate::session::{SessionInfo, SessionStatus, StatusView};
use crate::text::{i64_to_decimal, signed_decimal};
use vstd::prelude::*;
use vstd::string::StrSliceExecFns;
use vstd::string::StringExecFns;
use vstd::string::StringSliceAdditionalSpecFns;

verus! {

/// A colour as red, green and blue.
#[derive(Clone, Copy, Debug, PartialEq, Eq, Structural)]
pub struct Rgb {
    pub r: u8,
    pub g: u8,
    pub b: u8,
}

pub open spec fn rgb(r: u8, g: u8, b: u8) -> Rgb {
    Rgb { r, g, b }
}

/// ComputerCraft's default palette, by colour code (`'0'..='f'`, either
/// case); unknown codes are drawn white.
pub open spec fn default_palette_spec(code: char) -> Rgb {
    if code == '0' { rgb(240, 240, 240) }
    else if code == '1' { rgb(242, 178, 51) }
    else if code == '2' { rgb(229, 127, 216) }
    else if code == '3' { rgb(153, 178, 242) }
    else if code == '4' { rgb(222, 222, 108) }
    else if code == '5' { rgb(127, 204, 25) }
    else if code == '6' { rgb(242, 178, 204) }
    else if code == '7' { rgb(76, 76, 76) }
    else if code == '8' { rgb(153, 153, 153) }
    else if code == '9' { rgb(76, 153, 178) }
    else if code == 'a' || code == 'A' { rgb(178, 102, 229) }
    else if code == 'b' || code == 'B' { rgb(37, 49, 146) }
    else if code == 'c' || code == 'C' { rgb(127, 102, 76) }
    else if code == 'd' || code == 'D' { rgb(87, 166, 78) }
    else if code == 'e' || code == 'E' { rgb(204, 76, 76) }
    else if code == 'f' || code == 'F' { rgb(17, 17, 17) }
    else { rgb(240, 240, 240) }
}

/// The colour of a palette code when the host has sent no palette.
pub fn default_palette(code: char) -> (c: Rgb)
    ensures
        c == default_palette_spec(code),
{
    match code {
        '0' => Rgb { r: 240, g: 240, b: 240 },
        '1' => Rgb { r: 242, g: 178, b: 51 },
        '2' => Rgb { r: 229, g: 127, b: 216 },
        '3' => Rgb { r: 153, g: 178, b: 242 },
        '4' => Rgb { r: 222, g: 222, b: 108 },
        '5' => Rgb { r: 127, g: 204, b: 25 },
        '6' => Rgb { r: 242, g: 178, b: 204 },
        '7' => Rgb { r: 76, g: 76, b: 76 },
        '8' => Rgb { r: 153, g: 153, b: 153 },
        '9' => Rgb { r: 76, g: 153, b: 178 },
        'a' | 'A' => Rgb { r: 178, g: 102, b: 229 },
        'b' | 'B' => Rgb { r: 37, g: 49, b: 146 },
        'c' | 'C' => Rgb { r: 127, g: 102, b: 76 },
        'd' | 'D' => Rgb { r: 87, g: 166, b: 78 },
        'e' | 'E' => Rgb { r: 204, g: 76, b: 76 },
        'f' | 'F' => Rgb { r: 17, g: 17, b: 17 },
        _ => Rgb { r: 240, g: 240, b: 240 },
    }
}

/// Palette codes are read without regard to case.
pub proof fn lemma_palette_ignores_case()
    ensures
        default_palette_spec('A') == default_palette_spec('a'),
        default_palette_spec('B') == default_palette_spec('b'),
        default_palette_spec('C') == default_palette_spec('c'),
        default_palette_spec('D') == default_palette_spec('d'),
        default_palette_spec('E') == default_palette_spec('e'),
        default_palette_spec('F') == default_palette_spec('f'),
{
}

/// The colour code of cell `index` of a row of colour codes: none for a row
/// without codes; else the code at `index`, or at the row's last byte
/// position when `index` is past it (positions count characters, the last
/// one is taken from the byte length), or black (`'f'`) when that position
/// is past the last character.
pub open spec fn cell_code_spec(color: Seq<char>, byte_len: nat, index: nat) -> Option<char> {
    if color.len() == 0 {
        None
    } else {
        let last: nat = if byte_len > 0 {
            (byte_len - 1) as nat
        } else {
            0
        };
        let k = if index < last {
            index
        } else {
            last
        };
        Some(
            if k < color.len() {
                color[k as int]
            } else {
                'f'
            },
        )
    }
}

/// In a row of one-byte colour codes, each cell inside the row takes the code
/// at its own position and each cell past the row takes the row's last code;
/// a row without codes gives none.
pub proof fn lemma_cell_code_of_ascii_row(color: &str, index: nat)
    requires
        vstd::string::is_ascii(color),
    ensures
        color@.len() == 0 ==> cell_code_spec(color@, color.spec_bytes().len(), index) is None,
        index < color@.len() ==> cell_code_spec(color@, color.spec_bytes().len(), index) == Some(
            color@[index as int],
        ),
        0 < color@.len() <= index ==> cell_code_spec(color@, color.spec_bytes().len(), index)
            == Some(color@.last()),
{
    broadcast use vstd::string::is_ascii_spec_bytes;

    assert(color.spec_bytes().len() == color@.len());
}

/// The colour of cell `index` of a row of colour codes when the host sent
/// no palette: light grey for a row without codes, else the default palette
/// colour of the cell's code.
pub open spec fn parse_cc_color_spec(color: Seq<char>, byte_len: nat, index: nat) -> Rgb {
    match cell_code_spec(color, byte_len, index) {
        None => rgb(240, 240, 240),
        Some(code) => default_palette_spec(code),
    }
}

/// The colour code of cell `index` of a row of colour codes.
pub fn cell_code(color: &str, index: usize) -> (r: Option<char>)
    ensures
        r == cell_code_spec(color@, color.spec_bytes().len(), index as nat),
{
    let n = color.unicode_len();
    if n == 0 {
        return None;
    }
    let byte_len = color.as_bytes().len();
    let last = if byte_len > 0 {
        byte_len - 1
    } else {
        0
    };
    let k = if index < last {
        index
    } else {
        last
    };
    if k < n {
        Some(color.get_char(k))
    } else {
        Some('f')
    }
}

/// The colour of cell `index` of a row of colour codes, from the default
/// palette.
pub fn parse_cc_color(color: &str, index: usize) -> (c: Rgb)
    ensures
        c == parse_cc_color_spec(color@, color.spec_bytes().len(), index as nat),
{
    match cell_code(color, index) {
        None => Rgb { r: 240, g: 240, b: 240 },
        Some(code) => default_palette(code),
    }
}

/// A packed `0x00RRGGBB` palette entry as a colour.
pub open spec fn unpack_rgb(v: u32) -> Rgb {
    rgb(((v >> 16u32) & 0xffu32) as u8, ((v >> 8u32) & 0xffu32) as u8, (v & 0xffu32) as u8)
}

/// The colour of `code`: the host's palette entry for it when the host sent
/// one (`entry`), else the default palette.
pub fn palette_color(entry: Option<u32>, code: char) -> (c: Rgb)
    ensures
        c == match entry {
            Some(v) => unpack_rgb(v),
            None => default_palette_spec(code),
        },
{
    match entry {
        Some(v) => Rgb {
            r: ((v >> 16u32) & 0xffu32) as u8,
            g: ((v >> 8u32) & 0xffu32) as u8,
            b: (v & 0xffu32) as u8,
        },
        None => default_palette(code),
    }
}

/// Keys of the keyboard that the terminal forwards by name.
#[derive(Clone, Copy, Debug, PartialEq, Eq, Structural)]
pub enum TermKey {
    Enter,
    Backspace,
    Tab,
    Escape,
    ArrowUp,
    ArrowDown,
    ArrowLeft,
    ArrowRight,
    Home,
    End,
    PageUp,
    PageDown,
    Insert,
    Delete,
    F1,
    F2,
    F3,
    F4,
    F5,
    F6,
    F7,
    F8,
    F9,
    F10,
    F11,
    F12,
    /// Any other key: typed characters reach the computer as text.
    Other,
}

/// The ComputerCraft name of a forwarded key.
pub open spec fn cc_key_name(key: TermKey) -> Option<Seq<char>> {
    match key {
        TermKey::Enter => Some("enter"@),
        TermKey::Backspace => Some("backspace"@),
        TermKey::Tab => Some("tab"@),
        TermKey::Escape => Some("escape"@),
        TermKey::ArrowUp => Some("up"@),
        TermKey::ArrowDown => Some("down"@),
        TermKey::ArrowLeft => Some("left"@),
        TermKey::ArrowRight => Some("right"@),
        TermKey::Home => Some("home"@),
        TermKey::End => Some("end"@),
        TermKey::PageUp => Some("pageup"@),
        TermKey::PageDown => Some("pagedown"@),
        TermKey::Insert => Some("insert"@),
        TermKey::Delete => Some("delete"@),
        TermKey::F1 => Some("f1"@),
        TermKey::F2 => Some("f2"@),
        TermKey::F3 => Some("f3"@),
        TermKey::F4 => Some("f4"@),
        TermKey::F5 => Some("f5"@),
        TermKey::F6 => Some("f6"@),
        TermKey::F7 => Some("f7"@),
        TermKey::F8 => Some("f8"@),
        TermKey::F9 => Some("f9"@),
        TermKey::F10 => Some("f10"@),
        TermKey::F11 => Some("f11"@),
        TermKey::F12 => Some("f12"@),
        TermKey::Other => None,
    }
}

/// The ComputerCraft name of `key`, if it is forwarded.
pub fn map_key_to_cc(key: TermKey) -> (r: Option<&'static str>)
    ensures
        match (r, cc_key_name(key)) {
            (Some(n), Some(m)) => n@ == m,
            (None, None) => true,
            _ => false,
        },
{
    match key {
        TermKey::Enter => Some("enter"),
        TermKey::Backspace => Some("backspace"),
        TermKey::Tab => Some("tab"),
        TermKey::Escape => Some("escape"),
        TermKey::ArrowUp => Some("up"),
        TermKey::ArrowDown => Some("down"),
        TermKey::ArrowLeft => Some("left"),
        TermKey::ArrowRight => Some("right"),
        TermKey::Home => Some("home"),
        TermKey::End => Some("end"),
        TermKey::PageUp => Some("pageup"),
        TermKey::PageDown => Some("pagedown"),
        TermKey::Insert => Some("insert"),
        TermKey::Delete => Some("delete"),
        TermKey::F1 => Some("f1"),
        TermKey::F2 => Some("f2"),
        TermKey::F3 => Some("f3"),
        TermKey::F4 => Some("f4"),
        TermKey::F5 => Some("f5"),
        TermKey::F6 => Some("f6"),
        TermKey::F7 => Some("f7"),
        TermKey::F8 => Some("f8"),
        TermKey::F9 => Some("f9"),
        TermKey::F10 => Some("f10"),
        TermKey::F11 => Some("f11"),
        TermKey::F12 => Some("f12"),
        TermKey::Other => None,
    }
}

/// The packet a key press or release of `key` sends: a key event (with its
/// auto-repeat flag) on press, a key release otherwise; nothing for keys that
/// are not forwarded by name.
pub fn key_packet(key: TermKey, pressed: bool, repeat: bool) -> (r: Option<Packet>)
    ensures
        r is None <==> cc_key_name(key) is None,
        r matches Some(p) ==> (cc_key_name(key) matches Some(name) && if pressed {
            is_single_event(p, "cloud_catcher_key"@, seq![Ok(name), Err(repeat)])
        } else {
            is_single_event(p, "cloud_catcher_key_up"@, seq![Ok(name)])
        }),
{
    match map_key_to_cc(key) {
        None => None,
        Some(name) => if pressed {
            Some(key_event_packet(name, repeat))
        } else {
            Some(key_up_packet(name))
        },
    }
}

/// Whether a typed character is sent to the computer: printable ones are,
/// control characters and DEL are not.
pub fn forwards_char(ch: char) -> (r: bool)
    ensures
        r == (ch >= ' ' && ch != '\u{7f}'),
{
    ch >= ' ' && ch != '\u{7f}'
}

/// The status shown above the screen; `None` when the connection failed,
/// which is shown as an error instead.
pub fn status_label(status: &SessionStatus) -> (r: Option<&'static str>)
    ensures
        match status@ {
            StatusView::Connecting => r matches Some(t) && t@ == "Connecting..."@,
            StatusView::Waiting => r matches Some(t) && t@ == "Waiting for computer..."@,
            StatusView::Connected => r matches Some(t) && t@ == "Connected"@,
            StatusView::LostConnection => r matches Some(t) && t@ == "Lost connection"@,
            StatusView::Errored(_) => r is None,
        },
{
    match status {
        SessionStatus::Connecting => Some("Connecting..."),
        SessionStatus::Waiting => Some("Waiting for computer..."),
        SessionStatus::Connected => Some("Connected"),
        SessionStatus::LostConnection => Some("Lost connection"),
        SessionStatus::Errored(_) => None,
    }
}

/// How the computer is named above the screen.
pub open spec fn computer_label_spec(id: Option<i64>, label: Option<Seq<char>>) -> Seq<char> {
    match label {
        Some(l) => l + " (Computer #"@ + signed_decimal(
            match id {
                Some(i) => i as int,
                None => 0,
            },
        ) + ")"@,
        None => match id {
            Some(i) => "Computer #"@ + signed_decimal(i as int),
            None => "Computer"@,
        },
    }
}

/// How the computer is named above the screen: its label and number, its
/// number, or just "Computer".
pub fn computer_label(info: &SessionInfo) -> (r: String)
    ensures
        r@ == computer_label_spec(info@.computer_id, info@.label),
{
    match &info.label {
        Some(l) => {
            let id = match info.computer_id {
                Some(i) => i,
                None => 0,
            };
            let mut s = l.clone();
            s.append(" (Computer #");
            let digits = i64_to_decimal(id);
            s.append(digits.as_str());
            s.append(")");
            s
        },
        None => match info.computer_id {
            Some(i) => {
                let mut s = String::from_str("Computer #");
                let digits = i64_to_decimal(i);
                s.append(digits.as_str());
                s
            },
            None => String::from_str("Computer"),
        },
    }
}

} // verus!
