use samari_catcher::connection::{ws_step, WsInput, WsOutput};
use samari_catcher::session::SessionEvent;
use samari_catcher::token::check_token;
use samari_catcher::protocol::{char_packet, key_event_packet, key_up_packet, EventArg, Packet};
use samari_catcher::session::{SessionInfo, SessionStatus};
use samari_catcher::settings::{
    default_dark_mode, default_ollama_model, default_ollama_url, default_server_host,
    default_trim_whitespace, theme_name,
};
use samari_catcher::terminal::{
    cell_code, computer_label, default_palette, forwards_char, key_packet, map_key_to_cc,
    palette_color, parse_cc_color, status_label,
    Rgb, TermKey,
};

fn rgb(r: u8, g: u8, b: u8) -> Rgb {
    Rgb { r, g, b }
}

#[test]
fn settings_defaults() {
    assert!(default_dark_mode());
    assert!(default_trim_whitespace());
    assert_eq!(default_server_host(), "cc.minecartchris.cc");
    assert_eq!(default_ollama_url(), "http://localhost:11434");
    assert_eq!(default_ollama_model(), "qwen2.5-coder:7b");
    assert_eq!(theme_name(true), "base16-ocean.dark");
    assert_eq!(theme_name(false), "InspiredGitHub");
}

#[test]
fn palette_is_case_insensitive() {
    assert_eq!(default_palette('0'), rgb(240, 240, 240));
    assert_eq!(default_palette('e'), rgb(204, 76, 76));
    assert_eq!(default_palette('E'), rgb(204, 76, 76));
    assert_eq!(default_palette('f'), rgb(17, 17, 17));
    assert_eq!(default_palette('z'), rgb(240, 240, 240));
}

#[test]
fn cell_colours() {
    assert_eq!(parse_cc_color("", 3), rgb(240, 240, 240));
    assert_eq!(parse_cc_color("0e", 1), rgb(204, 76, 76));
    assert_eq!(parse_cc_color("0e", 9), rgb(204, 76, 76));
    assert_eq!(parse_cc_color("f", 0), rgb(17, 17, 17));
    assert_eq!(parse_cc_color("F", 0), default_palette('f'));
    assert_eq!(parse_cc_color("1B", 1), rgb(37, 49, 146));
    // The last byte position of a multi-byte row lies past its characters.
    assert_eq!(parse_cc_color("\u{e9}", 5), rgb(17, 17, 17));
}

#[test]
fn key_names() {
    assert_eq!(map_key_to_cc(TermKey::Enter), Some("enter"));
    assert_eq!(map_key_to_cc(TermKey::ArrowLeft), Some("left"));
    assert_eq!(map_key_to_cc(TermKey::F12), Some("f12"));
    assert_eq!(map_key_to_cc(TermKey::Other), None);
    assert!(forwards_char('a'));
    assert!(!forwards_char('\u{7f}'));
    assert!(!forwards_char('\n'));
}

#[test]
fn status_and_computer_labels() {
    assert_eq!(status_label(&SessionStatus::Waiting), Some("Waiting for computer..."));
    assert_eq!(status_label(&SessionStatus::Errored("x".to_string())), None);
    let info = SessionInfo { computer_id: Some(12), label: Some("base".to_string()) };
    assert_eq!(computer_label(&info), "base (Computer #12)");
    let info = SessionInfo { computer_id: None, label: Some("base".to_string()) };
    assert_eq!(computer_label(&info), "base (Computer #0)");
    let info = SessionInfo { computer_id: Some(-3), label: None };
    assert_eq!(computer_label(&info), "Computer #-3");
    let info = SessionInfo { computer_id: None, label: None };
    assert_eq!(computer_label(&info), "Computer");
}

#[test]
fn key_and_char_packets() {
    match key_event_packet("enter", true) {
        Packet::TerminalEvents { events } => {
            assert_eq!(events.len(), 1);
            assert_eq!(events[0].name, "cloud_catcher_key");
            assert!(matches!(&events[0].args[0], EventArg::Str(s) if s == "enter"));
            assert!(matches!(events[0].args[1], EventArg::Bool(true)));
        }
        other => panic!("unexpected {:?}", other),
    }
    match key_up_packet("a") {
        Packet::TerminalEvents { events } => {
            assert_eq!(events[0].name, "cloud_catcher_key_up");
            assert_eq!(events[0].args.len(), 1);
        }
        other => panic!("unexpected {:?}", other),
    }
    match char_packet('\u{e9}') {
        Packet::TerminalEvents { events } => {
            assert_eq!(events[0].name, "char");
            assert!(matches!(&events[0].args[0], EventArg::Str(s) if s == "\u{e9}"));
        }
        other => panic!("unexpected {:?}", other),
    }
    assert_eq!(Packet::ConnectionPing.code(), 2);
    assert_eq!(key_up_packet("a").code(), 0x11);
}

#[test]
fn key_press_and_release_packets() {
    match key_packet(TermKey::Enter, true, true) {
        Some(Packet::TerminalEvents { events }) => {
            assert_eq!(events[0].name, "cloud_catcher_key");
            assert!(matches!(&events[0].args[0], EventArg::Str(s) if s == "enter"));
            assert!(matches!(events[0].args[1], EventArg::Bool(true)));
        }
        other => panic!("unexpected {:?}", other),
    }
    match key_packet(TermKey::ArrowUp, false, false) {
        Some(Packet::TerminalEvents { events }) => {
            assert_eq!(events[0].name, "cloud_catcher_key_up");
            assert!(matches!(&events[0].args[0], EventArg::Str(s) if s == "up"));
        }
        other => panic!("unexpected {:?}", other),
    }
    assert!(key_packet(TermKey::Other, true, false).is_none());
}

#[test]
fn token_shape() {
    assert!(check_token("abcdefghijklmnopqrstuvwxyzABCD01"));
    assert!(!check_token("abcdefghijklmnopqrstuvwxyzABCD0"));
    assert!(!check_token("abcdefghijklmnopqrstuvwxyzABCD0-"));
    assert!(!check_token("abcdefghijklmnopqrstuvwxyzABCD0\u{e9}"));
    assert!(!check_token(""));
}

#[test]
fn ws_run_keeps_order_and_stops_at_close() {
    let inputs = vec![
        WsInput::Text(Some(Packet::ConnectionPing)),
        WsInput::Outbound("a".to_string()),
        WsInput::Text(None),
        WsInput::Ping(vec![1, 2]),
        WsInput::KeepAlive,
        WsInput::Text(Some(Packet::ConnectionAbuse { message: "m".to_string() })),
        WsInput::Close(None),
        WsInput::Outbound("late".to_string()),
    ];
    let mut events = Vec::new();
    let mut writes = Vec::new();
    for input in inputs {
        let step = ws_step(input);
        events.extend(step.event);
        writes.extend(step.output);
        if step.stop {
            break;
        }
    }
    assert_eq!(events.len(), 3);
    assert!(matches!(events[0], SessionEvent::Packet(Packet::ConnectionPing)));
    assert!(matches!(&events[1], SessionEvent::Packet(Packet::ConnectionAbuse { message }) if message == "m"));
    assert!(matches!(&events[2], SessionEvent::Closed(r) if r.is_empty()));
    assert_eq!(writes.len(), 3);
    assert!(matches!(&writes[0], WsOutput::Text(s) if s == "a"));
    assert!(matches!(&writes[1], WsOutput::Pong(d) if d == &vec![1, 2]));
    assert!(matches!(writes[2], WsOutput::PingPacket));
}

#[test]
fn host_palette_comes_first() {
    assert_eq!(cell_code("", 0), None);
    assert_eq!(cell_code("0e", 1), Some('e'));
    assert_eq!(cell_code("0e", 7), Some('e'));
    assert_eq!(palette_color(Some(0x00123456), 'e'), rgb(0x12, 0x34, 0x56));
    assert_eq!(palette_color(None, 'e'), rgb(204, 76, 76));
}
