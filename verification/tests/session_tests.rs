use samari_catcher::checksum::fletcher32;
use samari_catcher::diff::Fragment;
use samari_catcher::file_flags;
use samari_catcher::protocol::{
    FileActionEntry, FileConsumeEntry, FileConsumeResult, Packet, TerminalContents,
    ACTION_DELETE, ACTION_PATCH, ACTION_REPLACE,
};
use samari_catcher::session::{
    build_url, notification_id_string, sort_files, AiResult, AiState, AiStatus, FileModel,
    NotificationKind, Session, SessionEvent, SessionStatus,
};
use std::collections::HashMap;

fn replace(file: &str, contents: &str, checksum: u32, flags: u32) -> FileActionEntry {
    FileActionEntry {
        file: file.to_string(),
        checksum,
        flags,
        action: ACTION_REPLACE,
        contents: Some(contents.to_string()),
        delta: None,
    }
}

fn names(s: &Session) -> Vec<String> {
    s.files.iter().map(|f| f.name.clone()).collect()
}

fn file<'a>(s: &'a Session, name: &str) -> &'a FileModel {
    s.files.iter().find(|f| f.name == name).unwrap()
}

fn consume(file: &str, checksum: u32, result: FileConsumeResult) -> FileConsumeEntry {
    FileConsumeEntry { file: file.to_string(), checksum, result }
}

fn contents(width: u32, height: u32, cx: u32, cy: u32, text: &[&str]) -> TerminalContents {
    TerminalContents {
        width,
        height,
        cursor_x: cx,
        cursor_y: cy,
        cursor_blink: false,
        cur_fore: None,
        cur_back: Some("#123456".to_string()),
        palette: None,
        text: text.iter().map(|s| s.to_string()).collect(),
        fore: vec!["0f".to_string()],
        back: vec![],
    }
}

#[test]
fn new_session_is_connecting_and_empty() {
    let s = Session::new();
    assert!(matches!(s.status, SessionStatus::Connecting));
    assert!(s.files.is_empty());
    assert!(s.active_file.is_none());
    assert!(!s.has_connected);
    assert_eq!(s.terminal.width, 80);
    assert_eq!(s.terminal.height, 25);
    assert_eq!(s.terminal.text.len(), 25);
    assert_eq!(s.terminal.cursor_fore, "#ffffff");
    assert!(matches!(s.ai.status, AiStatus::Idle));
}

#[test]
fn replace_adds_files_in_name_order() {
    let mut s = Session::new();
    s.apply_file_actions(vec![
        replace("startup.lua", "print(1)", 0, file_flags::NEW),
        replace("a.lua", "x", 0, 0),
        replace("m.lua", "", 0, file_flags::READ_ONLY | file_flags::OPEN),
    ]);
    assert_eq!(names(&s), vec!["a.lua", "m.lua", "startup.lua"]);
    let f = file(&s, "startup.lua");
    assert!(f.is_new);
    assert!(!f.read_only);
    assert_eq!(f.remote_contents, "print(1)");
    assert_eq!(f.buffer, "print(1)");
    assert_eq!(f.remote_checksum, fletcher32("print(1)"));
    assert!(file(&s, "m.lua").read_only);
    assert_eq!(s.active_file.as_deref(), Some("m.lua"));
}

#[test]
fn replace_updates_when_checksum_matches() {
    let mut s = Session::new();
    s.apply_file_actions(vec![replace("f.lua", "one", 0, 0)]);
    let sum = file(&s, "f.lua").remote_checksum;
    s.push_notification(NotificationKind::Warn, &notification_id_string("f.lua", "update"), "x".to_string());
    s.apply_file_actions(vec![replace("f.lua", "two", sum, file_flags::READ_ONLY)]);
    let f = file(&s, "f.lua");
    assert_eq!(f.remote_contents, "two");
    assert_eq!(f.buffer, "two");
    assert!(f.read_only);
    assert_eq!(f.remote_checksum, fletcher32("two"));
    assert!(s.notifications.is_empty());
    assert_eq!(s.files.len(), 1);
}

#[test]
fn replace_warns_when_remote_changed() {
    let mut s = Session::new();
    s.apply_file_actions(vec![replace("f.lua", "one", 0, 0)]);
    s.apply_file_actions(vec![replace("f.lua", "two", 12345, 0)]);
    let f = file(&s, "f.lua");
    assert_eq!(f.remote_contents, "one");
    assert_eq!(s.notifications.len(), 1);
    assert_eq!(s.notifications[0].id, "f.lua\0update");
    assert_eq!(s.notifications[0].kind, NotificationKind::Warn);
    assert_eq!(s.notifications[0].message, "f.lua changed on the remote.");
    s.apply_file_actions(vec![replace("f.lua", "three", 999, file_flags::FORCE)]);
    assert_eq!(file(&s, "f.lua").remote_contents, "three");
    assert!(s.notifications.is_empty());
}

#[test]
fn replace_without_contents_is_empty_file() {
    let mut s = Session::new();
    let mut a = replace("e.lua", "", 0, 0);
    a.contents = None;
    s.apply_file_actions(vec![a]);
    assert_eq!(file(&s, "e.lua").buffer, "");
    assert_eq!(file(&s, "e.lua").remote_checksum, 0);
}

#[test]
fn delete_drops_file_and_closes_it() {
    let mut s = Session::new();
    s.apply_file_actions(vec![
        replace("a.lua", "x", 0, file_flags::OPEN),
        replace("b.lua", "y", 0, 0),
    ]);
    let del = FileActionEntry {
        file: "a.lua".to_string(),
        checksum: 0,
        flags: 0,
        action: ACTION_DELETE,
        contents: None,
        delta: None,
    };
    s.apply_file_actions(vec![del]);
    assert_eq!(names(&s), vec!["b.lua"]);
    assert!(s.active_file.is_none());
}

#[test]
fn patch_from_host_is_ignored() {
    let mut s = Session::new();
    s.apply_file_actions(vec![replace("a.lua", "x", 0, 0)]);
    let patch = FileActionEntry {
        file: "a.lua".to_string(),
        checksum: 0,
        flags: 0,
        action: ACTION_PATCH,
        contents: None,
        delta: Some(vec![Fragment::Removed { length: 1 }]),
    };
    s.apply_file_actions(vec![patch]);
    assert_eq!(file(&s, "a.lua").buffer, "x");
}

#[test]
fn save_of_new_file_is_replace() {
    let mut s = Session::new();
    s.apply_file_actions(vec![replace("n.lua", "", 0, file_flags::NEW)]);
    s.files[0].buffer = "print(1)  \n".to_string();
    let p = s.save_file("n.lua", true).unwrap();
    match p {
        Packet::FileAction { id, actions } => {
            assert_eq!(id, 0);
            assert_eq!(actions.len(), 1);
            assert_eq!(actions[0].file, "n.lua");
            assert_eq!(actions[0].action, ACTION_REPLACE);
            assert_eq!(actions[0].flags, 0);
            assert_eq!(actions[0].checksum, fletcher32(""));
            assert_eq!(actions[0].contents.as_deref(), Some("print(1)\n"));
            assert!(actions[0].delta.is_none());
        }
        other => panic!("unexpected {:?}", other),
    }
    let f = file(&s, "n.lua");
    assert_eq!(f.buffer, "print(1)\n");
    let pending = f.pending_update.as_ref().unwrap();
    assert_eq!(pending.contents, "print(1)\n");
    assert_eq!(pending.checksum, fletcher32("print(1)\n"));
}

#[test]
fn save_of_known_file_is_patch() {
    let mut s = Session::new();
    s.apply_file_actions(vec![replace("k.lua", "abc", 0, 0)]);
    s.files[0].buffer = "abXc ".to_string();
    let p = s.save_file("k.lua", false).unwrap();
    match p {
        Packet::FileAction { actions, .. } => {
            assert_eq!(actions[0].action, ACTION_PATCH);
            assert!(actions[0].contents.is_none());
            assert_eq!(actions[0].checksum, fletcher32("abc"));
            let delta = actions[0].delta.as_ref().unwrap();
            assert!(!delta.is_empty());
        }
        other => panic!("unexpected {:?}", other),
    }
    assert_eq!(file(&s, "k.lua").buffer, "abXc ");
}

#[test]
fn save_of_read_only_or_missing_file_sends_nothing() {
    let mut s = Session::new();
    s.apply_file_actions(vec![replace("r.lua", "x", 0, file_flags::READ_ONLY)]);
    s.files[0].buffer = "changed".to_string();
    assert!(s.save_file("r.lua", true).is_none());
    assert!(s.files[0].pending_update.is_none());
    assert!(s.save_file("missing.lua", true).is_none());
    assert!(s.save_active(true).is_none());
}

#[test]
fn accepted_save_clears_modified() {
    let mut s = Session::new();
    s.apply_file_actions(vec![replace("f.lua", "a", 0, file_flags::OPEN)]);
    s.files[0].buffer = "a  \nb\n".to_string();
    assert!(s.files[0].modified());
    let _ = s.save_active(true).unwrap();
    let sum = s.files[0].pending_update.as_ref().unwrap().checksum;
    s.apply_file_consume(vec![consume("f.lua", sum, FileConsumeResult::Accepted)]);
    let f = file(&s, "f.lua");
    assert!(!f.modified());
    assert_eq!(f.remote_contents, "a\nb\n");
    assert_eq!(f.remote_checksum, sum);
    assert!(f.pending_update.is_none());
}

#[test]
fn consume_with_other_checksum_warns() {
    let mut s = Session::new();
    s.apply_file_actions(vec![replace("f.lua", "a", 0, 0)]);
    s.files[0].buffer = "b".to_string();
    let _ = s.save_file("f.lua", false);
    s.apply_file_consume(vec![consume("f.lua", 1, FileConsumeResult::Accepted)]);
    let f = file(&s, "f.lua");
    assert!(f.pending_update.is_none());
    assert_eq!(f.remote_contents, "a");
    assert_eq!(s.notifications[0].message, "f.lua changed on the remote.");
}

#[test]
fn rejected_and_failed_saves_are_reported() {
    let mut s = Session::new();
    s.apply_file_actions(vec![replace("f.lua", "a", 0, 0)]);
    s.apply_file_consume(vec![consume("f.lua", 0, FileConsumeResult::Reject)]);
    assert_eq!(s.notifications.len(), 1);
    assert_eq!(s.notifications[0].kind, NotificationKind::Error);
    assert_eq!(s.notifications[0].message, "f.lua couldn't be saved (remote was changed).");
    s.apply_file_consume(vec![consume("f.lua", 0, FileConsumeResult::Failure)]);
    assert_eq!(s.notifications.len(), 1);
    assert_eq!(s.notifications[0].message, "f.lua failed to save (read only?).");
    s.apply_file_consume(vec![consume("other.lua", 0, FileConsumeResult::Failure)]);
    assert_eq!(s.notifications.len(), 1);
}

#[test]
fn push_replaces_same_id_and_remove_undoes_it() {
    let mut s = Session::new();
    s.push_notification(NotificationKind::Warn, "abuse", "first".to_string());
    s.push_notification(NotificationKind::Error, "a.lua\0update", "x".to_string());
    s.push_notification(NotificationKind::Warn, "abuse", "second".to_string());
    assert_eq!(s.notifications.len(), 2);
    assert_eq!(s.notifications[1].message, "second");
    s.remove_notification("a.lua", "update");
    assert_eq!(s.notifications.len(), 1);
    assert_eq!(s.notifications[0].id, "abuse");
}

#[test]
fn ping_is_echoed() {
    let mut s = Session::new();
    let reply = s.handle_packet(Packet::ConnectionPing);
    assert!(matches!(reply, Some(Packet::ConnectionPing)));
}

#[test]
fn connection_updates_drive_status() {
    let mut s = Session::new();
    let (changed, replies) = s.pump(vec![SessionEvent::Connected], None);
    assert!(changed);
    assert!(replies.is_empty());
    assert!(matches!(s.status, SessionStatus::Waiting));
    let up = |caps: &[&str]| Packet::ConnectionUpdate {
        clients: 1,
        capabilities: caps.iter().map(|c| c.to_string()).collect(),
    };
    s.handle_packet(up(&["file:edit"]));
    assert!(matches!(s.status, SessionStatus::Waiting));
    s.handle_packet(Packet::TerminalInfo { id: Some(7), label: Some("base".to_string()) });
    s.handle_packet(up(&["file:host", "terminal:host"]));
    assert!(matches!(s.status, SessionStatus::Connected));
    assert!(s.has_connected);
    s.handle_packet(up(&[]));
    assert!(matches!(s.status, SessionStatus::LostConnection));
    assert!(s.info.label.is_none() && s.info.computer_id.is_none());
}

#[test]
fn closed_before_and_after_host() {
    let mut s = Session::new();
    s.pump(vec![SessionEvent::Closed("bye".to_string())], None);
    assert!(matches!(&s.status, SessionStatus::Errored(r) if r == "bye"));
    let mut t = Session::new();
    t.has_connected = true;
    t.pump(vec![SessionEvent::Closed("bye".to_string())], None);
    assert!(matches!(t.status, SessionStatus::LostConnection));
    t.pump(vec![SessionEvent::Error("boom".to_string())], None);
    assert!(matches!(&t.status, SessionStatus::Errored(r) if r == "boom"));
}

#[test]
fn pump_echoes_pings_and_reports_change() {
    let mut s = Session::new();
    let (changed, replies) = s.pump(vec![], None);
    assert!(!changed);
    assert!(replies.is_empty());
    let (changed, replies) = s.pump(
        vec![
            SessionEvent::Packet(Packet::ConnectionPing),
            SessionEvent::Packet(Packet::ConnectionAbuse { message: "slow down".to_string() }),
            SessionEvent::Packet(Packet::ConnectionPing),
        ],
        None,
    );
    assert!(changed);
    assert_eq!(replies.len(), 2);
    assert_eq!(s.notifications[0].id, "abuse");
    assert_eq!(s.notifications[0].message, "slow down");
}

#[test]
fn ai_edit_lifecycle() {
    let mut s = Session::new();
    let prompt = s.start_ai_edit("add x", "a.lua", "print(1)").unwrap();
    assert_eq!(
        prompt,
        "File path: a.lua\n\n=== BEGIN current contents ===\nprint(1)\n=== END current contents ===\n\nInstruction:\nadd x\n\nReply with the new file contents only."
    );
    assert!(matches!(s.ai.status, AiStatus::Running));
    assert!(s.start_ai_edit("again", "a.lua", "").is_none());
    s.apply_file_actions(vec![replace("a.lua", "print(1)", 0, file_flags::OPEN)]);
    let (changed, _) = s.pump(vec![], Some(AiResult::Done("print(2)".to_string())));
    assert_eq!(file(&s, "a.lua").buffer, "print(1)");
    assert!(changed);
    assert!(matches!(s.ai.status, AiStatus::Idle));
    assert_eq!(s.ai.last_result.as_deref(), Some("print(2)"));
    let _ = s.start_ai_edit("more", "a.lua", "").unwrap();
    assert!(s.ai.last_result.is_none());
    s.pump(vec![], Some(AiResult::Failed("down".to_string())));
    assert!(matches!(&s.ai.status, AiStatus::Error(m) if m == "down"));
}

#[test]
fn generate_instruction_is_trimmed_prompt() {
    let mut ai = AiState { prompt: "  add a loop \n".to_string(), status: AiStatus::Idle, last_result: None };
    assert_eq!(ai.generate_instruction().as_deref(), Some("add a loop"));
    ai.prompt = " \t\n".to_string();
    assert!(ai.generate_instruction().is_none());
    ai.prompt = "x".to_string();
    ai.status = AiStatus::Running;
    assert!(ai.generate_instruction().is_none());
}

#[test]
fn terminal_contents_are_clamped() {
    let mut s = Session::new();
    s.apply_terminal_contents(contents(3, 0, 10, 0, &["abcdefgh", "zz"]));
    let t = &s.terminal;
    assert_eq!(t.width, 3);
    assert_eq!(t.height, 1);
    assert_eq!(t.text, vec!["abcdef"]);
    assert_eq!(t.fore, vec!["0f"]);
    assert_eq!(t.back, vec![""]);
    assert_eq!(t.cursor_x, 2);
    assert_eq!(t.cursor_y, 0);
    assert_eq!(t.cursor_fore, "#ffffff");
    assert_eq!(t.cursor_back, "#123456");
    s.apply_terminal_contents(contents(500, 300, 2, 3, &[]));
    assert_eq!(s.terminal.width, 200);
    assert_eq!(s.terminal.height, 100);
    assert_eq!(s.terminal.text.len(), 100);
    assert_eq!(s.terminal.cursor_x, 1);
    assert_eq!(s.terminal.cursor_y, 2);
}

#[test]
fn terminal_palette_is_kept_until_replaced() {
    let mut s = Session::new();
    let mut c = contents(51, 19, 1, 1, &["hi"]);
    let mut pal = HashMap::new();
    pal.insert("0".to_string(), 0xF0F0F0u32);
    c.palette = Some(pal);
    s.apply_terminal_contents(c);
    s.apply_terminal_contents(contents(51, 19, 1, 1, &["hi"]));
    assert_eq!(s.terminal.palette.as_ref().unwrap().get("0"), Some(&0xF0F0F0));
}

#[test]
fn sort_is_stable_by_name() {
    let mk = |n: &str, c: &str| FileModel {
        name: n.to_string(),
        read_only: false,
        is_new: false,
        remote_contents: c.to_string(),
        remote_checksum: 0,
        buffer: c.to_string(),
        pending_update: None,
    };
    let files = vec![mk("b", "1"), mk("a", "2"), mk("b", "3"), mk("A", "4"), mk("a", "5")];
    let mut expected = files.clone();
    expected.sort_by(|x, y| x.name.cmp(&y.name));
    let sorted = sort_files(files);
    let got: Vec<(String, String)> = sorted.iter().map(|f| (f.name.clone(), f.buffer.clone())).collect();
    let want: Vec<(String, String)> = expected.iter().map(|f| (f.name.clone(), f.buffer.clone())).collect();
    assert_eq!(got, want);
}

#[test]
fn urls_for_prod_and_dev() {
    assert_eq!(
        build_url("abc", "cc.minecartchris.cc", false),
        "wss://cc.minecartchris.cc/connect?id=abc&capabilities=file:edit,terminal:view"
    );
    assert_eq!(
        build_url("abc", "ignored", true),
        "ws://localhost:8080/connect?id=abc&capabilities=file:edit,terminal:view"
    );
}

#[test]
fn system_prompt_asks_for_file_contents_only() {
    let p = samari_catcher::session::ai_system_prompt();
    assert!(p.starts_with("You are a code editor assistant for ComputerCraft Lua"));
    assert!(p.contains("Reply with the COMPLETE new contents of the file"));
    assert!(p.ends_with("anything else will be written into their file verbatim."));
}
