use samari_catcher::checksum::fletcher32;
use samari_catcher::diff::{compute_diff, fragments_from_changes, ChangeKind, Fragment};
use samari_catcher::text::{
    chars_of, i64_to_decimal, is_white_space_char, string_from_chars, text_le_exec,
    trim_trailing_whitespace, u64_to_decimal,
};

fn reference_trim(buffer: &str) -> String {
    let mut contents = buffer.lines().map(|l| l.trim_end()).collect::<Vec<_>>().join("\n");
    if buffer.ends_with('\n') && !contents.ends_with('\n') {
        contents.push('\n');
    }
    contents
}

fn apply(old: &str, delta: &[Fragment]) -> String {
    let chars: Vec<char> = old.chars().collect();
    let mut pos = 0;
    let mut out = String::new();
    for f in delta {
        match f {
            Fragment::Same { length } => {
                out.extend(&chars[pos..pos + length]);
                pos += length;
            }
            Fragment::Removed { length } => pos += length,
            Fragment::Added { contents } => out.push_str(contents),
        }
    }
    assert_eq!(pos, chars.len());
    out
}

#[test]
fn fletcher32_known_values() {
    assert_eq!(fletcher32(""), 0);
    assert_eq!(fletcher32("a"), 6357089);
    assert_eq!(fletcher32("abcde"), 4031760169);
    assert_eq!(fletcher32("print(1)\n"), 3248501385);
    assert_eq!(fletcher32("h\u{e9}llo"), 2465832830);
}

#[test]
fn white_space_matches_std() {
    for u in 0..=0x10FFFFu32 {
        if let Some(c) = char::from_u32(u) {
            assert_eq!(is_white_space_char(c), c.is_whitespace(), "{:#x}", u);
        }
    }
}

#[test]
fn text_order_matches_str_order() {
    let samples = ["", "a", "b", "ab", "abc", "B", "\u{e9}", "z", "\u{65e5}\u{672c}", "a\u{0}", "init.lua", "startup"];
    for a in samples {
        for b in samples {
            assert_eq!(text_le_exec(a, b), a <= b, "{:?} {:?}", a, b);
        }
    }
}

#[test]
fn trim_matches_lines_and_trim_end() {
    let samples = [
        "", "\n", "a", "a \n", "a\n\n", "a\n \n", "x = 1   \r\ny = 2\t\n", "no newline  ",
        "  lead\n\ttab\t", "\u{3000}wide\u{3000}\n", "a\r", "\r\n\r\n", "a\n b \n\n",
    ];
    for s in samples {
        assert_eq!(trim_trailing_whitespace(s), reference_trim(s), "{:?}", s);
    }
}

#[test]
fn trim_keeps_trailing_newline() {
    assert_eq!(trim_trailing_whitespace("print(1)   \nx = 2 \n"), "print(1)\nx = 2\n");
    assert_eq!(trim_trailing_whitespace("a  "), "a");
}

#[test]
fn decimal_notation() {
    assert_eq!(u64_to_decimal(0), "0");
    assert_eq!(u64_to_decimal(1234567890), "1234567890");
    assert_eq!(u64_to_decimal(u64::MAX), u64::MAX.to_string());
    assert_eq!(i64_to_decimal(-42), "-42");
    assert_eq!(i64_to_decimal(i64::MIN), i64::MIN.to_string());
}

#[test]
fn chars_round_trip() {
    let s = "h\u{e9}llo \u{65e5}";
    let v = chars_of(s);
    assert_eq!(v.len(), 7);
    assert_eq!(string_from_chars(&v), s);
}

#[test]
fn diff_replays_to_new_text() {
    let pairs = [
        ("", ""),
        ("ab", "b"),
        ("abc", "abc"),
        ("", "new file\n"),
        ("old", ""),
        ("print(1)\n", "print(2)\nprint(3)\n"),
        ("foobarbaz", "fooBARbaz"),
        ("h\u{e9}llo", "hallo w\u{f6}rld"),
    ];
    for (old, new) in pairs {
        let delta = compute_diff(old, new);
        assert_eq!(apply(old, &delta), new, "{:?} -> {:?}", old, new);
    }
}

#[test]
fn diff_of_single_change() {
    let delta = compute_diff("foobarbaz", "fooBARbaz");
    assert_eq!(delta.len(), 4);
    assert!(matches!(delta[0], Fragment::Same { length: 3 }));
    assert!(matches!(delta[1], Fragment::Removed { length: 3 }));
    assert!(matches!(&delta[2], Fragment::Added { contents } if contents == "BAR"));
    assert!(matches!(delta[3], Fragment::Same { length: 3 }));
}

#[test]
fn fragments_group_runs() {
    let changes = vec![
        (ChangeKind::Equal, "a".to_string()),
        (ChangeKind::Equal, "b".to_string()),
        (ChangeKind::Insert, "x".to_string()),
        (ChangeKind::Insert, "y".to_string()),
        (ChangeKind::Delete, "c".to_string()),
        (ChangeKind::Equal, "d".to_string()),
    ];
    let frags = fragments_from_changes(&changes);
    assert_eq!(frags.len(), 4);
    assert!(matches!(frags[0], Fragment::Same { length: 2 }));
    assert!(matches!(&frags[1], Fragment::Added { contents } if contents == "xy"));
    assert!(matches!(frags[2], Fragment::Removed { length: 1 }));
    assert!(matches!(frags[3], Fragment::Same { length: 1 }));
}
