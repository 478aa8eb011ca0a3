use gossip_chat::display::{draw_record, hex_to_color, Display, Line};
use gossip_chat::editor::{Edit, Editor};
use gossip_chat::record::Record;

fn sys(ts: i64, body: &str) -> Record {
    Record::System { timestamp: ts, body: body.as_bytes().to_vec() }
}

fn bodies(lines: &[Line]) -> Vec<String> {
    lines
        .iter()
        .map(|l| match l {
            Line::System { body, .. } => body.clone(),
            Line::User { body, .. } => body.clone(),
        })
        .collect()
}

#[test]
fn page_shows_newest_records() {
    let log: Vec<Record> = (0..10).map(|i| sys(i, &format!("m{}", i))).collect();
    let d = Display::new((80, 5));
    let lines = d.draw_log(&log, 0);
    assert_eq!(bodies(&lines), vec!["m6", "m7", "m8", "m9"]);
    let lines = d.draw_log(&log, 6);
    assert_eq!(bodies(&lines), vec!["m0", "m1", "m2", "m3"]);
    let lines = d.draw_log(&log, 50);
    assert_eq!(bodies(&lines), vec!["m0", "m1", "m2", "m3"]);
}

#[test]
fn page_with_few_records() {
    let log: Vec<Record> = (0..2).map(|i| sys(i, &format!("m{}", i))).collect();
    let d = Display::new((80, 24));
    assert_eq!(bodies(&d.draw_log(&log, 0)), vec!["m0", "m1"]);
    assert_eq!(Display::new((80, 1)).draw_log(&log, 0).len(), 0);
    assert_eq!(Display::new((80, 0)).draw_log(&log, 0).len(), 0);
}

#[test]
fn prompt_line() {
    let d = Display::new((80, 24));
    let p = d.draw_msg(&vec!['h', 'i'], 1);
    assert_eq!(p.row, 23);
    assert_eq!(p.text, vec![' ', '>', ' ', 'h', 'i']);
    assert_eq!(p.column, 4);
    let f = d.draw(&vec!['h', 'i'], &vec![sys(0, "x")], 2, 0);
    assert_eq!(f.lines.len(), 1);
    assert_eq!(f.prompt.column, 5);
}

#[test]
fn record_lines() {
    match draw_record(&sys(0, "boot")) {
        Line::System { time, body } => {
            assert_eq!(time.as_deref(), Some("01/01/70 00:00:00"));
            assert_eq!(body, "boot");
        }
        other => panic!("unexpected {:?}", other),
    }
    let r = Record::User {
        timestamp: 86_400 + 3_661,
        color: *b"10ff0A",
        username: b"eve".to_vec(),
        body: vec![b'o', b'k', 0xff],
    };
    match draw_record(&r) {
        Line::User { time, name, color, body } => {
            assert_eq!(time.as_deref(), Some("01/02/70 01:01:01"));
            assert_eq!(name, "eve");
            assert_eq!(color, Some((0x10, 0xff, 0x0a)));
            assert_eq!(body, "ok\u{fffd}");
        }
        other => panic!("unexpected {:?}", other),
    }
    match draw_record(&sys(i64::MAX, "late")) {
        Line::System { time, .. } => assert_eq!(time, None),
        other => panic!("unexpected {:?}", other),
    }
}

#[test]
fn colors() {
    assert_eq!(hex_to_color(b"000000"), Some((0, 0, 0)));
    assert_eq!(hex_to_color(b"FFfe01"), Some((255, 254, 1)));
    assert_eq!(hex_to_color(b"12345g"), None);
}

#[test]
fn word_backspace_example() {
    let mut e = Editor::new();
    for c in "hello world ".chars() {
        e.insert(c);
    }
    e.word_backspace();
    assert_eq!(e.text.iter().collect::<String>(), "hello ");
    assert_eq!(e.cursor, 6);
}

#[test]
fn word_backspace_keeps_text_after_cursor() {
    let mut e = Editor::new();
    for c in "ab cd  ef".chars() {
        e.insert(c);
    }
    e.move_left();
    e.move_left();
    e.word_backspace();
    assert_eq!(e.text.iter().collect::<String>(), "ab ef");
    assert_eq!(e.cursor, 3);
    let mut empty = Editor::new();
    empty.word_backspace();
    assert!(empty.text.is_empty());
}

#[test]
fn editor_cursor_stays_in_bounds() {
    let mut e = Editor::new();
    let edits = [
        Edit::Left,
        Edit::Backspace,
        Edit::Insert('\u{e9}'),
        Edit::Insert('x'),
        Edit::Right,
        Edit::Right,
        Edit::Left,
        Edit::Left,
        Edit::Left,
        Edit::Insert('a'),
        Edit::Backspace,
        Edit::Backspace,
        Edit::WordBackspace,
        Edit::Clear,
        Edit::Backspace,
        Edit::Insert('z'),
    ];
    for edit in edits {
        e.apply(edit);
        assert!(e.cursor <= e.text.len());
    }
    assert_eq!(e.text, vec!['z']);
    assert_eq!(e.cursor, 1);
}

#[test]
fn editor_multibyte_insert_and_remove() {
    let mut e = Editor::new();
    for c in "añb".chars() {
        e.insert(c);
    }
    e.move_left();
    e.backspace();
    assert_eq!(e.text, vec!['a', 'b']);
    assert_eq!(e.cursor, 1);
    e.insert('\u{1f600}');
    assert_eq!(e.text, vec!['a', '\u{1f600}', 'b']);
    assert_eq!(e.take(), vec!['a', '\u{1f600}', 'b']);
    assert!(e.text.is_empty());
    assert_eq!(e.cursor, 0);
}
