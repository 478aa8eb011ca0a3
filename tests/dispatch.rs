use gossip_chat::display::Display;
use gossip_chat::record::{decode, encode, Record};
use gossip_chat::session::{
    command, parse_color, Command, Effect, Event, Identity, Key, Modifiers, Session,
};
use gossip_chat::editor::Edit;
use gossip_chat::store::log_entry;

fn session(rows: u16, history: usize) -> Session {
    let identity = Identity { username: b"alice".to_vec(), color: *b"00ff00" };
    let log = (0..history)
        .map(|i| Record::System { timestamp: i as i64, body: format!("r{}", i).into_bytes() })
        .collect();
    Session::new(identity, log, Display::new((80, rows)))
}

fn type_text(s: &mut Session, text: &str) {
    for c in text.chars() {
        let fx = s.step(Event::Key(Key::Char(c), Modifiers::Plain), 0);
        assert!(matches!(fx.as_slice(), [Effect::DrawPrompt(_)]));
    }
}

#[test]
fn key_commands() {
    assert_eq!(command(Key::Char('c'), Modifiers::Control), Command::Quit);
    assert_eq!(command(Key::Char('d'), Modifiers::Control), Command::Quit);
    assert_eq!(command(Key::Char('u'), Modifiers::Control), Command::Edit(Edit::Clear));
    assert_eq!(command(Key::Char('c'), Modifiers::Plain), Command::Edit(Edit::Insert('c')));
    assert_eq!(command(Key::Char('C'), Modifiers::Mixed), Command::Edit(Edit::Insert('C')));
    assert_eq!(command(Key::Backspace, Modifiers::Alt), Command::Edit(Edit::WordBackspace));
    assert_eq!(command(Key::Backspace, Modifiers::Control), Command::Edit(Edit::Backspace));
    assert_eq!(command(Key::Enter, Modifiers::Plain), Command::Submit);
    assert_eq!(command(Key::Left, Modifiers::Plain), Command::Edit(Edit::Left));
    assert_eq!(command(Key::Right, Modifiers::Plain), Command::Edit(Edit::Right));
    assert_eq!(command(Key::Other, Modifiers::Plain), Command::Ignore);
}

#[test]
fn submission_resets_and_orders_effects() {
    let mut s = session(10, 20);
    s.step(Event::ScrollUp, 0);
    s.step(Event::ScrollUp, 0);
    assert_eq!(s.scroll, 2);
    type_text(&mut s, "h\u{e9}");
    let fx = s.step(Event::Key(Key::Enter, Modifiers::Plain), 1_234);
    assert_eq!(s.editor.text.len(), 0);
    assert_eq!(s.editor.cursor, 0);
    assert_eq!(s.scroll, 0);
    assert_eq!(s.log.len(), 21);
    let expected = Record::User {
        timestamp: 1_234,
        color: *b"00ff00",
        username: b"alice".to_vec(),
        body: vec![b'h', 0xc3, 0xa9],
    };
    assert_eq!(s.log[20], expected);
    assert_eq!(fx.len(), 3);
    assert_eq!(fx[0], Effect::Append(log_entry(&expected)));
    assert!(matches!(&fx[1], Effect::Repaint(f) if f.lines.len() == 9));
    assert_eq!(fx[2], Effect::Publish(encode(&expected)));
}

#[test]
fn empty_submission_still_sends() {
    let mut s = session(10, 0);
    let fx = s.step(Event::Key(Key::Enter, Modifiers::Plain), 5);
    assert_eq!(fx.len(), 3);
    assert_eq!(s.log.len(), 1);
}

#[test]
fn malformed_inbound_is_dropped() {
    let mut s = session(10, 3);
    let fx = s.step(Event::Inbound(vec![0u8; 50]), 9);
    assert!(fx.is_empty());
    assert_eq!(s.log.len(), 3);
    let fx = s.step(Event::Inbound(vec![9, 1, 2]), 9);
    assert!(fx.is_empty());
    assert_eq!(s.log.len(), 3);
    assert!(s.running);
}

#[test]
fn inbound_record_is_kept_and_logged() {
    let mut s = session(10, 3);
    let r = Record::User {
        timestamp: 77,
        color: *b"abcdef",
        username: b"bob".to_vec(),
        body: b"hey".to_vec(),
    };
    let fx = s.step(Event::Inbound(encode(&r)), 9);
    assert_eq!(s.log.len(), 4);
    assert_eq!(s.log[3], r);
    assert_eq!(fx.len(), 2);
    assert_eq!(fx[0], Effect::Append(log_entry(&r)));
    assert!(matches!(&fx[1], Effect::Repaint(f) if f.lines.len() == 4));
}

#[test]
fn listening_notice() {
    let mut s = session(10, 0);
    let fx = s.step(Event::Listening(b"/ip4/127.0.0.1/tcp/4001".to_vec()), 42);
    assert_eq!(fx.len(), 1);
    assert_eq!(
        s.log[0],
        Record::System { timestamp: 42, body: b"Listening on /ip4/127.0.0.1/tcp/4001".to_vec() }
    );
    assert_eq!(decode(&encode(&s.log[0])), Ok(s.log[0].clone()));
}

#[test]
fn scroll_is_clamped() {
    let mut s = session(5, 6);
    for _ in 0..5 {
        s.step(Event::ScrollUp, 0);
    }
    assert_eq!(s.scroll, 2);
    for _ in 0..5 {
        s.step(Event::ScrollDown, 0);
    }
    assert_eq!(s.scroll, 0);
    let mut few = session(24, 3);
    few.step(Event::ScrollUp, 0);
    assert_eq!(few.scroll, 0);
    let f = few.frame();
    assert_eq!(f.lines.len(), 3);
}

#[test]
fn control_keys() {
    let mut s = session(10, 0);
    type_text(&mut s, "abc");
    s.step(Event::Key(Key::Char('u'), Modifiers::Control), 0);
    assert!(s.editor.text.is_empty());
    let fx = s.step(Event::Key(Key::Char('d'), Modifiers::Control), 0);
    assert_eq!(fx, vec![Effect::Quit]);
    assert!(!s.running);
    let fx = s.step(Event::Key(Key::Other, Modifiers::Plain), 0);
    assert!(fx.is_empty());
}

#[test]
fn configured_colors() {
    assert_eq!(parse_color(b"#1a2B3c"), Some(*b"1a2B3c"));
    assert_eq!(parse_color(b"#000000"), Some(*b"000000"));
    assert_eq!(parse_color(b"1a2b3c"), None);
    assert_eq!(parse_color(b"#1a2b3"), None);
    assert_eq!(parse_color(b"#1a2b3z"), None);
}
