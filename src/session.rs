//! The decisions of the event loop.
//!
//! The loop itself waits for the network and the terminal; each event it sees is
//! handed to `Session::step`, which updates the history, the message being
//! composed and the scroll position, and returns, in order, what the loop must
//! then do: append bytes to the log file, paint, publish, or stop.
use vstd::prelude::*;
use vstd::slice::slice_to_vec;
use vstd::string::StringSliceAdditionalSpecFns;
use vstd::utf8::{char_is_scalar, encode_scalar, encode_utf8};
use crate::display::{
    hex_byte, page_height, page_spec, prompt_spec, max_scroll, window_start, Display, Frame,
    LineModel, Prompt,
};
use crate::editor::{edit_spec, Edit, Editor, EditorState};
use crate::record::{
    decode, encode, parse, serialize, MalformedRecord, Record, RecordModel, TAG_USER,
    USER_HEADER_LEN,
};
use crate::store::{log_entry, views, DELIMITER};

verus! {

/// What the notice of a new listening address starts with.
pub const LISTENING_PREFIX: &'static str = "Listening on ";

proof fn lemma_encode_utf8_push(s: Seq<char>, c: char)
    ensures
        encode_utf8(s.push(c)) == encode_utf8(s) + encode_scalar(c as u32),
    decreases s.len(),
{
    if s.len() == 0 {
        assert(s.push(c).drop_first() =~= Seq::<char>::empty());
        assert(s.push(c)[0] == c);
        assert(encode_utf8(Seq::<char>::empty()) == Seq::<u8>::empty());
        assert(encode_utf8(s) == Seq::<u8>::empty());
        assert(encode_scalar(c as u32) + Seq::<u8>::empty() =~= encode_scalar(c as u32));
        assert(Seq::<u8>::empty() + encode_scalar(c as u32) =~= encode_scalar(c as u32));
    } else {
        assert(s.push(c)[0] == s[0]);
        assert(s.push(c).drop_first() =~= s.drop_first().push(c));
        lemma_encode_utf8_push(s.drop_first(), c);
        assert(encode_utf8(s.push(c)) =~= encode_utf8(s) + encode_scalar(c as u32));
    }
}

/// Appends the UTF-8 bytes of `c`.
fn push_utf8(out: &mut Vec<u8>, c: char)
    ensures
        final(out)@ == old(out)@ + encode_scalar(c as u32),
{
    let v = c as u32;
    if v <= 0x7F {
        out.push((v & 0x7F) as u8);
    } else if v <= 0x7FF {
        out.push(0xC0 | ((v >> 6) & 0x1F) as u8);
        out.push(0x80 | (v & 0x3F) as u8);
    } else if v <= 0xFFFF {
        out.push(0xE0 | ((v >> 12) & 0x0F) as u8);
        out.push(0x80 | ((v >> 6) & 0x3F) as u8);
        out.push(0x80 | (v & 0x3F) as u8);
    } else {
        out.push(0xF0 | ((v >> 18) & 0x7) as u8);
        out.push(0x80 | ((v >> 12) & 0x3F) as u8);
        out.push(0x80 | ((v >> 6) & 0x3F) as u8);
        out.push(0x80 | (v & 0x3F) as u8);
    }
    proof {
        char_is_scalar(c);
    }
    assert(final(out)@ =~= old(out)@ + encode_scalar(c as u32));
}

/// The UTF-8 bytes of `chars`.
fn utf8_bytes(chars: &Vec<char>) -> (b: Vec<u8>)
    ensures
        b@ == encode_utf8(chars@),
{
    let mut out: Vec<u8> = Vec::new();
    let mut i: usize = 0;
    while i < chars.len()
        invariant
            i <= chars@.len(),
            out@ == encode_utf8(chars@.take(i as int)),
        decreases chars@.len() - i,
    {
        proof {
            assert(chars@.take(i + 1) =~= chars@.take(i as int).push(chars@[i as int]));
            lemma_encode_utf8_push(chars@.take(i as int), chars@[i as int]);
        }
        push_utf8(&mut out, chars[i]);
        i = i + 1;
    }
    assert(chars@.take(i as int) =~= chars@);
    out
}

/// Who this client speaks as: the name and the color that its messages carry.
#[derive(Clone, Debug, PartialEq, Eq)]
pub struct Identity {
    pub username: Vec<u8>,
    pub color: [u8; 6],
}

/// A color as the configuration writes it: `#` and six hexadecimal digits.
pub open spec fn color_setting(v: Seq<u8>) -> Option<Seq<u8>> {
    if v.len() == 7 && v[0] == 35 && hex_byte(v[1], v[2]) is Some && hex_byte(v[3], v[4]) is Some
        && hex_byte(v[5], v[6]) is Some {
        Some(v.skip(1))
    } else {
        None
    }
}

/// The six digits of a configured color such as `#1a2b3c`; `None` for any other text.
pub fn parse_color(value: &[u8]) -> (r: Option<[u8; 6]>)
    ensures
        match (r, color_setting(value@)) {
            (Some(c), Some(d)) => c@ == d,
            (None, None) => true,
            _ => false,
        },
{
    if value.len() != 7 || value[0] != 35 {
        return None;
    }
    let ok = crate::display::hex_to_color(
        &[value[1], value[2], value[3], value[4], value[5], value[6]],
    );
    if ok.is_none() {
        return None;
    }
    let c: [u8; 6] = [value[1], value[2], value[3], value[4], value[5], value[6]];
    assert(c@ =~= value@.skip(1));
    Some(c)
}

/// The keys that the loop tells apart.
#[derive(Clone, Copy, Debug, PartialEq, Eq)]
pub enum Key {
    Char(char),
    Enter,
    Backspace,
    Left,
    Right,
    Other,
}

/// The modifier keys held with a key: none, exactly Control, exactly Alt, or another set.
#[derive(Clone, Copy, Debug, PartialEq, Eq)]
pub enum Modifiers {
    Plain,
    Control,
    Alt,
    Mixed,
}

/// What a key press asks for.
#[derive(Clone, Copy, Debug, PartialEq, Eq)]
pub enum Command {
    Quit,
    Edit(Edit),
    Submit,
    Ignore,
}

/// Control-C and Control-D quit, Control-U clears, any other character is typed,
/// Enter sends, Alt-Backspace removes a word, Backspace a character, and the arrows
/// move the cursor.
pub open spec fn command_spec(key: Key, mods: Modifiers) -> Command {
    match key {
        Key::Char(c) => if mods == Modifiers::Control && (c == 'c' || c == 'd') {
            Command::Quit
        } else if mods == Modifiers::Control && c == 'u' {
            Command::Edit(Edit::Clear)
        } else {
            Command::Edit(Edit::Insert(c))
        },
        Key::Enter => Command::Submit,
        Key::Backspace => if mods == Modifiers::Alt {
            Command::Edit(Edit::WordBackspace)
        } else {
            Command::Edit(Edit::Backspace)
        },
        Key::Right => Command::Edit(Edit::Right),
        Key::Left => Command::Edit(Edit::Left),
        Key::Other => Command::Ignore,
    }
}

/// What a key press asks for.
pub fn command(key: Key, mods: Modifiers) -> (c: Command)
    ensures
        c == command_spec(key, mods),
{
    let control = match mods {
        Modifiers::Control => true,
        _ => false,
    };
    let alt = match mods {
        Modifiers::Alt => true,
        _ => false,
    };
    match key {
        Key::Char(c) => if control && (c == 'c' || c == 'd') {
            Command::Quit
        } else if control && c == 'u' {
            Command::Edit(Edit::Clear)
        } else {
            Command::Edit(Edit::Insert(c))
        },
        Key::Enter => Command::Submit,
        Key::Backspace => if alt {
            Command::Edit(Edit::WordBackspace)
        } else {
            Command::Edit(Edit::Backspace)
        },
        Key::Right => Command::Edit(Edit::Right),
        Key::Left => Command::Edit(Edit::Left),
        Key::Other => Command::Ignore,
    }
}

/// What the loop has seen.
#[derive(Clone, Debug, PartialEq, Eq)]
pub enum Event {
    Key(Key, Modifiers),
    ScrollUp,
    ScrollDown,
    /// The transport listens on a new address, given as text.
    Listening(Vec<u8>),
    /// A message published by a peer.
    Inbound(Vec<u8>),
}

pub enum EventModel {
    Key(Key, Modifiers),
    ScrollUp,
    ScrollDown,
    Listening(Seq<u8>),
    Inbound(Seq<u8>),
}

impl View for Event {
    type V = EventModel;

    open spec fn view(&self) -> EventModel {
        match self {
            Event::Key(k, m) => EventModel::Key(*k, *m),
            Event::ScrollUp => EventModel::ScrollUp,
            Event::ScrollDown => EventModel::ScrollDown,
            Event::Listening(a) => EventModel::Listening(a@),
            Event::Inbound(b) => EventModel::Inbound(b@),
        }
    }
}

/// What the loop must do, in the order given.
#[derive(Clone, Debug, PartialEq, Eq)]
pub enum Effect {
    /// Append these bytes to the log file and flush it.
    Append(Vec<u8>),
    /// Clear the screen and draw this frame.
    Repaint(Frame),
    /// Redraw the input line alone.
    DrawPrompt(Prompt),
    /// Publish these bytes on the topic; a failure is ignored.
    Publish(Vec<u8>),
    /// Restore the terminal and stop.
    Quit,
}

pub enum EffectModel {
    Append(Seq<u8>),
    Repaint(Seq<LineModel>, (u16, Seq<char>, nat)),
    DrawPrompt((u16, Seq<char>, nat)),
    Publish(Seq<u8>),
    Quit,
}

impl View for Effect {
    type V = EffectModel;

    open spec fn view(&self) -> EffectModel {
        match self {
            Effect::Append(b) => EffectModel::Append(b@),
            Effect::Repaint(f) => EffectModel::Repaint(f.line_models(), f.prompt.model()),
            Effect::DrawPrompt(p) => EffectModel::DrawPrompt(p.model()),
            Effect::Publish(b) => EffectModel::Publish(b@),
            Effect::Quit => EffectModel::Quit,
        }
    }
}

pub open spec fn effect_views(v: Seq<Effect>) -> Seq<EffectModel> {
    v.map_values(|e: Effect| e@)
}

/// The whole state of a session, as a mathematical value.
pub struct SessionState {
    pub username: Seq<u8>,
    pub color: Seq<u8>,
    pub log: Seq<RecordModel>,
    pub editor: EditorState,
    pub scroll: nat,
    pub display: Display,
    pub running: bool,
}

impl SessionState {
    /// The cursor stays within the message and the view is never scrolled back past
    /// the oldest page.
    pub open spec fn wf(self) -> bool {
        &&& self.editor.wf()
        &&& self.scroll <= max_scroll(self.log.len(), self.display.page())
    }

    pub open spec fn with_log(self, log: Seq<RecordModel>) -> SessionState {
        SessionState { log, ..self }
    }

    pub open spec fn with_editor(self, editor: EditorState) -> SessionState {
        SessionState { editor, ..self }
    }

    pub open spec fn with_scroll(self, scroll: nat) -> SessionState {
        SessionState { scroll, ..self }
    }
}

/// A full repaint of the state `s`.
pub open spec fn repaint(s: SessionState) -> EffectModel {
    EffectModel::Repaint(
        page_spec(s.log, s.display.page(), s.scroll),
        prompt_spec(s.display.rows(), s.editor.text, s.editor.cursor),
    )
}

/// A redraw of the input line of the state `s`.
pub open spec fn redraw_prompt(s: SessionState) -> EffectModel {
    EffectModel::DrawPrompt(prompt_spec(s.display.rows(), s.editor.text, s.editor.cursor))
}

/// The record announcing that the transport listens on `address`.
pub open spec fn listening_record(address: Seq<u8>, now: i64) -> RecordModel {
    RecordModel::System { timestamp: now, body: LISTENING_PREFIX.spec_bytes() + address }
}

/// The record sent for the message being composed.
pub open spec fn submitted_record(s: SessionState, now: i64) -> RecordModel {
    RecordModel::User {
        timestamp: now,
        color: s.color,
        username: s.username,
        body: encode_utf8(s.editor.text),
    }
}

/// A message from a peer: kept, written to the log file and shown if it is a record;
/// dropped without a trace if it is not.
pub open spec fn inbound_spec(s: SessionState, b: Seq<u8>) -> (SessionState, Seq<EffectModel>) {
    match parse(b) {
        Ok(m) => {
            let t = s.with_log(s.log.push(m));
            (t, seq![EffectModel::Append(serialize(m) + seq![DELIMITER]), repaint(t)])
        },
        Err(_) => (s, Seq::empty()),
    }
}

/// The message being composed becomes a user record: kept, written to the log file,
/// shown with the view back at the newest record, and only then published.
pub open spec fn submit_spec(s: SessionState, now: i64) -> (SessionState, Seq<EffectModel>) {
    let m = submitted_record(s, now);
    let t = SessionState {
        log: s.log.push(m),
        editor: EditorState { text: Seq::empty(), cursor: 0 },
        scroll: 0,
        ..s
    };
    (
        t,
        seq![
            EffectModel::Append(serialize(m) + seq![DELIMITER]),
            repaint(t),
            EffectModel::Publish(serialize(m)),
        ],
    )
}

pub open spec fn key_spec(s: SessionState, key: Key, mods: Modifiers, now: i64) -> (
    SessionState,
    Seq<EffectModel>,
) {
    match command_spec(key, mods) {
        Command::Quit => (SessionState { running: false, ..s }, seq![EffectModel::Quit]),
        Command::Edit(e) => {
            let t = s.with_editor(edit_spec(s.editor, e));
            (t, seq![redraw_prompt(t)])
        },
        Command::Submit => submit_spec(s, now),
        Command::Ignore => (s, Seq::empty()),
    }
}

/// What one event does to the state, and what the loop must then do.
pub open spec fn step_spec(s: SessionState, ev: EventModel, now: i64) -> (
    SessionState,
    Seq<EffectModel>,
) {
    match ev {
        EventModel::Key(key, mods) => key_spec(s, key, mods, now),
        EventModel::ScrollUp => {
            let n = s.log.len();
            let page = s.display.page();
            let t = if n > page && s.scroll < n - page {
                s.with_scroll(s.scroll + 1)
            } else {
                s
            };
            (t, seq![repaint(t)])
        },
        EventModel::ScrollDown => {
            let t = if s.scroll > 0 {
                s.with_scroll((s.scroll - 1) as nat)
            } else {
                s
            };
            (t, seq![repaint(t)])
        },
        EventModel::Listening(address) => {
            let t = s.with_log(s.log.push(listening_record(address, now)));
            (t, seq![repaint(t)])
        },
        EventModel::Inbound(b) => inbound_spec(s, b),
    }
}

/// However many records there are and however far back the view is scrolled, the
/// page drawn holds at most one record per row above the input line, and each record
/// it draws is one of the history's.
pub proof fn lemma_page_fits(log: Seq<RecordModel>, rows: u16, scroll: nat)
    ensures
        page_spec(log, page_height(rows), scroll).len() <= page_height(rows),
        rows >= 1 ==> page_spec(log, page_height(rows), scroll).len() <= rows - 1,
        window_start(log.len(), page_height(rows), scroll) + page_spec(
            log,
            page_height(rows),
            scroll,
        ).len() <= log.len(),
{
}

/// Every event keeps the scroll position within `[0, max(0, N - (H - 1))]` for `N`
/// records and `H` rows, and the cursor within the message; every repaint it asks for
/// draws at most `H - 1` lines.
pub proof fn lemma_step_keeps_bounds(s: SessionState, ev: EventModel, now: i64)
    requires
        s.wf(),
    ensures
        step_spec(s, ev, now).0.wf(),
        forall|i: int|
            0 <= i < step_spec(s, ev, now).1.len() ==> match #[trigger] step_spec(s, ev, now).1[i] {
                EffectModel::Repaint(lines, _) => lines.len() <= s.display.page(),
                _ => true,
            },
{
    let t = step_spec(s, ev, now).0;
    lemma_page_fits(t.log, t.display.terminal_size.1, t.scroll);
    if let EventModel::Key(key, mods) = ev {
        if let Command::Edit(e) = command_spec(key, mods) {
            crate::editor::lemma_edit_keeps_cursor(s.editor, e);
        }
    }
}

/// A message from a peer that is not a record (a user record shorter than its fixed
/// fields, say) changes nothing: no record joins the history, nothing is written to
/// the log file, nothing is drawn.
pub proof fn lemma_malformed_inbound_discarded(s: SessionState, b: Seq<u8>, now: i64)
    requires
        parse(b) is Err,
    ensures
        step_spec(s, EventModel::Inbound(b), now) == (s, Seq::<EffectModel>::empty()),
{
}

/// A user message shorter than its fixed fields is not a record.
pub proof fn lemma_short_user_message_malformed(b: Seq<u8>)
    requires
        b.len() >= 1,
        b[0] == TAG_USER,
        b.len() < USER_HEADER_LEN,
    ensures
        parse(b) == Err::<RecordModel, MalformedRecord>(MalformedRecord::Truncated),
{
}

/// Enter empties the message, puts the cursor at its start and the view back at the
/// newest record, and adds exactly one record to the history; that record is written
/// to the log file first and published last.
pub proof fn lemma_submission_resets(s: SessionState, mods: Modifiers, now: i64)
    ensures
        ({
            let (t, fx) = step_spec(s, EventModel::Key(Key::Enter, mods), now);
            let m = t.log.last();
            &&& t.editor.text == Seq::<char>::empty()
            &&& t.editor.cursor == 0
            &&& t.scroll == 0
            &&& t.log == s.log.push(m)
            &&& fx.len() == 3
            &&& fx[0] == EffectModel::Append(serialize(m) + seq![DELIMITER])
            &&& fx[1] is Repaint
            &&& fx[2] == EffectModel::Publish(serialize(m))
        }),
{
}

/// One client's chat: its identity, the history, the message being composed, how far
/// back the view is scrolled, and the screen it draws on.
pub struct Session {
    pub identity: Identity,
    pub log: Vec<Record>,
    pub editor: Editor,
    pub scroll: usize,
    pub display: Display,
    pub running: bool,
}

impl Session {
    pub open spec fn state(&self) -> SessionState {
        SessionState {
            username: self.identity.username@,
            color: self.identity.color@,
            log: views(self.log@),
            editor: self.editor.state(),
            scroll: self.scroll as nat,
            display: self.display,
            running: self.running,
        }
    }

    pub open spec fn wf(&self) -> bool {
        self.state().wf()
    }

    /// A running session over the history read at start-up, with an empty message and
    /// the view at the newest record.
    pub fn new(identity: Identity, history: Vec<Record>, display: Display) -> (s: Session)
        ensures
            s.wf(),
            s.running,
            s.identity == identity,
            s.log@ == history@,
            s.display == display,
            s.editor.text@ == Seq::<char>::empty(),
            s.scroll == 0,
    {
        Session { identity, log: history, editor: Editor::new(), scroll: 0, display, running: true }
    }

    /// The whole screen for the current state.
    pub fn frame(&self) -> (f: Frame)
        ensures
            EffectModel::Repaint(f.line_models(), f.prompt.model()) == repaint(self.state()),
    {
        self.display.draw(&self.editor.text, &self.log, self.editor.cursor, self.scroll)
    }

    fn prompt(&self) -> (p: Prompt)
        ensures
            EffectModel::DrawPrompt(p.model()) == redraw_prompt(self.state()),
    {
        self.display.draw_msg(&self.editor.text, self.editor.cursor)
    }

    fn push_record(&mut self, r: Record)
        ensures
            final(self).state() == old(self).state().with_log(old(self).state().log.push(r@)),
    {
        let ghost prev = self.log@;
        self.log.push(r);
        assert(views(self.log@) =~= views(prev).push(r@));
    }

    /// Handles a message published by a peer.
    pub fn on_inbound(&mut self, bytes: &[u8]) -> (effects: Vec<Effect>)
        requires
            old(self).wf(),
        ensures
            (final(self).state(), effect_views(effects@)) == inbound_spec(old(self).state(), bytes@),
            final(self).wf(),
    {
        match decode(bytes) {
            Ok(rec) => {
                let entry = log_entry(&rec);
                self.push_record(rec);
                let f = self.frame();
                let effects = vec![Effect::Append(entry), Effect::Repaint(f)];
                assert(effect_views(effects@) =~= inbound_spec(old(self).state(), bytes@).1);
                effects
            },
            Err(_) => {
                let effects: Vec<Effect> = Vec::new();
                assert(effect_views(effects@) =~= Seq::<EffectModel>::empty());
                effects
            },
        }
    }

    /// Sends the message being composed.
    pub fn submit(&mut self, now: i64) -> (effects: Vec<Effect>)
        requires
            old(self).wf(),
        ensures
            (final(self).state(), effect_views(effects@)) == submit_spec(old(self).state(), now),
            final(self).wf(),
    {
        let body = utf8_bytes(&self.editor.text);
        let rec = Record::User {
            timestamp: now,
            color: self.identity.color,
            username: slice_to_vec(self.identity.username.as_slice()),
            body,
        };
        let data = encode(&rec);
        let entry = log_entry(&rec);
        self.scroll = 0;
        let _ = self.editor.take();
        self.push_record(rec);
        let f = self.frame();
        let effects = vec![Effect::Append(entry), Effect::Repaint(f), Effect::Publish(data)];
        assert(self.editor.state().text =~= Seq::<char>::empty());
        assert(effect_views(effects@) =~= submit_spec(old(self).state(), now).1);
        effects
    }

    /// Handles a key press.
    pub fn on_key(&mut self, key: Key, mods: Modifiers, now: i64) -> (effects: Vec<Effect>)
        requires
            old(self).wf(),
        ensures
            (final(self).state(), effect_views(effects@)) == key_spec(old(self).state(), key, mods, now),
            final(self).wf(),
    {
        match command(key, mods) {
            Command::Quit => {
                self.running = false;
                let effects = vec![Effect::Quit];
                assert(effect_views(effects@) =~= seq![EffectModel::Quit]);
                effects
            },
            Command::Edit(e) => {
                self.editor.apply(e);
                let p = self.prompt();
                let effects = vec![Effect::DrawPrompt(p)];
                assert(effect_views(effects@) =~= key_spec(old(self).state(), key, mods, now).1);
                effects
            },
            Command::Submit => self.submit(now),
            Command::Ignore => {
                let effects: Vec<Effect> = Vec::new();
                assert(effect_views(effects@) =~= Seq::<EffectModel>::empty());
                effects
            },
        }
    }

    /// Handles one event.
    pub fn step(&mut self, event: Event, now: i64) -> (effects: Vec<Effect>)
        requires
            old(self).wf(),
        ensures
            (final(self).state(), effect_views(effects@)) == step_spec(old(self).state(), event@, now),
            final(self).wf(),
    {
        match event {
            Event::Key(key, mods) => self.on_key(key, mods, now),
            Event::ScrollUp => {
                let n = self.log.len();
                let page = self.display.page_height();
                if n > page && self.scroll < n - page {
                    self.scroll = self.scroll + 1;
                }
                let f = self.frame();
                let effects = vec![Effect::Repaint(f)];
                assert(effect_views(effects@) =~= step_spec(old(self).state(), event@, now).1);
                effects
            },
            Event::ScrollDown => {
                if self.scroll > 0 {
                    self.scroll = self.scroll - 1;
                }
                let f = self.frame();
                let effects = vec![Effect::Repaint(f)];
                assert(effect_views(effects@) =~= step_spec(old(self).state(), event@, now).1);
                effects
            },
            Event::Listening(address) => {
                let mut body = slice_to_vec(LISTENING_PREFIX.as_bytes());
                let mut rest = address;
                body.append(&mut rest);
                let rec = Record::System { timestamp: now, body };
                self.push_record(rec);
                let f = self.frame();
                let effects = vec![Effect::Repaint(f)];
                assert(effect_views(effects@) =~= step_spec(old(self).state(), event@, now).1);
                effects
            },
            Event::Inbound(bytes) => self.on_inbound(bytes.as_slice()),
        }
    }
}

} // verus!
