//! What the screen shows: the window of the history that fits above the input line,
//! each record drawn as one line, and the input line with its cursor.
//!
//! Painting is left to the caller: these functions describe a frame, and the
//! terminal code puts it on the screen.
use vstd::prelude::*;
use crate::record::{Record, RecordModel};
use crate::store::views;

verus! {

/// How a timestamp is shown: month/day/year hours:minutes:seconds, in UTC.
pub const TIME_FORMAT: &'static str = "%m/%d/%y %H:%M:%S";

/// The text that chrono's formatting of `timestamp` (seconds since the epoch, UTC)
/// with `pattern` gives, or `None` where the timestamp is out of chrono's range.
pub uninterp spec fn clock_text(timestamp: i64, pattern: Seq<char>) -> Option<Seq<char>>;

/// The text that a lossy UTF-8 reading of `bytes` gives.
pub uninterp spec fn lossy_utf8(bytes: Seq<u8>) -> Seq<char>;

/// Relies on chrono's `DateTime::from_timestamp` (`None` outside its range of dates)
/// and `DateTime::format`: the text depends on the timestamp and the pattern alone.
#[verifier::external_body]
fn format_timestamp(timestamp: i64, pattern: &str) -> (r: Option<String>)
    requires
        pattern@ == TIME_FORMAT@,
    ensures
        r matches Some(s) ==> clock_text(timestamp, pattern@) == Some(s@),
        r is None ==> clock_text(timestamp, pattern@) is None,
{
    match chrono::DateTime::from_timestamp(timestamp, 0) {
        Some(dt) => Some(dt.format(pattern).to_string()),
        None => None,
    }
}

/// Relies on `String::from_utf8_lossy`: malformed sequences become U+FFFD, and the
/// text depends on the bytes alone.
#[verifier::external_body]
fn lossy_text(bytes: &[u8]) -> (r: String)
    ensures
        r@ == lossy_utf8(bytes@),
{
    String::from_utf8_lossy(bytes).into_owned()
}

/// The value of one ASCII hexadecimal digit.
pub open spec fn hex_digit(c: u8) -> Option<u8> {
    if 48 <= c <= 57 {
        Some((c - 48) as u8)
    } else if 97 <= c <= 102 {
        Some((c - 87) as u8)
    } else if 65 <= c <= 70 {
        Some((c - 55) as u8)
    } else {
        None
    }
}

/// The byte written by two hexadecimal digits, the first the high one.
pub open spec fn hex_byte(hi: u8, lo: u8) -> Option<u8> {
    match (hex_digit(hi), hex_digit(lo)) {
        (Some(h), Some(l)) => Some((h * 16 + l) as u8),
        _ => None,
    }
}

/// The red, green and blue components written by six hexadecimal digits.
pub open spec fn rgb_spec(c: Seq<u8>) -> Option<(u8, u8, u8)> {
    if c.len() != 6 {
        None
    } else {
        match (hex_byte(c[0], c[1]), hex_byte(c[2], c[3]), hex_byte(c[4], c[5])) {
            (Some(r), Some(g), Some(b)) => Some((r, g, b)),
            _ => None,
        }
    }
}

fn hex_digit_value(c: u8) -> (r: Option<u8>)
    ensures
        r == hex_digit(c),
{
    if 48 <= c && c <= 57 {
        Some(c - 48)
    } else if 97 <= c && c <= 102 {
        Some(c - 87)
    } else if 65 <= c && c <= 70 {
        Some(c - 55)
    } else {
        None
    }
}

fn hex_byte_value(hi: u8, lo: u8) -> (r: Option<u8>)
    ensures
        r == hex_byte(hi, lo),
{
    match (hex_digit_value(hi), hex_digit_value(lo)) {
        (Some(h), Some(l)) => Some(h * 16 + l),
        _ => None,
    }
}

/// The color that a record's six hexadecimal digits name, or `None` where one is not a digit.
pub fn hex_to_color(hex: &[u8; 6]) -> (r: Option<(u8, u8, u8)>)
    ensures
        r == rgb_spec(hex@),
{
    match (
        hex_byte_value(hex[0], hex[1]),
        hex_byte_value(hex[2], hex[3]),
        hex_byte_value(hex[4], hex[5]),
    ) {
        (Some(r), Some(g), Some(b)) => Some((r, g, b)),
        _ => None,
    }
}

/// One line of the history, ready to paint.
#[derive(Clone, Debug, PartialEq, Eq)]
pub enum Line {
    /// Drawn dim: the time, then the body.
    System { time: Option<String>, body: String },
    /// The time drawn dim, the name in bold in the record's own color (`None`: the
    /// default color), then the body.
    User { time: Option<String>, name: String, color: Option<(u8, u8, u8)>, body: String },
}

pub enum LineModel {
    System { time: Option<Seq<char>>, body: Seq<char> },
    User { time: Option<Seq<char>>, name: Seq<char>, color: Option<(u8, u8, u8)>, body: Seq<char> },
}

pub open spec fn opt_view(s: Option<String>) -> Option<Seq<char>> {
    match s {
        Some(t) => Some(t@),
        None => None,
    }
}

impl View for Line {
    type V = LineModel;

    open spec fn view(&self) -> LineModel {
        match self {
            Line::System { time, body } => LineModel::System { time: opt_view(*time), body: body@ },
            Line::User { time, name, color, body } => LineModel::User {
                time: opt_view(*time),
                name: name@,
                color: *color,
                body: body@,
            },
        }
    }
}

/// How a record is drawn.
pub open spec fn render(r: RecordModel) -> LineModel {
    match r {
        RecordModel::System { timestamp, body } => LineModel::System {
            time: clock_text(timestamp, TIME_FORMAT@),
            body: lossy_utf8(body),
        },
        RecordModel::User { timestamp, color, username, body } => LineModel::User {
            time: clock_text(timestamp, TIME_FORMAT@),
            name: lossy_utf8(username),
            color: rgb_spec(color),
            body: lossy_utf8(body),
        },
    }
}

/// The input line: its row, its text (prompt and message) and the cursor's column.
#[derive(Clone, Debug, PartialEq, Eq)]
pub struct Prompt {
    pub row: u16,
    pub text: Vec<char>,
    pub column: usize,
}

/// Everything a full repaint draws.
#[derive(Clone, Debug, PartialEq, Eq)]
pub struct Frame {
    pub lines: Vec<Line>,
    pub prompt: Prompt,
}

/// The terminal's size, as (columns, rows).
#[derive(Clone, Copy, Debug, PartialEq, Eq)]
pub struct Display {
    pub terminal_size: (u16, u16),
}

/// What the input line starts with.
pub open spec fn prompt_prefix() -> Seq<char> {
    seq![' ', '>', ' ']
}

/// The rows left for the history once the input line has its own.
pub open spec fn page_height(rows: u16) -> nat {
    if rows >= 1 {
        (rows - 1) as nat
    } else {
        0
    }
}

/// How many records a page of `page` rows shows out of `n`.
pub open spec fn visible_count(n: nat, page: nat) -> nat {
    if n < page {
        n
    } else {
        page
    }
}

/// The furthest the view can be scrolled back from the newest record.
pub open spec fn max_scroll(n: nat, page: nat) -> nat {
    if n > page {
        (n - page) as nat
    } else {
        0
    }
}

/// Index of the first record shown, `scroll` records back from the newest.
pub open spec fn window_start(n: nat, page: nat, scroll: nat) -> nat {
    if n - visible_count(n, page) >= scroll {
        (n - visible_count(n, page) - scroll) as nat
    } else {
        0
    }
}

/// The lines drawn for the history `log` scrolled back by `scroll`: a run of
/// consecutive records, oldest at the top, as many as fit.
pub open spec fn page_spec(log: Seq<RecordModel>, page: nat, scroll: nat) -> Seq<LineModel> {
    let start = window_start(log.len(), page, scroll);
    Seq::new(visible_count(log.len(), page), |i: int| render(log[start + i]))
}

pub open spec fn prompt_spec(rows: u16, msg: Seq<char>, cursor: nat) -> (u16, Seq<char>, nat) {
    (
        page_height(rows) as u16,
        prompt_prefix() + msg,
        if cursor + 3 <= usize::MAX {
            cursor + 3
        } else {
            usize::MAX as nat
        },
    )
}

impl Prompt {
    pub open spec fn model(&self) -> (u16, Seq<char>, nat) {
        (self.row, self.text@, self.column as nat)
    }
}

impl Frame {
    pub open spec fn line_models(&self) -> Seq<LineModel> {
        self.lines@.map_values(|l: Line| l@)
    }
}

impl Display {
    pub open spec fn rows(&self) -> u16 {
        self.terminal_size.1
    }

    pub open spec fn page(&self) -> nat {
        page_height(self.terminal_size.1)
    }

    /// A display of the given size, as (columns, rows).
    pub fn new(terminal_size: (u16, u16)) -> (d: Display)
        ensures
            d.terminal_size == terminal_size,
    {
        Display { terminal_size }
    }

    /// The rows left for the history.
    pub fn page_height(&self) -> (h: usize)
        ensures
            h == self.page(),
    {
        if self.terminal_size.1 >= 1 {
            (self.terminal_size.1 - 1) as usize
        } else {
            0
        }
    }

    /// The lines of the history to draw, `scroll_pos` records back from the newest.
    pub fn draw_log(&self, log: &Vec<Record>, scroll_pos: usize) -> (lines: Vec<Line>)
        ensures
            lines@.len() <= self.page(),
            lines@.map_values(|l: Line| l@) == page_spec(views(log@), self.page(), scroll_pos as nat),
    {
        let n = log.len();
        let page = self.page_height();
        let visible = if n < page {
            n
        } else {
            page
        };
        let start = if n - visible >= scroll_pos {
            n - visible - scroll_pos
        } else {
            0
        };
        let ghost expected = page_spec(views(log@), page as nat, scroll_pos as nat);
        let mut lines: Vec<Line> = Vec::new();
        let mut i: usize = 0;
        while i < visible
            invariant
                n == log@.len(),
                visible <= n,
                start + visible <= n,
                expected.len() == visible,
                expected == page_spec(views(log@), page as nat, scroll_pos as nat),
                start == window_start(n as nat, page as nat, scroll_pos as nat),
                i <= visible,
                lines@.len() == i,
                forall|j: int| 0 <= j < i ==> (#[trigger] lines@[j])@ == expected[j],
            decreases visible - i,
        {
            let line = draw_record(&log[start + i]);
            lines.push(line);
            i = i + 1;
        }
        assert(lines@.map_values(|l: Line| l@) =~= expected);
        lines
    }

    /// The input line for the message `msg` with the cursor before its `cursor_pos`-th character.
    pub fn draw_msg(&self, msg: &Vec<char>, cursor_pos: usize) -> (p: Prompt)
        ensures
            p.model() == prompt_spec(self.rows(), msg@, cursor_pos as nat),
    {
        let mut text: Vec<char> = Vec::new();
        text.push(' ');
        text.push('>');
        text.push(' ');
        let mut i: usize = 0;
        while i < msg.len()
            invariant
                i <= msg@.len(),
                text@ == prompt_prefix() + msg@.take(i as int),
            decreases msg@.len() - i,
        {
            text.push(msg[i]);
            i = i + 1;
            assert(text@ =~= prompt_prefix() + msg@.take(i as int));
        }
        assert(msg@.take(i as int) =~= msg@);
        let column = if cursor_pos <= usize::MAX - 3 {
            cursor_pos + 3
        } else {
            usize::MAX
        };
        Prompt { row: self.page_height() as u16, text, column }
    }

    /// The whole screen: the history scrolled back by `scroll_pos`, and the input line.
    pub fn draw(&self, msg: &Vec<char>, log: &Vec<Record>, cursor_pos: usize, scroll_pos: usize) -> (f: Frame)
        ensures
            f.lines@.len() <= self.page(),
            f.line_models() == page_spec(views(log@), self.page(), scroll_pos as nat),
            f.prompt.model() == prompt_spec(self.rows(), msg@, cursor_pos as nat),
    {
        let lines = self.draw_log(log, scroll_pos);
        let prompt = self.draw_msg(msg, cursor_pos);
        Frame { lines, prompt }
    }
}

/// How one record is drawn.
pub fn draw_record(r: &Record) -> (l: Line)
    ensures
        l@ == render(r@),
{
    match r {
        Record::System { timestamp, body } => Line::System {
            time: format_timestamp(*timestamp, TIME_FORMAT),
            body: lossy_text(body.as_slice()),
        },
        Record::User { timestamp, color, username, body } => Line::User {
            time: format_timestamp(*timestamp, TIME_FORMAT),
            name: lossy_text(username.as_slice()),
            color: hex_to_color(color),
            body: lossy_text(body.as_slice()),
        },
    }
}

} // verus!
