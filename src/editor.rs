//! The message being composed: its characters and a cursor between them.
//!
//! Every index here counts Unicode scalar values, never bytes.
use vstd::prelude::*;

verus! {

/// Whether `c` is whitespace as `char::is_whitespace` decides it.
pub uninterp spec fn is_space(c: char) -> bool;

/// Relies on `char::is_whitespace`: whether `c` has Unicode's White_Space property,
/// which depends on `c` alone.
#[verifier::external_body]
fn is_whitespace(c: char) -> (r: bool)
    ensures
        r == is_space(c),
{
    c.is_whitespace()
}

/// One change that a key makes to the message being composed.
#[derive(Clone, Copy, Debug, PartialEq, Eq)]
pub enum Edit {
    Insert(char),
    Backspace,
    WordBackspace,
    Left,
    Right,
    Clear,
}

/// The text being composed and the cursor, as a mathematical value.
pub struct EditorState {
    pub text: Seq<char>,
    pub cursor: nat,
}

impl EditorState {
    pub open spec fn wf(self) -> bool {
        self.cursor <= self.text.len()
    }
}

/// Length of `s` once its trailing whitespace is taken off.
pub open spec fn trim_end_len(s: Seq<char>) -> nat
    decreases s.len(),
{
    if s.len() > 0 && is_space(s.last()) {
        trim_end_len(s.drop_last())
    } else {
        s.len()
    }
}

/// Length of `s` once its trailing run of non-whitespace is taken off.
pub open spec fn word_start(s: Seq<char>) -> nat
    decreases s.len(),
{
    if s.len() > 0 && !is_space(s.last()) {
        word_start(s.drop_last())
    } else {
        s.len()
    }
}

/// What one edit does.
pub open spec fn edit_spec(s: EditorState, e: Edit) -> EditorState {
    match e {
        Edit::Insert(c) => EditorState { text: s.text.insert(s.cursor as int, c), cursor: s.cursor + 1 },
        Edit::Backspace => if s.cursor > 0 {
            EditorState { text: s.text.remove(s.cursor - 1), cursor: (s.cursor - 1) as nat }
        } else {
            s
        },
        Edit::WordBackspace => {
            let k = word_start(s.text.take(trim_end_len(s.text.take(s.cursor as int)) as int));
            EditorState { text: s.text.take(k as int) + s.text.skip(s.cursor as int), cursor: k }
        },
        Edit::Left => if s.cursor > 0 {
            EditorState { text: s.text, cursor: (s.cursor - 1) as nat }
        } else {
            s
        },
        Edit::Right => if s.cursor < s.text.len() {
            EditorState { text: s.text, cursor: s.cursor + 1 }
        } else {
            s
        },
        Edit::Clear => EditorState { text: Seq::empty(), cursor: 0 },
    }
}

/// What a run of edits does, the first one first.
pub open spec fn edits_spec(s: EditorState, es: Seq<Edit>) -> EditorState
    decreases es.len(),
{
    if es.len() == 0 {
        s
    } else {
        edit_spec(edits_spec(s, es.drop_last()), es.last())
    }
}

proof fn lemma_trim_end_len_bound(s: Seq<char>)
    ensures
        trim_end_len(s) <= s.len(),
    decreases s.len(),
{
    if s.len() > 0 && is_space(s.last()) {
        lemma_trim_end_len_bound(s.drop_last());
    }
}

proof fn lemma_word_start_bound(s: Seq<char>)
    ensures
        word_start(s) <= s.len(),
    decreases s.len(),
{
    if s.len() > 0 && !is_space(s.last()) {
        lemma_word_start_bound(s.drop_last());
    }
}

/// One edit keeps the cursor within the text.
pub proof fn lemma_edit_keeps_cursor(s: EditorState, e: Edit)
    requires
        s.wf(),
    ensures
        edit_spec(s, e).wf(),
{
    if let Edit::WordBackspace = e {
        let t = trim_end_len(s.text.take(s.cursor as int));
        lemma_trim_end_len_bound(s.text.take(s.cursor as int));
        lemma_word_start_bound(s.text.take(t as int));
    }
}

/// Whatever edits are made, one after another, the cursor stays within `[0, len(text)]`.
pub proof fn lemma_cursor_in_bounds(s: EditorState, es: Seq<Edit>)
    requires
        s.wf(),
    ensures
        edits_spec(s, es).wf(),
    decreases es.len(),
{
    if es.len() > 0 {
        lemma_cursor_in_bounds(s, es.drop_last());
        lemma_edit_keeps_cursor(edits_spec(s, es.drop_last()), es.last());
    }
}

/// The message being composed and the cursor, an index between its characters.
#[derive(Clone, Debug, PartialEq, Eq)]
pub struct Editor {
    pub text: Vec<char>,
    pub cursor: usize,
}

impl Editor {
    pub open spec fn state(&self) -> EditorState {
        EditorState { text: self.text@, cursor: self.cursor as nat }
    }

    pub open spec fn wf(&self) -> bool {
        self.state().wf()
    }

    /// An empty message, the cursor at its start.
    pub fn new() -> (e: Editor)
        ensures
            e.text@ == Seq::<char>::empty(),
            e.cursor == 0,
            e.wf(),
    {
        Editor { text: Vec::new(), cursor: 0 }
    }

    /// Puts `c` at the cursor and moves the cursor past it.
    pub fn insert(&mut self, c: char)
        requires
            old(self).wf(),
        ensures
            final(self).state() == edit_spec(old(self).state(), Edit::Insert(c)),
            final(self).wf(),
    {
        self.text.insert(self.cursor, c);
        let n = self.text.len();
        self.cursor = self.cursor + 1;
        assert(n == old(self).text@.len() + 1);
    }

    /// Removes the character before the cursor; nothing at the start of the message.
    pub fn backspace(&mut self)
        requires
            old(self).wf(),
        ensures
            final(self).state() == edit_spec(old(self).state(), Edit::Backspace),
            final(self).wf(),
    {
        if self.cursor > 0 {
            self.text.remove(self.cursor - 1);
            self.cursor = self.cursor - 1;
        }
    }

    /// Removes the whitespace before the cursor, then the word before that; what
    /// follows the cursor stays.
    pub fn word_backspace(&mut self)
        requires
            old(self).wf(),
        ensures
            final(self).state() == edit_spec(old(self).state(), Edit::WordBackspace),
            final(self).wf(),
    {
        let ghost s = self.text@;
        let cursor = self.cursor;
        let mut k: usize = cursor;
        while k > 0 && is_whitespace(self.text[k - 1])
            invariant
                k <= cursor <= s.len(),
                self.text@ == s,
                trim_end_len(s.take(cursor as int)) == trim_end_len(s.take(k as int)),
            decreases k,
        {
            assert(s.take(k as int).drop_last() =~= s.take(k - 1));
            k = k - 1;
        }
        let ghost t = k;
        assert(trim_end_len(s.take(k as int)) == k) by {
            if k > 0 {
                assert(s.take(k as int).last() == s[k - 1]);
            }
        }
        while k > 0 && !is_whitespace(self.text[k - 1])
            invariant
                k <= t <= cursor <= s.len(),
                self.text@ == s,
                word_start(s.take(t as int)) == word_start(s.take(k as int)),
            decreases k,
        {
            assert(s.take(k as int).drop_last() =~= s.take(k - 1));
            k = k - 1;
        }
        assert(word_start(s.take(k as int)) == k) by {
            if k > 0 {
                assert(s.take(k as int).last() == s[k - 1]);
            }
        }
        let mut text: Vec<char> = Vec::new();
        let mut i: usize = 0;
        while i < k
            invariant
                i <= k <= cursor <= s.len(),
                self.text@ == s,
                text@ == s.take(i as int),
            decreases k - i,
        {
            text.push(self.text[i]);
            i = i + 1;
            assert(text@ =~= s.take(i as int));
        }
        let mut j: usize = cursor;
        while j < self.text.len()
            invariant
                k <= cursor <= j <= s.len(),
                self.text@ == s,
                text@ == s.take(k as int) + s.subrange(cursor as int, j as int),
            decreases s.len() - j,
        {
            text.push(self.text[j]);
            j = j + 1;
            assert(text@ =~= s.take(k as int) + s.subrange(cursor as int, j as int));
        }
        assert(s.subrange(cursor as int, j as int) =~= s.skip(cursor as int));
        self.text = text;
        self.cursor = k;
    }

    /// Moves the cursor one character back, if it is not at the start.
    pub fn move_left(&mut self)
        requires
            old(self).wf(),
        ensures
            final(self).state() == edit_spec(old(self).state(), Edit::Left),
            final(self).wf(),
    {
        if self.cursor > 0 {
            self.cursor = self.cursor - 1;
        }
    }

    /// Moves the cursor one character on, if it is not at the end.
    pub fn move_right(&mut self)
        requires
            old(self).wf(),
        ensures
            final(self).state() == edit_spec(old(self).state(), Edit::Right),
            final(self).wf(),
    {
        if self.cursor < self.text.len() {
            self.cursor = self.cursor + 1;
        }
    }

    /// Empties the message.
    pub fn clear(&mut self)
        ensures
            final(self).state() == edit_spec(old(self).state(), Edit::Clear),
            final(self).wf(),
    {
        self.text = Vec::new();
        self.cursor = 0;
        assert(final(self).state().text =~= Seq::<char>::empty());
    }

    /// Makes one edit.
    pub fn apply(&mut self, e: Edit)
        requires
            old(self).wf(),
        ensures
            final(self).state() == edit_spec(old(self).state(), e),
            final(self).wf(),
    {
        match e {
            Edit::Insert(c) => self.insert(c),
            Edit::Backspace => self.backspace(),
            Edit::WordBackspace => self.word_backspace(),
            Edit::Left => self.move_left(),
            Edit::Right => self.move_right(),
            Edit::Clear => self.clear(),
        }
    }

    /// Hands out the message and empties the editor.
    pub fn take(&mut self) -> (text: Vec<char>)
        ensures
            text@ == old(self).text@,
            final(self).text@ == Seq::<char>::empty(),
            final(self).cursor == 0,
    {
        let text = self.text.split_off(0);
        self.cursor = 0;
        text
    }
}

} // verus!
