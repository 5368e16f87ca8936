//! The line editor of canonical input mode.
//!
//! As a line is edited the editor produces the echo that keeps the session's
//! screen in step, and on submit it hands the finished line over. Each session
//! owns an editor, so a line begun in one tab never shows up in another.

use vstd::prelude::*;
use vstd::string::*;
use vstd::utf8::*;

use crate::terminal::glyph::{char_columns, columns_of, glyph_width};
use crate::terminal::token::ESC;
use crate::text::{
    byte_len,
    byte_offset,
    char_width,
    decimal,
    lemma_encode_concat,
    lemma_encode_one,
    lemma_offset_end,
    lemma_offset_mono,
    push_decimal,
    string_bytes,
};

verus! {

/// Upper bound on the edited line in bytes, so that a line always fits the pipe
/// it is sent through.
pub const BUFFER_SIZE: usize = 256;

/// One edit request.
#[derive(Copy, Clone, Debug, PartialEq, Eq, Structural)]
pub enum CanonicalAction {
    Insert(char),
    Backspace,
    Delete,
    Left,
    Right,
    Home,
    End,
    Submit,
}

/// What an edit leads to: text to echo on the screen and, on submit, the bytes of
/// the finished line.
pub struct CanonicalEffect {
    pub echo: String,
    pub submit: Option<Vec<u8>>,
}

/// The columns that a text takes on screen.
pub open spec fn columns(text: Seq<char>) -> nat
    decreases text.len(),
{
    if text.len() == 0 {
        0
    } else {
        columns(text.drop_last()) + columns_of(glyph_width(text.last())) as nat
    }
}

/// A cursor sequence over `n` columns; nothing at all for none, because a
/// parameter of 0 moves by one.
pub open spec fn cursor_move(n: nat, code: char) -> Seq<char> {
    if n == 0 {
        Seq::empty()
    } else {
        (seq![ESC, '['] + decimal(n)).push(code)
    }
}

/// Cursor left over `n` columns.
pub open spec fn left_by(n: nat) -> Seq<char> {
    cursor_move(n, 'D')
}

/// Cursor right over `n` columns.
pub open spec fn right_by(n: nat) -> Seq<char> {
    cursor_move(n, 'C')
}

/// Erase to the end of the line, write `tail` and go back in front of it.
pub open spec fn redrawn(tail: Seq<char>) -> Seq<char> {
    seq![ESC, '[', '0', 'K'] + tail + left_by(columns(tail))
}

/// A line and the cursor in it, as a character index.
#[verifier::ext_equal]
pub struct Line {
    pub text: Seq<char>,
    pub cursor: int,
}

/// What an edit leads to, as a mathematical value.
#[verifier::ext_equal]
pub struct Edit {
    pub line: Line,
    pub echo: Seq<char>,
    pub submit: Option<Seq<u8>>,
}

impl Line {
    /// The cursor is in the line and the line fits its bound.
    pub open spec fn wf(self) -> bool {
        0 <= self.cursor <= self.text.len() && byte_len(self.text) <= BUFFER_SIZE
    }

    /// The text behind the cursor.
    pub open spec fn tail(self) -> Seq<char> {
        self.text.skip(self.cursor)
    }

    /// The line and its echo, with nothing submitted.
    pub open spec fn echoing(self, echo: Seq<char>) -> Edit {
        Edit { line: self, echo, submit: None }
    }

    /// What an edit makes of the line. A move at the end of the line, a removal
    /// with nothing to remove and an insertion beyond the bound do nothing.
    pub open spec fn edited(self, action: CanonicalAction) -> Edit {
        let at = self.cursor;
        let columns_at = |n: int| columns_of(glyph_width(self.text[n])) as nat;
        match action {
            CanonicalAction::Left => if at > 0 {
                Line { cursor: at - 1, ..self }.echoing(left_by(columns_at(at - 1)))
            } else {
                self.echoing(Seq::empty())
            },
            CanonicalAction::Right => if at < self.text.len() {
                Line { cursor: at + 1, ..self }.echoing(right_by(columns_at(at)))
            } else {
                self.echoing(Seq::empty())
            },
            CanonicalAction::Home => Line { cursor: 0, ..self }.echoing(
                left_by(columns(self.text.take(at))),
            ),
            CanonicalAction::End => Line { cursor: self.text.len() as int, ..self }.echoing(
                right_by(columns(self.tail())),
            ),
            CanonicalAction::Backspace => if at > 0 {
                let next = Line { text: self.text.remove(at - 1), cursor: at - 1 };
                next.echoing(left_by(columns_at(at - 1)) + redrawn(next.tail()))
            } else {
                self.echoing(Seq::empty())
            },
            CanonicalAction::Delete => if at < self.text.len() {
                let next = Line { text: self.text.remove(at), cursor: at };
                next.echoing(redrawn(next.tail()))
            } else {
                self.echoing(Seq::empty())
            },
            CanonicalAction::Insert(ch) => if byte_len(self.text) + byte_len(seq![ch])
                <= BUFFER_SIZE {
                let next = Line { text: self.text.insert(at, ch), cursor: at + 1 };
                next.echoing(seq![ch] + redrawn(next.tail()))
            } else {
                self.echoing(Seq::empty())
            },
            CanonicalAction::Submit => Edit {
                line: Line { text: Seq::empty(), cursor: 0 },
                echo: right_by(columns(self.tail())).push('\n'),
                submit: Some(encode_utf8(self.text)),
            },
        }
    }
}

impl View for CanonicalEditor {
    type V = Line;

    closed spec fn view(&self) -> Line {
        Line { text: self.buffer@, cursor: self.cursor_pos as int }
    }
}

impl CanonicalEffect {
    /// The effect goes with `edit`.
    pub open spec fn is(&self, edit: Edit) -> bool {
        &&& self.echo@ == edit.echo
        &&& match (self.submit, edit.submit) {
            (Some(bytes), Some(expected)) => bytes@ == expected,
            (None, None) => true,
            _ => false,
        }
    }

    fn none() -> (r: CanonicalEffect)
        ensures
            r.echo@ == Seq::<char>::empty(),
            r.submit is None,
    {
        CanonicalEffect { echo: String::new(), submit: None }
    }

    fn echo(echo: String) -> (r: CanonicalEffect)
        ensures
            r.echo@ == echo@,
            r.submit is None,
    {
        CanonicalEffect { echo, submit: None }
    }
}

proof fn lemma_columns_push(text: Seq<char>, c: char)
    ensures
        columns(text.push(c)) == columns(text) + columns_of(glyph_width(c)) as nat,
{
    assert(text.push(c).drop_last() =~= text);
}

/// Removing a character takes its bytes away, inserting one adds them.
proof fn lemma_insert_bytes(text: Seq<char>, n: int, c: char)
    requires
        0 <= n <= text.len(),
    ensures
        byte_len(text.insert(n, c)) == byte_len(text) + byte_len(seq![c]),
{
    let a = text.take(n);
    let b = text.skip(n);
    assert(text =~= a + b);
    assert(text.insert(n, c) =~= a + seq![c] + b);
    lemma_encode_concat(a, b);
    lemma_encode_concat(a, seq![c]);
    lemma_encode_concat(a + seq![c], b);
}

proof fn lemma_remove_bytes(text: Seq<char>, n: int)
    requires
        0 <= n < text.len(),
    ensures
        byte_len(text.remove(n)) < byte_len(text),
{
    lemma_insert_bytes(text.remove(n), n, text[n]);
    assert(text.remove(n).insert(n, text[n]) =~= text);
    lemma_encode_one(text[n]);
}

/// A text has no more characters than bytes.
proof fn lemma_chars_bytes(text: Seq<char>)
    ensures
        text.len() <= byte_len(text),
{
    lemma_offset_mono(text, 0, text.len() as int);
    lemma_offset_end(text);
}

/// The line editor.
pub struct CanonicalEditor {
    /// Cursor position as a character index into `buffer`.
    cursor_pos: usize,
    buffer: String,
}

impl CanonicalEditor {
    /// See `Line::wf`.
    pub open spec fn wf(&self) -> bool {
        self@.wf()
    }

    /// An editor with an empty line.
    pub fn new() -> (r: CanonicalEditor)
        ensures
            r.wf(),
            r@ == (Line { text: Seq::empty(), cursor: 0 }),
    {
        CanonicalEditor { cursor_pos: 0, buffer: String::new() }
    }

    /// An editor with the same line and cursor.
    pub fn copy(&self) -> (r: CanonicalEditor)
        ensures
            r@ == self@,
    {
        CanonicalEditor { cursor_pos: self.cursor_pos, buffer: self.buffer.clone() }
    }

    /// Carry out an edit.
    pub fn apply(&mut self, action: CanonicalAction) -> (r: CanonicalEffect)
        requires
            old(self).wf(),
        ensures
            final(self).wf(),
            final(self)@ == old(self)@.edited(action).line,
            r.is(old(self)@.edited(action)),
    {
        proof {
            lemma_chars_bytes(self@.text);
        }
        match action {
            CanonicalAction::Left => {
                if self.cursor_pos > 0 {
                    self.cursor_pos = self.cursor_pos - 1;
                    let columns: usize = self.columns_at(self.cursor_pos);
                    CanonicalEffect::echo(move_left(columns))
                } else {
                    CanonicalEffect::none()
                }
            },
            CanonicalAction::Right => {
                if self.cursor_pos < self.char_count() {
                    let columns: usize = self.columns_at(self.cursor_pos);
                    self.cursor_pos = self.cursor_pos + 1;
                    CanonicalEffect::echo(move_right(columns))
                } else {
                    CanonicalEffect::none()
                }
            },
            CanonicalAction::Home => {
                let head = self.buffer.as_str().substring_char(0, self.cursor_pos);
                let columns: usize = display_columns(head);
                proof {
                    assert(head@ =~= self@.text.take(self@.cursor));
                }
                self.cursor_pos = 0;
                CanonicalEffect::echo(move_left(columns))
            },
            CanonicalAction::End => {
                let columns: usize = display_columns(self.tail());
                self.cursor_pos = self.char_count();
                CanonicalEffect::echo(move_right(columns))
            },
            CanonicalAction::Backspace => {
                if self.cursor_pos > 0 {
                    self.cursor_pos = self.cursor_pos - 1;
                    let removed = self.remove_at_cursor();
                    let mut echo = move_left(char_columns(removed) as usize);
                    echo.push_str(self.redraw_tail().as_str());
                    CanonicalEffect::echo(echo)
                } else {
                    CanonicalEffect::none()
                }
            },
            CanonicalAction::Delete => {
                if self.cursor_pos < self.char_count() {
                    let _ = self.remove_at_cursor();
                    CanonicalEffect::echo(self.redraw_tail())
                } else {
                    CanonicalEffect::none()
                }
            },
            CanonicalAction::Insert(ch) => {
                if string_bytes(&self.buffer) + char_width(ch) <= BUFFER_SIZE {
                    let offset: usize = byte_offset(self.buffer.as_str(), self.cursor_pos);
                    proof {
                        lemma_insert_bytes(self@.text, self@.cursor, ch);
                    }
                    self.buffer.insert(offset, ch);
                    self.cursor_pos = self.cursor_pos + 1;
                    let mut echo = String::new();
                    echo.push(ch);
                    echo.push_str(self.redraw_tail().as_str());
                    proof {
                        assert(echo@ =~= seq![ch] + redrawn(self@.tail()));
                    }
                    CanonicalEffect::echo(echo)
                } else {
                    CanonicalEffect::none()
                }
            },
            CanonicalAction::Submit => {
                let mut echo = move_right(display_columns(self.tail()));
                echo.push('\n');
                let line = self.buffer.as_str().as_bytes_vec();
                self.buffer.clear();
                self.cursor_pos = 0;
                CanonicalEffect { echo, submit: Some(line) }
            },
        }
    }

    /// Remove the character behind the cursor.
    fn remove_at_cursor(&mut self) -> (r: char)
        requires
            old(self).wf(),
            old(self)@.cursor < old(self)@.text.len(),
        ensures
            final(self).wf(),
            final(self)@ == (Line {
                text: old(self)@.text.remove(old(self)@.cursor),
                cursor: old(self)@.cursor,
            }),
            r == old(self)@.text[old(self)@.cursor],
    {
        let offset: usize = byte_offset(self.buffer.as_str(), self.cursor_pos);
        proof {
            let t = self@.text;
            lemma_offset_mono(t, self@.cursor, t.len() as int);
            lemma_offset_end(t);
            lemma_remove_bytes(t, self@.cursor);
        }
        self.buffer.remove(offset)
    }

    /// The text behind the cursor.
    fn tail(&self) -> (r: &str)
        requires
            self.wf(),
        ensures
            r@ == self@.tail(),
            r@.len() <= BUFFER_SIZE,
    {
        let text = self.buffer.as_str();
        proof {
            lemma_chars_bytes(self@.text);
            assert(self@.text.subrange(self@.cursor, self@.text.len() as int) =~= self@.tail());
        }
        text.substring_char(self.cursor_pos, text.unicode_len())
    }

    /// The echo that redraws the line behind the cursor and leaves the cursor
    /// where it is. The leading erase clears whatever a longer tail left behind.
    fn redraw_tail(&self) -> (r: String)
        requires
            self.wf(),
        ensures
            r@ == redrawn(self@.tail()),
    {
        let tail = self.tail();
        let mut echo = String::new();
        echo.push(ESC);
        echo.push('[');
        echo.push('0');
        echo.push('K');
        echo.push_str(tail);
        echo.push_str(move_left(display_columns(tail)).as_str());
        proof {
            assert(echo@ =~= redrawn(self@.tail()));
        }
        echo
    }

    fn char_count(&self) -> (r: usize)
        ensures
            r == self@.text.len(),
    {
        self.buffer.as_str().unicode_len()
    }

    /// The columns of the character with this index.
    fn columns_at(&self, index: usize) -> (r: usize)
        requires
            index < self@.text.len(),
        ensures
            r == columns_of(glyph_width(self@.text[index as int])),
            r <= 2,
    {
        char_columns(self.buffer.as_str().get_char(index)) as usize
    }
}

/// The columns that a text takes on screen, which is neither its byte length nor
/// its character count.
pub fn display_columns(text: &str) -> (r: usize)
    requires
        2 * text@.len() <= usize::MAX,
    ensures
        r == columns(text@),
        r <= 2 * text@.len(),
{
    let mut sum: usize = 0;
    let mut i: usize = 0;
    let count: usize = text.unicode_len();
    proof {
        assert(text@.take(0) =~= Seq::<char>::empty());
    }
    while i < count
        invariant
            i <= count,
            count == text@.len(),
            2 * count <= usize::MAX,
            sum == columns(text@.take(i as int)),
            sum <= 2 * i,
        decreases count - i,
    {
        let c = text.get_char(i);
        proof {
            assert(text@.take(i + 1) =~= text@.take(i as int).push(c));
            lemma_columns_push(text@.take(i as int), c);
        }
        sum = sum + char_columns(c) as usize;
        i = i + 1;
    }
    proof {
        assert(text@.take(i as int) =~= text@);
    }
    sum
}

fn move_by(columns: usize, code: char) -> (r: String)
    ensures
        r@ == cursor_move(columns as nat, code),
{
    let mut s = String::new();
    if columns > 0 {
        s.push(ESC);
        s.push('[');
        push_decimal(&mut s, columns as u64);
        s.push(code);
    }
    proof {
        assert(s@ =~= cursor_move(columns as nat, code));
    }
    s
}

/// Cursor left, or nothing for no columns.
pub fn move_left(columns: usize) -> (r: String)
    ensures
        r@ == left_by(columns as nat),
{
    move_by(columns, 'D')
}

/// Cursor right, or nothing for no columns.
pub fn move_right(columns: usize) -> (r: String)
    ensures
        r@ == right_by(columns as nat),
{
    move_by(columns, 'C')
}

/// Every edit keeps the cursor in the line and the line within its bound.
pub proof fn law_edit_keeps_bound(line: Line, action: CanonicalAction)
    requires
        line.wf(),
    ensures
        line.edited(action).line.wf(),
{
    match action {
        CanonicalAction::Insert(ch) => {
            lemma_insert_bytes(line.text, line.cursor, ch);
        },
        CanonicalAction::Backspace => {
            if line.cursor > 0 {
                lemma_remove_bytes(line.text, line.cursor - 1);
            }
        },
        CanonicalAction::Delete => {
            if line.cursor < line.text.len() {
                lemma_remove_bytes(line.text, line.cursor);
            }
        },
        _ => {},
    }
}

/// A backspace takes back the character that was just inserted.
pub proof fn law_insert_backspace(line: Line, ch: char)
    requires
        line.wf(),
        byte_len(line.text) + byte_len(seq![ch]) <= BUFFER_SIZE,
    ensures
        line.edited(CanonicalAction::Insert(ch)).line.edited(CanonicalAction::Backspace).line
            == line,
{
    assert(line.text.insert(line.cursor, ch).remove(line.cursor) =~= line.text);
}

/// A step left and a step right cancel out, in the line and in the columns that
/// the two echoes move over.
pub proof fn law_left_right(line: Line)
    requires
        line.wf(),
        line.cursor > 0,
    ensures
        ({
            let left = line.edited(CanonicalAction::Left);
            let right = left.line.edited(CanonicalAction::Right);
            let n = columns_of(glyph_width(line.text[line.cursor - 1])) as nat;
            right.line == line && left.echo == left_by(n) && right.echo == right_by(n)
        }),
{
}

/// Submitting hands over the line as UTF-8 and leaves an empty line, which
/// submits nothing but an empty line.
pub proof fn law_submit(line: Line)
    ensures
        ({
            let done = line.edited(CanonicalAction::Submit);
            &&& done.submit == Some(encode_utf8(line.text))
            &&& done.line.text == Seq::<char>::empty()
            &&& done.line.edited(CanonicalAction::Submit).submit == Some(Seq::<u8>::empty())
        }),
{
}

/// Characters are inserted where the cursor is, which goes behind them. What stood in
/// front stays, what stood behind moves by one. A character for which the line has no room
/// changes nothing and shows nothing.
pub proof fn law_inserted_at_cursor(line: Line, ch: char)
    requires
        0 <= line.cursor <= line.text.len(),
    ensures
        ({
            let edit = line.edited(CanonicalAction::Insert(ch));
            let (text, at) = (edit.line.text, line.cursor);
            &&& edit.submit is None
            &&& encode_utf8(line.text).len() + encode_utf8(seq![ch]).len() <= 256 ==> {
                &&& text.len() == line.text.len() + 1
                &&& edit.line.cursor == at + 1
                &&& text[at] == ch
                &&& forall|k: int| 0 <= k < at ==> #[trigger] text[k] == line.text[k]
                &&& forall|k: int| at < k < text.len() ==> #[trigger] text[k] == line.text[k - 1]
                &&& edit.echo.len() > 0 && edit.echo[0] == ch
            }
            &&& encode_utf8(line.text).len() + encode_utf8(seq![ch]).len() > 256 ==> {
                edit.line == line && edit.echo.len() == 0
            }
        }),
{
}

/// A backspace removes the character in front of the cursor, a delete the one behind it.
/// Without such a character they change nothing and show nothing.
pub proof fn law_removed_at_cursor(line: Line)
    requires
        0 <= line.cursor <= line.text.len(),
    ensures
        ({
            let edit = line.edited(CanonicalAction::Backspace);
            let (text, at) = (edit.line.text, line.cursor);
            &&& edit.submit is None
            &&& at == 0 ==> edit.line == line && edit.echo.len() == 0
            &&& at > 0 ==> {
                &&& text.len() == line.text.len() - 1
                &&& edit.line.cursor == at - 1
                &&& forall|k: int| 0 <= k < at - 1 ==> #[trigger] text[k] == line.text[k]
                &&& forall|k: int|
                    at - 1 <= k < text.len() ==> #[trigger] text[k] == line.text[k + 1]
            }
        }),
        ({
            let edit = line.edited(CanonicalAction::Delete);
            let (text, at) = (edit.line.text, line.cursor);
            &&& edit.submit is None
            &&& edit.line.cursor == at
            &&& at == line.text.len() ==> edit.line == line && edit.echo.len() == 0
            &&& at < line.text.len() ==> {
                &&& text.len() == line.text.len() - 1
                &&& forall|k: int| 0 <= k < at ==> #[trigger] text[k] == line.text[k]
                &&& forall|k: int| at <= k < text.len() ==> #[trigger] text[k] == line.text[k + 1]
            }
        }),
{
}

/// Moving leaves the text alone and submits nothing: left and right go by one character
/// and stay in the line, home goes to its start and end to its end.
pub proof fn law_moves_within_line(line: Line)
    requires
        0 <= line.cursor <= line.text.len(),
    ensures
        ({
            let left = line.edited(CanonicalAction::Left);
            let right = line.edited(CanonicalAction::Right);
            let home = line.edited(CanonicalAction::Home);
            let end = line.edited(CanonicalAction::End);
            let (at, n) = (line.cursor, line.text.len());
            &&& left.line.text == line.text && left.submit is None
            &&& right.line.text == line.text && right.submit is None
            &&& home.line.text == line.text && home.submit is None
            &&& end.line.text == line.text && end.submit is None
            &&& left.line.cursor == if at == 0 {
                0
            } else {
                at - 1
            }
            &&& right.line.cursor == if at == n {
                at
            } else {
                at + 1
            }
            &&& home.line.cursor == 0
            &&& end.line.cursor == n
            &&& at == 0 ==> left.echo.len() == 0 && home.echo.len() == 0
            &&& at == n ==> right.echo.len() == 0 && end.echo.len() == 0
        }),
{
    assert(line.text.take(0) =~= Seq::empty());
    assert(line.text.skip(line.text.len() as int) =~= Seq::empty());
}

/// A submitted line ends on the screen with one line feed, behind everything else.
pub proof fn law_submit_ends_line(line: Line)
    ensures
        ({
            let edit = line.edited(CanonicalAction::Submit);
            &&& edit.line.text.len() == 0 && edit.line.cursor == 0
            &&& edit.submit == Some(encode_utf8(line.text))
            &&& edit.echo.len() > 0 && edit.echo.last() == '\n'
            &&& line.cursor == line.text.len() ==> edit.echo.len() == 1
        }),
{
    assert(line.text.skip(line.text.len() as int) =~= Seq::empty());
}

/// A cursor move consists of the escape character, a bracket, the number of columns and
/// one letter: `D` to the left, `C` to the right.
pub proof fn law_cursor_moves_are_spelled(n: nat)
    requires
        n > 0,
    ensures
        left_by(n) == seq!['\u{1b}', '['] + decimal(n) + seq!['D'],
        right_by(n) == seq!['\u{1b}', '['] + decimal(n) + seq!['C'],
        left_by(0).len() == 0,
        right_by(0).len() == 0,
{
    assert(left_by(n) =~= seq!['\u{1b}', '['] + decimal(n) + seq!['D']);
    assert(right_by(n) =~= seq!['\u{1b}', '['] + decimal(n) + seq!['C']);
}

} // verus!
