//! The line being edited: its text, the byte from which it has to be redrawn, and
//! the cursor.
//!
//! Positions inside the line are character indices; only the dirty index is a
//! byte offset.

use vstd::prelude::*;
use vstd::string::*;

use crate::text::{
    byte_len,
    byte_offset,
    char_index,
    index_at,
    is_boundary,
    lemma_index_at,
    lemma_offset_end,
    lemma_offset_mono,
    lemma_offset_prefix,
    offset_of,
    string_bytes,
};

verus! {

/// A line, the byte offset of its first character that is not drawn yet, and the
/// cursor as a character index.
#[derive(Debug, Clone)]
pub struct LineContext {
    line: String,
    dirty_index: usize,
    cursor_position: usize,
}

impl Default for LineContext {
    /// An empty line.
    fn default() -> (r: LineContext)
        ensures
            r.text() == Seq::<char>::empty(),
            r.dirty() == 0,
            r.cursor() == 0,
            r.can_cut(),
    {
        LineContext::new()
    }
}

impl LineContext {
    /// The text of the line.
    pub closed spec fn text(&self) -> Seq<char> {
        self.line@
    }

    /// The byte offset of the first character that is not drawn yet.
    pub closed spec fn dirty(&self) -> int {
        self.dirty_index as int
    }

    /// The cursor.
    pub closed spec fn cursor(&self) -> int {
        self.cursor_position as int
    }

    /// The dirty index lies on a character boundary of the line, so that the part
    /// to draw can be cut off.
    pub open spec fn can_cut(&self) -> bool {
        is_boundary(self.text(), self.dirty())
    }

    /// An empty line.
    pub fn new() -> (r: LineContext)
        ensures
            r.text() == Seq::<char>::empty(),
            r.dirty() == 0,
            r.cursor() == 0,
            r.can_cut(),
    {
        let r = LineContext { line: String::new(), dirty_index: 0, cursor_position: 0 };
        proof {
            lemma_offset_end(r.text());
            lemma_index_at(r.text(), 0);
        }
        r
    }

    /// Start over with an empty line.
    pub fn reset(&mut self)
        ensures
            final(self).text() == Seq::<char>::empty(),
            final(self).dirty() == 0,
            final(self).cursor() == 0,
            final(self).can_cut(),
    {
        *self = LineContext::new();
    }

    /// The whole line is drawn.
    pub fn mark_clean(&mut self)
        ensures
            final(self).text() == old(self).text(),
            final(self).dirty() == byte_len(old(self).text()),
            final(self).cursor() == old(self).cursor(),
            final(self).can_cut(),
    {
        self.dirty_index = string_bytes(&self.line);
        proof {
            lemma_offset_end(self.text());
            lemma_index_at(self.text(), self.text().len() as int);
        }
    }

    /// The line has to be redrawn from this byte on, or from further left if it
    /// had to be before.
    pub fn mark_dirty_at(&mut self, index: usize)
        ensures
            final(self).text() == old(self).text(),
            final(self).dirty() == if index < old(self).dirty() {
                index as int
            } else {
                old(self).dirty()
            },
            final(self).cursor() == old(self).cursor(),
    {
        if index < self.dirty_index {
            self.dirty_index = index;
        }
    }

    /// The line.
    pub fn get(&self) -> (r: &String)
        ensures
            r@ == self.text(),
    {
        &self.line
    }

    /// The part of the line that is not drawn yet.
    pub fn get_dirty_part(&self) -> (r: &str)
        requires
            self.can_cut(),
        ensures
            r@ == self.text().skip(index_at(self.text(), self.dirty())),
    {
        let line = self.line.as_str();
        let from: usize = char_index(line, self.dirty_index);
        let to: usize = line.unicode_len();
        proof {
            assert(self.text().subrange(from as int, to as int) =~= self.text().skip(from as int));
        }
        line.substring_char(from, to)
    }

    /// The byte offset of the first character that is not drawn yet.
    pub fn get_dirty_index(&self) -> (r: usize)
        ensures
            r == self.dirty(),
    {
        self.dirty_index
    }

    /// The index of the first character that is not drawn yet.
    pub fn get_dirty_char_index(&self) -> (r: usize)
        requires
            self.can_cut(),
        ensures
            r == index_at(self.text(), self.dirty()),
            r <= self.text().len(),
            offset_of(self.text(), r as int) == self.dirty(),
    {
        char_index(self.line.as_str(), self.dirty_index)
    }

    /// Whether a part of the line is not drawn yet.
    pub fn is_dirty(&self) -> (r: bool)
        ensures
            r == (self.dirty() < byte_len(self.text())),
    {
        self.dirty_index < string_bytes(&self.line)
    }

    /// The length of the line in bytes.
    pub fn len(&self) -> (r: usize)
        ensures
            r == byte_len(self.text()),
    {
        string_bytes(&self.line)
    }

    /// The length of the line in characters.
    pub fn char_len(&self) -> (r: usize)
        ensures
            r == self.text().len(),
    {
        self.line.as_str().unicode_len()
    }

    /// Append a character.
    pub fn push(&mut self, ch: char)
        ensures
            final(self).text() == old(self).text().push(ch),
            final(self).dirty() == old(self).dirty(),
            final(self).cursor() == old(self).cursor(),
            old(self).can_cut() ==> final(self).can_cut(),
    {
        self.line.push(ch);
        proof {
            if old(self).can_cut() {
                let n = index_at(old(self).text(), old(self).dirty());
                lemma_offset_prefix(old(self).text(), self.text(), n);
            }
        }
    }

    /// Append a text.
    pub fn push_str(&mut self, string: &str)
        ensures
            final(self).text() == old(self).text() + string@,
            final(self).dirty() == old(self).dirty(),
            final(self).cursor() == old(self).cursor(),
            old(self).can_cut() ==> final(self).can_cut(),
    {
        self.line.push_str(string);
        proof {
            if old(self).can_cut() {
                let n = index_at(old(self).text(), old(self).dirty());
                lemma_offset_prefix(old(self).text(), self.text(), n);
            }
        }
    }

    /// Remove the last character. The line has to be redrawn from there on.
    pub fn pop(&mut self) -> (r: Option<char>)
        ensures
            old(self).text().len() == 0 ==> {
                &&& r is None
                &&& final(self).text() == old(self).text()
                &&& final(self).dirty() == old(self).dirty()
            },
            old(self).text().len() > 0 ==> {
                let left = byte_len(old(self).text().drop_last()) as int;
                &&& r == Some(old(self).text().last())
                &&& final(self).text() == old(self).text().drop_last()
                &&& final(self).dirty() == if left < old(self).dirty() {
                    left
                } else {
                    old(self).dirty()
                }
            },
            final(self).cursor() == old(self).cursor(),
            old(self).can_cut() ==> final(self).can_cut(),
    {
        let ch = self.line.pop();
        if ch.is_some() {
            let left: usize = string_bytes(&self.line);
            self.mark_dirty_at(left);
            proof {
                lemma_offset_end(self.text());
                lemma_index_at(self.text(), self.text().len() as int);
                if old(self).can_cut() {
                    let n = index_at(old(self).text(), old(self).dirty());
                    let last = self.text().len() as int;
                    lemma_offset_prefix(self.text(), old(self).text(), last);
                    if n <= last {
                        lemma_offset_prefix(self.text(), old(self).text(), n);
                        lemma_offset_mono(self.text(), n, last);
                    } else {
                        lemma_offset_mono(old(self).text(), last, n);
                    }
                }
            }
        }
        ch
    }

    /// Insert a character at a character index; beyond the end it is appended.
    pub fn insert(&mut self, char_index: usize, ch: char)
        ensures
            ({
                let t = old(self).text();
                let n = if char_index < t.len() {
                    char_index as int
                } else {
                    t.len() as int
                };
                &&& final(self).text() == t.insert(n, ch)
                &&& final(self).dirty() == if offset_of(t, n) < old(self).dirty() {
                    offset_of(t, n) as int
                } else {
                    old(self).dirty()
                }
            }),
            final(self).cursor() == old(self).cursor(),
            old(self).can_cut() ==> final(self).can_cut(),
    {
        let byte_index: usize = byte_offset(self.line.as_str(), char_index);
        self.line.insert(byte_index, ch);
        self.mark_dirty_at(byte_index);
        proof {
            let t = old(self).text();
            let n = if char_index < t.len() {
                char_index as int
            } else {
                t.len() as int
            };
            self.lemma_cut_kept(*old(self), n);
        }
    }

    /// Remove the character at a character index.
    pub fn remove(&mut self, char_index: usize)
        requires
            char_index < old(self).text().len(),
        ensures
            ({
                let t = old(self).text();
                let n = char_index as int;
                &&& final(self).text() == t.remove(n)
                &&& final(self).dirty() == if offset_of(t, n) < old(self).dirty() {
                    offset_of(t, n) as int
                } else {
                    old(self).dirty()
                }
            }),
            final(self).cursor() == old(self).cursor(),
            old(self).can_cut() ==> final(self).can_cut(),
    {
        let byte_index: usize = byte_offset(self.line.as_str(), char_index);
        proof {
            let t = self.text();
            lemma_offset_mono(t, char_index as int, t.len() as int);
            lemma_offset_end(t);
        }
        let _ = self.line.remove(byte_index);
        self.mark_dirty_at(byte_index);
        proof {
            self.lemma_cut_kept(*old(self), char_index as int);
        }
    }

    /// An edit at character `n` that marks the line dirty there leaves the dirty
    /// index on a boundary.
    proof fn lemma_cut_kept(self, before: LineContext, n: int)
        requires
            0 <= n <= before.text().len(),
            n <= self.text().len(),
            self.text().take(n) =~= before.text().take(n),
            self.dirty() == if offset_of(before.text(), n) < before.dirty() {
                offset_of(before.text(), n) as int
            } else {
                before.dirty()
            },
        ensures
            before.can_cut() ==> self.can_cut(),
    {
        if before.can_cut() {
            let m = index_at(before.text(), before.dirty());
            if n <= m {
                lemma_offset_mono(before.text(), n, m);
                assert(offset_of(self.text(), n) == offset_of(before.text(), n));
            } else {
                lemma_offset_mono(before.text(), m, n);
                assert(self.text().take(m) =~= self.text().take(n).take(m));
                assert(before.text().take(m) =~= before.text().take(n).take(m));
                assert(offset_of(self.text(), m) == before.dirty());
            }
        }
    }

    /// The cursor.
    pub fn get_cursor_pos(&self) -> (r: usize)
        ensures
            r == self.cursor(),
    {
        self.cursor_position
    }

    /// Put the cursor anywhere.
    pub fn set_cursor_pos(&mut self, pos: usize)
        ensures
            final(self).cursor() == pos,
            final(self).text() == old(self).text(),
            final(self).dirty() == old(self).dirty(),
    {
        self.cursor_position = pos;
    }

    /// Move the cursor left.
    pub fn move_cursor_left(&mut self, step: usize)
        requires
            step <= old(self).cursor(),
        ensures
            final(self).cursor() == old(self).cursor() - step,
            final(self).text() == old(self).text(),
            final(self).dirty() == old(self).dirty(),
    {
        self.cursor_position = self.cursor_position - step;
    }

    /// Move the cursor right.
    pub fn move_cursor_right(&mut self, step: usize)
        requires
            old(self).cursor() + step <= usize::MAX,
        ensures
            final(self).cursor() == old(self).cursor() + step,
            final(self).text() == old(self).text(),
            final(self).dirty() == old(self).dirty(),
    {
        self.cursor_position = self.cursor_position + step;
    }

    /// Whether the cursor is on the first character.
    pub fn is_cursor_at_start(&self) -> (r: bool)
        ensures
            r == (self.cursor() == 0),
    {
        self.cursor_position == 0
    }

    /// Whether the cursor is behind the last character.
    pub fn is_cursor_at_end(&self) -> (r: bool)
        ensures
            r == (self.cursor() >= self.text().len()),
    {
        self.cursor_position >= self.char_len()
    }
}

/// A line put together from its drawn and its dirty part is the line.
pub proof fn law_dirty_part_completes(text: Seq<char>, dirty: int)
    requires
        is_boundary(text, dirty),
    ensures
        text.take(index_at(text, dirty)) + text.skip(index_at(text, dirty)) == text,
        byte_len(text.take(index_at(text, dirty))) == dirty,
{
    let n = index_at(text, dirty);
    assert(text.take(n) + text.skip(n) =~= text);
}

/// Removing the character that was just inserted gives the line back.
pub proof fn law_insert_remove(text: Seq<char>, n: int, ch: char)
    requires
        0 <= n <= text.len(),
    ensures
        text.insert(n, ch).remove(n) == text,
        text.insert(n, ch)[n] == ch,
{
    assert(text.insert(n, ch).remove(n) =~= text);
}

} // verus!
