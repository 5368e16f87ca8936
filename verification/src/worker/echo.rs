//! How the line editor's echo keeps the screen in step with the line.

use vstd::prelude::*;

use crate::terminal::action::Act;
use crate::terminal::ansi::law_applied_all;
use crate::terminal::glyph::{columns_of, glyph_width};
use crate::terminal::model::{law_applied_wf, Cell, Screen};
use crate::terminal::place::law_after_all_splits;
use crate::terminal::token::{
    lemma_spelled_push,
    lemma_wording_concat,
    token_acts,
    tokens_wf,
    wording,
    Token,
    ESC,
};
use crate::text::byte_len;
use crate::worker::canonical::{
    columns,
    cursor_move,
    redrawn,
    right_by,
    CanonicalAction,
    Line,
    BUFFER_SIZE,
};

verus! {

/// Every character is one from the space on.
pub open spec fn printable(text: Seq<char>) -> bool {
    forall|i: int| 0 <= i < text.len() ==> #[trigger] text[i] as u32 >= 0x20
}

/// A text as tokens.
pub open spec fn text_tokens(text: Seq<char>) -> Seq<Token>
    decreases text.len(),
{
    if text.len() == 0 {
        Seq::empty()
    } else {
        text_tokens(text.drop_last()).push(Token::Char(text.last()))
    }
}

/// A cursor sequence over `n` columns as tokens; none for no columns.
pub open spec fn move_tokens(n: nat, code: char) -> Seq<Token> {
    if n == 0 {
        Seq::empty()
    } else {
        seq![Token::Sequence { params: seq![n as u16], code }]
    }
}

/// The redrawing of the line behind the cursor as tokens.
pub open spec fn redraw_tokens(tail: Seq<char>) -> Seq<Token> {
    seq![Token::Sequence { params: seq![0u16], code: 'K' }] + text_tokens(tail) + move_tokens(
        columns(tail),
        'D',
    )
}

/// The columns of one character.
pub open spec fn char_cols(c: char) -> nat {
    columns_of(glyph_width(c)) as nat
}

/// The echo of an edit as tokens.
pub open spec fn echo_tokens(line: Line, action: CanonicalAction) -> Seq<Token> {
    let at = line.cursor;
    let next = line.edited(action).line;
    match action {
        CanonicalAction::Left => if at > 0 {
            move_tokens(char_cols(line.text[at - 1]), 'D')
        } else {
            Seq::empty()
        },
        CanonicalAction::Right => if at < line.text.len() {
            move_tokens(char_cols(line.text[at]), 'C')
        } else {
            Seq::empty()
        },
        CanonicalAction::Home => move_tokens(columns(line.text.take(at)), 'D'),
        CanonicalAction::End => move_tokens(columns(line.tail()), 'C'),
        CanonicalAction::Backspace => if at > 0 {
            move_tokens(char_cols(line.text[at - 1]), 'D') + redraw_tokens(next.tail())
        } else {
            Seq::empty()
        },
        CanonicalAction::Delete => if at < line.text.len() {
            redraw_tokens(next.tail())
        } else {
            Seq::empty()
        },
        CanonicalAction::Insert(ch) => if byte_len(line.text) + byte_len(seq![ch]) <= BUFFER_SIZE {
            text_tokens(seq![ch]) + redraw_tokens(next.tail())
        } else {
            Seq::empty()
        },
        CanonicalAction::Submit => move_tokens(columns(line.tail()), 'C').push(
            Token::Control('\n'),
        ),
    }
}

/// What a cell shows: its character and its width.
pub open spec fn face(cells: Seq<Cell>) -> Seq<(char, u8)> {
    Seq::new(cells.len(), |j: int| (cells[j].value, cells[j].width))
}

/// The cells that a text fills: a lead cell for each glyph, then the cells that
/// continue it.
pub open spec fn glyphs(text: Seq<char>) -> Seq<(char, u8)>
    decreases text.len(),
{
    if text.len() == 0 {
        Seq::empty()
    } else {
        glyphs(text.drop_last()) + glyph_face(text.last())
    }
}

/// The cells that one character fills.
pub open spec fn glyph_face(c: char) -> Seq<(char, u8)> {
    Seq::new(
        char_cols(c),
        |j: int|
            if j == 0 {
                (c, char_cols(c) as u8)
            } else {
                ('\0', 0u8)
            },
    )
}

/// `n` blank cells.
pub open spec fn blanks(n: int) -> Seq<(char, u8)> {
    Seq::new(n as nat, |j: int| ('\0', 1u8))
}

/// The cells show the text from column `start` on.
pub open spec fn reads(cells: Seq<Cell>, start: int, text: Seq<char>) -> bool {
    &&& start + columns(text) <= cells.len()
    &&& face(cells).subrange(start, start + columns(text)) == glyphs(text)
}

/// The cells are blank from column `start` on.
pub open spec fn blank_from(cells: Seq<Cell>, start: int) -> bool {
    face(cells).skip(start) == blanks(cells.len() - start)
}

/// The screen shows the line from column `start` of the cursor's row on, with
/// room behind it, and the cursor stands where the line's cursor is.
pub open spec fn in_step(s: Screen, start: int, line: Line) -> bool {
    &&& s.place.rows >= 2
    &&& 0 <= start
    &&& start + columns(line.text) < s.place.cols
    &&& s.place.col == start + columns(line.text.take(line.cursor))
    &&& reads(s.grid[s.place.row].cells, start, line.text)
}

proof fn lemma_columns_concat(a: Seq<char>, b: Seq<char>)
    ensures
        columns(a + b) == columns(a) + columns(b),
        glyphs(a + b) == glyphs(a) + glyphs(b),
    decreases b.len(),
{
    if b.len() == 0 {
        assert(a + b =~= a);
        assert(glyphs(a) + glyphs(b) =~= glyphs(a));
    } else {
        assert((a + b).drop_last() =~= a + b.drop_last());
        lemma_columns_concat(a, b.drop_last());
        assert(glyphs(a + b) =~= glyphs(a) + glyphs(b));
    }
}

proof fn lemma_columns_one(c: char)
    ensures
        columns(seq![c]) == char_cols(c),
        glyphs(seq![c]) == glyph_face(c),
{
    reveal_with_fuel(columns, 2);
    reveal_with_fuel(glyphs, 2);
    assert(seq![c].drop_last() =~= Seq::<char>::empty());
    assert(glyphs(seq![c]) =~= glyph_face(c));
}

proof fn lemma_glyphs_len(text: Seq<char>)
    ensures
        glyphs(text).len() == columns(text),
    decreases text.len(),
{
    if text.len() > 0 {
        lemma_glyphs_len(text.drop_last());
    }
}

proof fn lemma_one_token(token: Token)
    ensures
        wording(seq![token]) == token.text(),
        token.wf() ==> tokens_wf(seq![token]),
{
    assert(seq![token].drop_last() =~= Seq::empty());
    assert(wording(seq![token].drop_last()) =~= Seq::<char>::empty());
    assert(wording(seq![token]) =~= token.text());
}

proof fn lemma_move_wording(n: nat, code: char)
    requires
        n <= 65535,
        0x40 <= code as u32 <= 0x7e,
    ensures
        wording(move_tokens(n, code)) == cursor_move(n, code),
        tokens_wf(move_tokens(n, code)),
{
    if n > 0 {
        lemma_one_token(Token::Sequence { params: seq![n as u16], code });
    }
}

proof fn lemma_text_wording(text: Seq<char>)
    requires
        printable(text),
    ensures
        wording(text_tokens(text)) == text,
        tokens_wf(text_tokens(text)),
    decreases text.len(),
{
    if text.len() == 0 {
        assert(wording(text_tokens(text)) =~= text);
    } else {
        let before = text.drop_last();
        assert(printable(before));
        lemma_text_wording(before);
        assert(before.push(text.last()) =~= text);
        lemma_text_wording_push(before, text.last());
    }
}

proof fn lemma_text_wording_push(text: Seq<char>, c: char)
    requires
        c as u32 >= 0x20,
        wording(text_tokens(text)) == text,
        tokens_wf(text_tokens(text)),
    ensures
        wording(text_tokens(text.push(c))) == text.push(c),
        tokens_wf(text_tokens(text.push(c))),
{
    let tokens = text_tokens(text);
    assert(text.push(c).drop_last() =~= text);
    assert(tokens.push(Token::Char(c)).drop_last() =~= tokens);
    assert(wording(tokens.push(Token::Char(c))) =~= text.push(c));
}

proof fn lemma_redraw_wording(tail: Seq<char>)
    requires
        printable(tail),
        columns(tail) <= 65535,
    ensures
        wording(redraw_tokens(tail)) == redrawn(tail),
        tokens_wf(redraw_tokens(tail)),
{
    let erase = Token::Sequence { params: seq![0u16], code: 'K' };
    let back = move_tokens(columns(tail), 'D');
    lemma_one_token(erase);
    lemma_text_wording(tail);
    lemma_move_wording(columns(tail), 'D');
    lemma_wording_concat(seq![erase], text_tokens(tail));
    lemma_wording_concat(seq![erase] + text_tokens(tail), back);
    assert(erase.text() =~= seq![ESC, '[', '0', 'K']);
}

/// The columns of a part of a line are no more than those of the line.
proof fn lemma_columns_split(text: Seq<char>, n: int)
    requires
        0 <= n <= text.len(),
    ensures
        columns(text) == columns(text.take(n)) + columns(text.skip(n)),
        glyphs(text) == glyphs(text.take(n)) + glyphs(text.skip(n)),
        printable(text) ==> printable(text.take(n)) && printable(text.skip(n)),
        n < text.len() ==> columns(text.skip(n)) == char_cols(text[n]) + columns(text.skip(n + 1)),
        n < text.len() ==> columns(text.take(n + 1)) == columns(text.take(n)) + char_cols(text[n]),
{
    assert(text =~= text.take(n) + text.skip(n));
    lemma_columns_concat(text.take(n), text.skip(n));
    if n < text.len() {
        assert(text.skip(n) =~= seq![text[n]] + text.skip(n + 1));
        lemma_columns_concat(seq![text[n]], text.skip(n + 1));
        assert(text.take(n + 1) =~= text.take(n) + seq![text[n]]);
        lemma_columns_concat(text.take(n), seq![text[n]]);
        lemma_columns_one(text[n]);
    }
}

/// The echo of an edit is its tokens written out, where the characters are
/// printable and a column count fits a parameter.
pub proof fn law_echo_wording(line: Line, action: CanonicalAction)
    requires
        0 <= line.cursor <= line.text.len(),
        printable(line.text),
        printable(line.edited(action).line.text),
        columns(line.text) <= 65535,
        columns(line.edited(action).line.text) <= 65535,
    ensures
        wording(echo_tokens(line, action)) == line.edited(action).echo,
        tokens_wf(echo_tokens(line, action)),
{
    let at = line.cursor;
    let next = line.edited(action).line;
    let tokens = echo_tokens(line, action);
    lemma_columns_split(line.text, at);
    lemma_columns_split(next.text, next.cursor);
    assert(wording(Seq::empty()) =~= Seq::<char>::empty());
    match action {
        CanonicalAction::Left => if at > 0 {
            lemma_columns_split(line.text, at - 1);
            lemma_move_wording(char_cols(line.text[at - 1]), 'D');
        },
        CanonicalAction::Right => if at < line.text.len() {
            lemma_move_wording(char_cols(line.text[at]), 'C');
        },
        CanonicalAction::Home => {
            lemma_move_wording(columns(line.text.take(at)), 'D');
        },
        CanonicalAction::End => {
            lemma_move_wording(columns(line.tail()), 'C');
        },
        CanonicalAction::Backspace => if at > 0 {
            lemma_columns_split(line.text, at - 1);
            lemma_move_wording(char_cols(line.text[at - 1]), 'D');
            lemma_redraw_wording(next.tail());
            lemma_wording_concat(
                move_tokens(char_cols(line.text[at - 1]), 'D'),
                redraw_tokens(next.tail()),
            );
        },
        CanonicalAction::Delete => if at < line.text.len() {
            lemma_redraw_wording(next.tail());
        },
        CanonicalAction::Insert(ch) => if byte_len(line.text) + byte_len(seq![ch]) <= BUFFER_SIZE {
            assert(next.text[at] == ch);
            lemma_text_wording(seq![ch]);
            lemma_redraw_wording(next.tail());
            lemma_wording_concat(text_tokens(seq![ch]), redraw_tokens(next.tail()));
        },
        CanonicalAction::Submit => {
            let right = move_tokens(columns(line.tail()), 'C');
            lemma_move_wording(columns(line.tail()), 'C');
            lemma_one_token(Token::Control('\n'));
            lemma_wording_concat(right, seq![Token::Control('\n')]);
            assert(right.push(Token::Control('\n')) =~= right + seq![Token::Control('\n')]);
            assert(tokens == right + seq![Token::Control('\n')]);
            assert(right_by(columns(line.tail())) + seq!['\n'] =~= line.edited(action).echo);
        },
    }
}

/// Nothing but the cursor's column and the cells of its row differs, and what has
/// to be redrawn.
pub open spec fn same_but_row(s: Screen, t: Screen) -> bool {
    &&& t.place == s.place.moved(t.place.col, s.place.row)
    &&& t.scrollback == s.scrollback
    &&& t.color == s.color
    &&& t.grid.len() == s.grid.len()
    &&& forall|r: int| 0 <= r < s.grid.len() && r != s.place.row ==> t.grid[r] == s.grid[r]
}

/// What the cursor's row shows.
spec fn row_face(s: Screen) -> Seq<(char, u8)> {
    face(s.grid[s.place.row].cells)
}

proof fn lemma_one_act(s: Screen, act: Act)
    ensures
        s.applied_all(seq![act]) == s.applied(act),
        s.place.after_all(seq![act]) == s.place.after(act),
        s.place.can_apply_all(seq![act]) == s.place.can_apply(act),
{
    assert(seq![act].drop_last() =~= Seq::empty());
    assert(s.applied_all(Seq::empty()) == s);
    assert(s.place.after_all(Seq::empty()) == s.place);
    assert(s.place.can_apply_all(Seq::empty()));
}

proof fn lemma_applied_all_splits(s: Screen, a: Seq<Act>, b: Seq<Act>)
    ensures
        s.applied_all(a + b) == s.applied_all(a).applied_all(b),
    decreases b.len(),
{
    if b.len() == 0 {
        assert(a + b =~= a);
    } else {
        assert((a + b).drop_last() =~= a + b.drop_last());
        lemma_applied_all_splits(s, a, b.drop_last());
    }
}

/// A cursor sequence within the row moves the cursor and nothing else.
proof fn lemma_move(s: Screen, n: nat, right: bool)
    requires
        s.wf(),
        s.place.rows >= 2,
        s.place.cols > s.place.col,
        right ==> s.place.col + n < s.place.cols,
        !right ==> n <= s.place.col,
    ensures
        ({
            let code = if right {
                'C'
            } else {
                'D'
            };
            let list = token_acts(move_tokens(n, code));
            let t = s.applied_all(list);
            &&& s.place.can_apply_all(list)
            &&& t.wf()
            &&& same_but_row(s, t)
            &&& t.grid == s.grid
            &&& t.place.col == if right {
                s.place.col + n
            } else {
                s.place.col - n
            }
        }),
{
    let code = if right {
        'C'
    } else {
        'D'
    };
    let list = token_acts(move_tokens(n, code));
    if n == 0 {
        assert(list =~= Seq::empty());
    } else {
        let act = Act::Csi { params: seq![n as u16], action: code as u8 };
        assert(list =~= seq![act]);
        lemma_one_act(s, act);
        assert(s.place.can_apply(act));
        law_applied_wf(s, act);
        assert(s.scrolled_by(0) == s);
    }
}

/// Erasing to the end of the row.
proof fn lemma_erase(s: Screen)
    requires
        s.wf(),
        s.place.rows >= 2,
        s.place.col < s.place.cols,
    ensures
        ({
            let act = Act::Csi { params: seq![0u16], action: 0x4b };
            let t = s.applied(act);
            &&& s.place.can_apply(act)
            &&& t.wf()
            &&& same_but_row(s, t)
            &&& t.place == s.place
            &&& row_face(t) == row_face(s).take(s.place.col) + blanks(s.place.cols - s.place.col)
        }),
{
    let act = Act::Csi { params: seq![0u16], action: 0x4b };
    let t = s.applied(act);
    assert(s.place.can_apply(act));
    law_applied_wf(s, act);
    assert(s.grid[s.place.row].cells.len() == s.place.cols);
    assert(row_face(t) =~= row_face(s).take(s.place.col) + blanks(s.place.cols - s.place.col));
}

/// A character printed with room behind it.
proof fn lemma_print_one(s: Screen, c: char)
    requires
        s.wf(),
        s.place.rows >= 2,
        c as u32 >= 0x20,
        s.place.col + char_cols(c) < s.place.cols,
    ensures
        ({
            let act = Act::Print(c);
            let t = s.applied(act);
            let col = s.place.col;
            &&& s.place.can_apply(act)
            &&& t.wf()
            &&& same_but_row(s, t)
            &&& t.place.col == col + char_cols(c)
            &&& row_face(t) == row_face(s).take(col) + glyph_face(c) + row_face(s).skip(
                col + char_cols(c),
            )
        }),
{
    let act = Act::Print(c);
    let t = s.applied(act);
    let col = s.place.col;
    assert(s.place.can_apply(act));
    law_applied_wf(s, act);
    assert(s.grid[s.place.row].cells.len() == s.place.cols);
    assert(row_face(t) =~= row_face(s).take(col) + glyph_face(c) + row_face(s).skip(
        col + char_cols(c),
    ));
}

proof fn lemma_text_acts(text: Seq<char>, c: char)
    ensures
        ({
            let list = token_acts(text_tokens(text.push(c)));
            &&& list.len() > 0
            &&& list.drop_last() == token_acts(text_tokens(text))
            &&& list.last() == Act::Print(c)
        }),
{
    let list = token_acts(text_tokens(text));
    assert(text.push(c).drop_last() =~= text);
    lemma_spelled_push(text_tokens(text), Token::Char(c));
    assert(list.push(Act::Print(c)).drop_last() =~= list);
}

/// A second glyph put behind what was put into a row.
proof fn lemma_put_behind(f: Seq<(char, u8)>, col: int, a: Seq<(char, u8)>, b: Seq<(char, u8)>)
    requires
        0 <= col,
        col + a.len() + b.len() <= f.len(),
    ensures
        ({
            let g = f.take(col) + a + f.skip(col + a.len());
            g.take(col + a.len()) + b + g.skip(col + a.len() + b.len()) == f.take(col) + (a + b)
                + f.skip(col + (a + b).len())
        }),
{
    let g = f.take(col) + a + f.skip(col + a.len());
    assert(g.take(col + a.len()) + b + g.skip(col + a.len() + b.len()) =~= f.take(col) + (a + b)
        + f.skip(col + (a + b).len()));
}

/// A text printed with room behind it.
proof fn lemma_print_text(s: Screen, text: Seq<char>)
    requires
        s.wf(),
        s.place.rows >= 2,
        printable(text),
        s.place.col + columns(text) < s.place.cols,
    ensures
        ({
            let list = token_acts(text_tokens(text));
            let t = s.applied_all(list);
            let col = s.place.col;
            &&& s.place.can_apply_all(list)
            &&& t.wf()
            &&& same_but_row(s, t)
            &&& t.place.col == col + columns(text)
            &&& row_face(t) == row_face(s).take(col) + glyphs(text) + row_face(s).skip(
                col + columns(text),
            )
        }),
    decreases text.len(),
{
    let list = token_acts(text_tokens(text));
    let col = s.place.col;
    let f = row_face(s);
    assert(s.grid[s.place.row].cells.len() == s.place.cols);
    if text.len() == 0 {
        assert(list =~= Seq::empty());
        assert(f =~= f.take(col) + glyphs(text) + f.skip(col));
    } else {
        let before = text.drop_last();
        let c = text.last();
        let list0 = token_acts(text_tokens(before));
        assert(before.push(c) =~= text);
        lemma_text_acts(before, c);
        lemma_print_text(s, before);
        lemma_glyphs_len(before);
        law_applied_all(s, list0);
        lemma_print_one(s.applied_all(list0), c);
        lemma_put_behind(f, col, glyphs(before), glyph_face(c));
    }
}

/// Redrawing the row behind the cursor leaves the cursor where it is.
proof fn lemma_redraw(s: Screen, tail: Seq<char>)
    requires
        s.wf(),
        s.place.rows >= 2,
        printable(tail),
        s.place.col + columns(tail) < s.place.cols,
    ensures
        ({
            let list = token_acts(redraw_tokens(tail));
            let t = s.applied_all(list);
            let col = s.place.col;
            &&& s.place.can_apply_all(list)
            &&& t.wf()
            &&& same_but_row(s, t)
            &&& t.place == s.place
            &&& row_face(t) == row_face(s).take(col) + glyphs(tail) + blanks(
                s.place.cols - col - columns(tail),
            )
        }),
{
    let col = s.place.col;
    let erase = seq![Token::Sequence { params: seq![0u16], code: 'K' }];
    let act = Act::Csi { params: seq![0u16], action: 0x4b };
    let print = text_tokens(tail);
    let back = move_tokens(columns(tail), 'D');
    let (a, b, c) = (token_acts(erase), token_acts(print), token_acts(back));
    lemma_wording_concat(erase, print);
    lemma_wording_concat(erase + print, back);
    assert(token_acts(redraw_tokens(tail)) == a + b + c);
    assert(a =~= seq![act]);
    lemma_one_act(s, act);
    lemma_erase(s);
    let s1 = s.applied_all(a);
    lemma_print_text(s1, tail);
    let s2 = s1.applied_all(b);
    lemma_move(s2, columns(tail), false);
    lemma_applied_all_splits(s, a, b);
    lemma_applied_all_splits(s, a + b, c);
    law_after_all_splits(s.place, a, b);
    law_after_all_splits(s.place, a + b, c);
    law_applied_all(s, a);
    law_applied_all(s1, b);
    assert(s.grid[s.place.row].cells.len() == s.place.cols);
    lemma_glyphs_len(tail);
    assert(row_face(s.applied_all(a + b + c)) =~= row_face(s).take(col) + glyphs(tail) + blanks(
        s.place.cols - col - columns(tail),
    ));
}

/// Redrawing what follows a text that the row shows makes the row show both, and
/// blank cells behind.
proof fn lemma_redraw_reads(s: Screen, start: int, prefix: Seq<char>, tail: Seq<char>)
    requires
        s.wf(),
        s.place.rows >= 2,
        0 <= start,
        printable(tail),
        s.place.col == start + columns(prefix),
        s.place.col + columns(tail) < s.place.cols,
        reads(s.grid[s.place.row].cells, start, prefix),
    ensures
        ({
            let t = s.applied_all(token_acts(redraw_tokens(tail)));
            let cells = t.grid[t.place.row].cells;
            &&& reads(cells, start, prefix + tail)
            &&& blank_from(cells, start + columns(prefix + tail))
            &&& face(cells).take(start) == row_face(s).take(start)
        }),
{
    let t = s.applied_all(token_acts(redraw_tokens(tail)));
    let col = s.place.col;
    let (f, g) = (row_face(s), row_face(t));
    lemma_redraw(s, tail);
    lemma_glyphs_len(prefix);
    lemma_glyphs_len(tail);
    lemma_columns_concat(prefix, tail);
    assert(s.grid[s.place.row].cells.len() == s.place.cols);
    assert(t.grid[t.place.row].cells.len() == t.place.cols);
    assert(g.subrange(start, start + columns(prefix + tail)) =~= f.subrange(start, col) + glyphs(
        tail,
    ));
    assert(g.skip(start + columns(prefix + tail)) =~= blanks(
        s.place.cols - start - columns(prefix + tail),
    ));
    assert(g.take(start) =~= f.take(start));
}

/// A row that shows a text shows the first part of it.
proof fn lemma_reads_prefix(cells: Seq<Cell>, start: int, text: Seq<char>, n: int)
    requires
        0 <= start,
        0 <= n <= text.len(),
        reads(cells, start, text),
    ensures
        reads(cells, start, text.take(n)),
{
    lemma_columns_split(text, n);
    lemma_glyphs_len(text.take(n));
    assert(face(cells).subrange(start, start + columns(text.take(n))) =~= glyphs(text).take(
        columns(text.take(n)) as int,
    ));
    assert(glyphs(text).take(columns(text.take(n)) as int) =~= glyphs(text.take(n)));
}

/// An echo in two parts.
proof fn lemma_two_echoes(s: Screen, a: Seq<Token>, b: Seq<Token>)
    requires
        s.wf(),
        s.place.can_apply_all(token_acts(a)),
    ensures
        ({
            let t = s.applied_all(token_acts(a));
            &&& s.applied_all(token_acts(a + b)) == t.applied_all(token_acts(b))
            &&& s.place.can_apply_all(token_acts(a + b)) == t.place.can_apply_all(token_acts(b))
        }),
{
    lemma_wording_concat(a, b);
    lemma_applied_all_splits(s, token_acts(a), token_acts(b));
    law_after_all_splits(s.place, token_acts(a), token_acts(b));
    law_applied_all(s, token_acts(a));
}

/// Redrawing what follows the cursor of a line puts the screen in step with it.
proof fn lemma_redraw_in_step(s: Screen, start: int, next: Line)
    requires
        s.wf(),
        s.place.rows >= 2,
        0 <= start,
        0 <= next.cursor <= next.text.len(),
        printable(next.text),
        start + columns(next.text) < s.place.cols,
        s.place.col == start + columns(next.text.take(next.cursor)),
        reads(s.grid[s.place.row].cells, start, next.text.take(next.cursor)),
    ensures
        ({
            let list = token_acts(redraw_tokens(next.tail()));
            let t = s.applied_all(list);
            let cells = t.grid[t.place.row].cells;
            &&& s.place.can_apply_all(list)
            &&& t.wf()
            &&& in_step(t, start, next)
            &&& same_but_row(s, t)
            &&& blank_from(cells, start + columns(next.text))
            &&& face(cells).take(start) == row_face(s).take(start)
        }),
{
    let prefix = next.text.take(next.cursor);
    lemma_columns_split(next.text, next.cursor);
    assert(prefix + next.tail() =~= next.text);
    lemma_redraw(s, next.tail());
    lemma_redraw_reads(s, start, prefix, next.tail());
}

/// A character printed behind what the row shows.
proof fn lemma_typed(s: Screen, start: int, prefix: Seq<char>, c: char)
    requires
        s.wf(),
        s.place.rows >= 2,
        0 <= start,
        c as u32 >= 0x20,
        s.place.col == start + columns(prefix),
        s.place.col + char_cols(c) < s.place.cols,
        reads(s.grid[s.place.row].cells, start, prefix),
    ensures
        ({
            let list = token_acts(text_tokens(seq![c]));
            let t = s.applied_all(list);
            let cells = t.grid[t.place.row].cells;
            &&& s.place.can_apply_all(list)
            &&& t.wf()
            &&& same_but_row(s, t)
            &&& t.place.col == start + columns(prefix.push(c))
            &&& reads(cells, start, prefix.push(c))
            &&& face(cells).take(start) == row_face(s).take(start)
        }),
{
    let t = s.applied_all(token_acts(text_tokens(seq![c])));
    let (f, g) = (row_face(s), row_face(t));
    let col = s.place.col;
    assert(s.grid[s.place.row].cells.len() == s.place.cols);
    lemma_columns_one(c);
    lemma_glyphs_len(seq![c]);
    lemma_glyphs_len(prefix);
    lemma_print_text(s, seq![c]);
    assert(prefix.push(c) =~= prefix + seq![c]);
    lemma_columns_concat(prefix, seq![c]);
    assert(t.grid[t.place.row].cells.len() == t.place.cols);
    assert(g.subrange(start, start + columns(prefix.push(c))) =~= f.subrange(start, col) + glyphs(
        seq![c],
    ));
    assert(g.take(start) =~= f.take(start));
}

/// A screen that shows the line goes on showing it: after the echo of an edit it
/// shows the edited line in the same place, with the cursor where the line's
/// cursor is. The rest of the screen and what stands before the line stay as they
/// were. Where the edit changed the text, the row is blank behind it.
pub proof fn law_echo_keeps_step(s: Screen, start: int, line: Line, action: CanonicalAction)
    requires
        s.wf(),
        line.wf(),
        in_step(s, start, line),
        printable(line.text),
        printable(line.edited(action).line.text),
        start + columns(line.edited(action).line.text) < s.place.cols,
        action != CanonicalAction::Submit,
    ensures
        ({
            let list = token_acts(echo_tokens(line, action));
            let next = line.edited(action).line;
            let t = s.applied_all(list);
            let cells = t.grid[t.place.row].cells;
            &&& s.place.can_apply_all(list)
            &&& t.wf()
            &&& in_step(t, start, next)
            &&& same_but_row(s, t)
            &&& face(cells).take(start) == face(s.grid[s.place.row].cells).take(start)
            &&& next.text != line.text ==> blank_from(cells, start + columns(next.text))
        }),
{
    let at = line.cursor;
    let next = line.edited(action).line;
    let cells = s.grid[s.place.row].cells;
    let none = Seq::<Token>::empty();
    assert(token_acts(none) =~= Seq::empty());
    assert(s.applied_all(Seq::empty()) == s);
    assert(s.place.can_apply_all(Seq::empty()));
    lemma_columns_split(line.text, at);
    match action {
        CanonicalAction::Left => if at > 0 {
            lemma_columns_split(line.text, at - 1);
            lemma_move(s, char_cols(line.text[at - 1]), false);
        },
        CanonicalAction::Right => if at < line.text.len() {
            lemma_columns_split(line.text, at + 1);
            lemma_move(s, char_cols(line.text[at]), true);
        },
        CanonicalAction::Home => {
            assert(line.text.take(0) =~= Seq::empty());
            lemma_move(s, columns(line.text.take(at)), false);
        },
        CanonicalAction::End => {
            assert(line.text.take(line.text.len() as int) =~= line.text);
            lemma_move(s, columns(line.tail()), true);
        },
        CanonicalAction::Backspace => if at > 0 {
            lemma_columns_split(line.text, at - 1);
            let n = char_cols(line.text[at - 1]);
            let s1 = s.applied_all(token_acts(move_tokens(n, 'D')));
            lemma_move(s, n, false);
            lemma_reads_prefix(cells, start, line.text, at - 1);
            assert(next.text.take(at - 1) =~= line.text.take(at - 1));
            lemma_redraw_in_step(s1, start, next);
            lemma_two_echoes(s, move_tokens(n, 'D'), redraw_tokens(next.tail()));
        },
        CanonicalAction::Delete => if at < line.text.len() {
            lemma_reads_prefix(cells, start, line.text, at);
            assert(next.text.take(at) =~= line.text.take(at));
            lemma_redraw_in_step(s, start, next);
        },
        CanonicalAction::Insert(ch) => if byte_len(line.text) + byte_len(seq![ch]) <= BUFFER_SIZE {
            let prefix = line.text.take(at);
            let s1 = s.applied_all(token_acts(text_tokens(seq![ch])));
            assert(next.text.take(at + 1) =~= prefix.push(ch));
            assert(next.text.take(at) =~= prefix);
            assert(next.text[at] == ch);
            lemma_columns_split(next.text, at);
            lemma_reads_prefix(cells, start, line.text, at);
            lemma_typed(s, start, prefix, ch);
            lemma_redraw_in_step(s1, start, next);
            lemma_two_echoes(s, text_tokens(seq![ch]), redraw_tokens(next.tail()));
        },
        CanonicalAction::Submit => {},
    }
}

/// A line that holds nothing is shown wherever the cursor stands, as long as it is
/// not behind the last column.
pub proof fn law_empty_line_in_step(s: Screen)
    requires
        s.wf(),
        s.place.rows >= 2,
        s.place.col < s.place.cols,
    ensures
        in_step(s, s.place.col, Line { text: Seq::empty(), cursor: 0 }),
{
    let cells = s.grid[s.place.row].cells;
    assert(Seq::<char>::empty().take(0) =~= Seq::empty());
    assert(cells.len() == s.place.cols);
    assert(face(cells).subrange(s.place.col, s.place.col) =~= Seq::empty());
}

/// Where the cursor's row of `s` is on `t`, the screen after a line end: in its
/// place, one row up, or in the scrollback.
pub open spec fn row_left(s: Screen, t: Screen) -> Seq<Cell> {
    if s.place.row + 1 < s.place.rows {
        t.grid[s.place.row].cells
    } else if s.place.row >= 2 {
        t.grid[s.place.row - 1].cells
    } else {
        t.scrollback.last().cells
    }
}

/// A line end.
proof fn lemma_line_end(s: Screen)
    requires
        s.wf(),
        s.place.rows >= 2,
        s.place.col < s.place.cols,
    ensures
        ({
            let t = s.applied(Act::Execute(0x0a));
            let col = s.place.col;
            &&& s.place.can_apply(Act::Execute(0x0a))
            &&& t.wf()
            &&& t.place.col == 0
            &&& t.place.row == if s.place.row + 1 < s.place.rows {
                s.place.row + 1
            } else {
                s.place.row
            }
            &&& face(row_left(s, t)) == row_face(s).take(col) + blanks(s.place.cols - col)
        }),
{
    let act = Act::Execute(0x0a);
    let (col, row) = (s.place.col, s.place.row);
    let t = s.applied(act);
    let e = s.line_erased(col, s.place.cols, '\0');
    assert(s.place.can_apply(act));
    law_applied_wf(s, act);
    assert(s.grid[row].cells.len() == s.place.cols);
    assert(face(e.grid[row].cells) =~= row_face(s).take(col) + blanks(s.place.cols - col));
    if row + 1 < s.place.rows {
        assert(t.grid[row] == e.grid[row]);
    } else if row >= 2 {
        assert(t.grid[row - 1] == e.grid[row]);
    } else {
        assert(t.scrollback.last() == e.grid[row]);
    }
}

/// Submitting leaves the whole line on the screen, wherever the cursor was in it,
/// with nothing behind it. The cursor goes to the start of the next row, for which
/// the screen scrolls if it has to.
pub proof fn law_submit_leaves_line(s: Screen, start: int, line: Line)
    requires
        s.wf(),
        line.wf(),
        in_step(s, start, line),
    ensures
        ({
            let list = token_acts(echo_tokens(line, CanonicalAction::Submit));
            let t = s.applied_all(list);
            &&& s.place.can_apply_all(list)
            &&& t.wf()
            &&& t.place.col == 0
            &&& t.place.row == if s.place.row + 1 < s.place.rows {
                s.place.row + 1
            } else {
                s.place.row
            }
            &&& reads(row_left(s, t), start, line.text)
            &&& blank_from(row_left(s, t), start + columns(line.text))
        }),
{
    let right = move_tokens(columns(line.tail()), 'C');
    let end = seq![Token::Control('\n')];
    let act = Act::Execute(0x0a);
    lemma_columns_split(line.text, line.cursor);
    lemma_move(s, columns(line.tail()), true);
    let s1 = s.applied_all(token_acts(right));
    assert(token_acts(end) =~= seq![act]);
    assert(echo_tokens(line, CanonicalAction::Submit) =~= right + end);
    lemma_two_echoes(s, right, end);
    lemma_one_act(s1, act);
    lemma_line_end(s1);
    let t = s1.applied(act);
    let col = s1.place.col;
    assert(s.grid[s.place.row].cells.len() == s.place.cols);
    let (f, g) = (row_face(s), face(row_left(s, t)));
    assert(g.subrange(start, col) =~= f.subrange(start, col));
    assert(g.skip(col) =~= blanks(s.place.cols - col));
}

/// A screen in step with a line shows each character of it in its place, behind the
/// columns of those before it, in a cell that tells how wide it is. The cursor stands
/// behind the columns of those in front of the line's cursor.
pub proof fn law_in_step_shows(s: Screen, start: int, line: Line, i: int)
    requires
        s.wf(),
        line.wf(),
        in_step(s, start, line),
        0 <= i < line.text.len(),
        char_cols(line.text[i]) > 0,
        char_cols(line.text[i]) <= 255,
    ensures
        ({
            let cell = s.grid[s.place.row].cells[start + columns(line.text.take(i))];
            &&& cell.value == line.text[i]
            &&& cell.width == columns_of(glyph_width(line.text[i]))
        }),
        s.place.col == start + columns(line.text.take(line.cursor)),
{
    lemma_glyph_place(line.text, i);
    let cells = s.grid[s.place.row].cells;
    let at = columns(line.text.take(i)) as int;
    let (from, to) = (start, start + columns(line.text));
    assert(face(cells).subrange(from, to)[at] == glyphs(line.text)[at]);
    assert(face(cells)[start + at] == glyphs(line.text)[at]);
}

proof fn lemma_glyph_place(text: Seq<char>, i: int)
    requires
        0 <= i < text.len(),
        char_cols(text[i]) > 0,
    ensures
        glyphs(text).len() == columns(text),
        columns(text.take(i)) + char_cols(text[i]) <= columns(text),
        glyphs(text)[columns(text.take(i)) as int] == (text[i], char_cols(text[i]) as u8),
    decreases text.len(),
{
    let rest = text.drop_last();
    lemma_glyphs_len(text);
    lemma_glyphs_len(rest);
    if i < rest.len() {
        lemma_glyph_place(rest, i);
        assert(rest.take(i) =~= text.take(i));
    } else {
        assert(rest =~= text.take(i));
        assert(glyphs(text)[columns(rest) as int] == glyph_face(text.last())[0]);
    }
}

/// Cells that are blank hold nothing and take one column each.
pub proof fn law_blank_cells(cells: Seq<Cell>, start: int, c: int)
    requires
        0 <= start <= c < cells.len(),
        blank_from(cells, start),
    ensures
        cells[c].value == '\0',
        cells[c].width == 1,
{
    assert(face(cells).skip(start)[c - start] == face(cells)[c]);
    assert(blanks(cells.len() - start)[c - start] == ('\0', 1u8));
}

} // verus!
