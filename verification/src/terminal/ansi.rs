//! A session's escape sequence parser together with the screen that it drives.
//!
//! Parser state (a sequence cut off in the middle, a character of which only the
//! first bytes came) lives with the session, so sessions can be fed piece by
//! piece and independently of each other.

use vstd::prelude::*;

use anstyle_parse::{Params, Parser, Perform, Utf8Parser};

use crate::terminal::action::{acts, Act, AnsiAction};
use crate::terminal::color::initial_colors;
use crate::terminal::model::{
    damage_tells,
    law_applied_content,
    law_applied_wf,
    law_damage_tells,
    lemma_damage_transitive,
    no_damage,
    same_content,
    Damage,
    Screen,
    ScreenSize,
    TerminalModel,
};
use crate::terminal::place::{can_apply, cursor_after, place_of, Place};
use crate::terminal::token::{
    acts_at,
    lemma_spelled_push,
    lemma_token_bytes,
    lemma_wording_concat,
    spelled,
    token_acts,
    tokens_told,
    tokens_wf,
    within,
    Token,
};

verus! {

/// `anstyle_parse::Params`, the parameters of a control sequence.
#[verifier::external_type_specification]
#[verifier::external_body]
pub struct ExParams(Params);

/// `anstyle_parse::Utf8Parser`, which assembles characters from UTF-8 bytes.
#[verifier::external_type_specification]
#[verifier::external_body]
pub struct ExUtf8Parser(Utf8Parser);

/// `anstyle_parse::Parser`, the escape sequence state machine.
#[verifier::external_type_specification]
#[verifier::external_body]
#[verifier::reject_recursive_types(C)]
pub struct ExParser<C>(Parser<C>);

/// Collects what the parser dispatches.
pub struct ActionLog {
    pub actions: Vec<AnsiAction>,
}

/// The first value of each parameter, in order.
pub uninterp spec fn leading_values(params: Params) -> Seq<u16>;

/// `Params::iter`, of which each item is the values of one parameter; no item is
/// empty.
///
/// Claimed: the list holds the first value of each.
#[verifier::external_body]
fn first_values(params: &Params) -> (r: Vec<u16>)
    ensures
        r@ == leading_values(*params),
{
    params.iter().map(|values| values[0]).collect()
}

impl Perform for ActionLog {
    fn print(&mut self, c: char)
        ensures
            final(self).actions@ == old(self).actions@.push(AnsiAction::Print(c)),
    {
        self.actions.push(AnsiAction::Print(c));
    }

    fn execute(&mut self, byte: u8)
        ensures
            final(self).actions@ == old(self).actions@.push(AnsiAction::Execute(byte)),
    {
        self.actions.push(AnsiAction::Execute(byte));
    }

    fn csi_dispatch(&mut self, params: &Params, _intermediates: &[u8], _ignore: bool, action: u8)
        ensures
            acts(final(self).actions@) == acts(old(self).actions@).push(
                Act::Csi { params: leading_values(*params), action },
            ),
    {
        let params = first_values(params);
        self.actions.push(AnsiAction::Csi { params, action });
        proof {
            assert(acts(self.actions@).drop_last() =~= acts(old(self).actions@));
        }
    }
}

/// The bytes that a parser was advanced over since it was made.
pub uninterp spec fn parser_input(parser: Parser<Utf8Parser>) -> Seq<u8>;

/// What a parser that was advanced over `seen` dispatches for the next byte, in
/// order: characters, control characters and control sequences.
pub uninterp spec fn ansi_actions(seen: Seq<u8>, byte: u8) -> Seq<Act>;

/// `anstyle_parse::Parser::new`.
///
/// Claimed: a new parser has seen no byte.
#[verifier::external_body]
fn new_parser() -> (r: Parser<Utf8Parser>)
    ensures
        parser_input(r) == Seq::<u8>::empty(),
{
    Parser::<Utf8Parser>::new()
}

/// `Clone` of `anstyle_parse::Parser`.
///
/// Claimed: the copy has seen what the parser has seen.
#[verifier::external_body]
fn clone_parser(parser: &Parser<Utf8Parser>) -> (r: Parser<Utf8Parser>)
    ensures
        parser_input(r) == parser_input(*parser),
{
    parser.clone()
}

/// `anstyle_parse::Parser::advance` with a performer that only takes notes.
///
/// Claimed: the byte counts as seen, and what is dispatched depends on the bytes
/// seen before and on this byte alone. If those bytes are whole characters,
/// control characters and control sequences, then the next such token is
/// dispatched as what it is with its last byte, and nothing before. What other
/// bytes lead to (sequences of other kinds, bytes that are not UTF-8) is left to
/// the parser.
#[verifier::external_body]
fn advance(parser: &mut Parser<Utf8Parser>, byte: u8) -> (r: Vec<AnsiAction>)
    ensures
        parser_input(*final(parser)) == parser_input(*old(parser)).push(byte),
        acts(r@) == ansi_actions(parser_input(*old(parser)), byte),
        tokens_told(parser_input(*old(parser)), byte, acts(r@)),
{
    let mut log = ActionLog { actions: Vec::new() };
    parser.advance(&mut log, byte);
    log.actions
}

/// The screen after `bytes`, for a parser that has seen `seen`.
pub open spec fn fed(seen: Seq<u8>, screen: Screen, bytes: Seq<u8>) -> Screen
    decreases bytes.len(),
{
    if bytes.len() == 0 {
        screen
    } else {
        let before = bytes.drop_last();
        fed(seen, screen, before).applied_all(ansi_actions(seen + before, bytes.last()))
    }
}

/// Where the cursor is after `bytes`, for a parser that has seen `seen`.
pub open spec fn placed(seen: Seq<u8>, place: Place, bytes: Seq<u8>) -> Place
    decreases bytes.len(),
{
    if bytes.len() == 0 {
        place
    } else {
        let before = bytes.drop_last();
        placed(seen, place, before).after_all(ansi_actions(seen + before, bytes.last()))
    }
}

/// No action that `bytes` lead to leaves the range of a grid coordinate.
pub open spec fn feedable(seen: Seq<u8>, place: Place, bytes: Seq<u8>) -> bool
    decreases bytes.len(),
{
    bytes.len() == 0 || {
        let before = bytes.drop_last();
        &&& feedable(seen, place, before)
        &&& placed(seen, place, before).can_apply_all(ansi_actions(seen + before, bytes.last()))
    }
}

/// Actions that can be applied keep a screen well formed, move the cursor as the
/// place alone tells, and report what they change.
pub proof fn law_applied_all(s: Screen, list: Seq<Act>)
    requires
        s.wf(),
        s.place.can_apply_all(list),
    ensures
        s.applied_all(list).wf(),
        s.applied_all(list).place == s.place.after_all(list),
        damage_tells(s, s.applied_all(list)),
    decreases list.len(),
{
    if list.len() > 0 {
        let t = s.applied_all(list.drop_last());
        law_applied_all(s, list.drop_last());
        law_applied_wf(t, list.last());
        law_damage_tells(t, list.last());
        lemma_damage_transitive(s, t, s.applied_all(list));
    }
}

/// Bytes that can be fed keep a screen well formed, move the cursor as the place
/// alone tells, and report what they change.
pub proof fn law_fed(seen: Seq<u8>, s: Screen, bytes: Seq<u8>)
    requires
        s.wf(),
        feedable(seen, s.place, bytes),
    ensures
        fed(seen, s, bytes).wf(),
        fed(seen, s, bytes).place == placed(seen, s.place, bytes),
        damage_tells(s, fed(seen, s, bytes)),
    decreases bytes.len(),
{
    if bytes.len() > 0 {
        let before = bytes.drop_last();
        let t = fed(seen, s, before);
        law_fed(seen, s, before);
        law_applied_all(t, ansi_actions(seen + before, bytes.last()));
        lemma_damage_transitive(s, t, fed(seen, s, bytes));
    }
}

/// Feeding a byte sequence in two pieces, wherever it is cut, is feeding it at
/// once.
pub proof fn law_fed_in_pieces(seen: Seq<u8>, s: Screen, a: Seq<u8>, b: Seq<u8>)
    ensures
        fed(seen, s, a + b) == fed(seen + a, fed(seen, s, a), b),
        placed(seen, s.place, a + b) == placed(seen + a, placed(seen, s.place, a), b),
        feedable(seen, s.place, a + b) == (feedable(seen, s.place, a) && feedable(
            seen + a,
            placed(seen, s.place, a),
            b,
        )),
    decreases b.len(),
{
    if b.len() == 0 {
        assert(a + b =~= a);
    } else {
        assert((a + b).drop_last() =~= a + b.drop_last());
        assert(seen + (a + b.drop_last()) =~= (seen + a) + b.drop_last());
        law_fed_in_pieces(seen, s, a, b.drop_last());
    }
}

/// What is on the screen does not depend on the damage summary it started with.
pub proof fn law_fed_content(seen: Seq<u8>, s: Screen, t: Screen, bytes: Seq<u8>)
    requires
        same_content(s, t),
    ensures
        same_content(fed(seen, s, bytes), fed(seen, t, bytes)),
    decreases bytes.len(),
{
    if bytes.len() > 0 {
        let before = bytes.drop_last();
        law_fed_content(seen, s, t, before);
        lemma_applied_all_content(
            fed(seen, s, before),
            fed(seen, t, before),
            ansi_actions(seen + before, bytes.last()),
        );
    }
}

proof fn lemma_applied_all_content(s: Screen, t: Screen, list: Seq<Act>)
    requires
        same_content(s, t),
    ensures
        same_content(s.applied_all(list), t.applied_all(list)),
    decreases list.len(),
{
    if list.len() > 0 {
        let before = list.drop_last();
        lemma_applied_all_content(s, t, before);
        law_applied_content(s.applied_all(before), t.applied_all(before), list.last());
    }
}

/// Two feeds in a row leave the same screen as one feed of both pieces: the grid,
/// the scrollback, the cursor and the colours are the same. Only the damage
/// summary is that of the second feed.
pub proof fn law_two_feeds(seen: Seq<u8>, s: Screen, a: Seq<u8>, b: Seq<u8>)
    ensures
        ({
            let first = fed(seen, s.with_damage(no_damage()), a);
            let second = fed(seen + a, first.with_damage(no_damage()), b);
            let once = fed(seen, s.with_damage(no_damage()), a + b);
            same_content(second, once)
        }),
{
    let first = fed(seen, s.with_damage(no_damage()), a);
    law_fed_in_pieces(seen, s.with_damage(no_damage()), a, b);
    law_fed_content(seen + a, first.with_damage(no_damage()), first, b);
}

proof fn lemma_feedable_prefix(seen: Seq<u8>, place: Place, bytes: Seq<u8>, n: int)
    requires
        0 <= n <= bytes.len(),
        feedable(seen, place, bytes),
    ensures
        feedable(seen, place, bytes.take(n)),
    decreases bytes.len(),
{
    if n == bytes.len() {
        assert(bytes.take(n) =~= bytes);
    } else {
        lemma_feedable_prefix(seen, place, bytes.drop_last(), n);
        assert(bytes.drop_last().take(n) =~= bytes.take(n));
    }
}

proof fn lemma_can_apply_prefix(place: Place, list: Seq<Act>, n: int)
    requires
        0 <= n <= list.len(),
        place.can_apply_all(list),
    ensures
        place.can_apply_all(list.take(n)),
    decreases list.len(),
{
    if n == list.len() {
        assert(list.take(n) =~= list);
    } else {
        lemma_can_apply_prefix(place, list.drop_last(), n);
        assert(list.drop_last().take(n) =~= list.take(n));
    }
}

/// Where the bytes seen and the bytes fed are whole tokens, the screen after them
/// is the screen after what those tokens ask for.
pub open spec fn tokens_shown(seen: Seq<u8>, s: Screen, bytes: Seq<u8>) -> bool {
    forall|done: Seq<Token>, more: Seq<Token>|
        #![trigger spelled(done), spelled(more)]
        tokens_wf(done) && tokens_wf(more) && seen == spelled(done) && bytes == spelled(more)
            ==> fed(seen, s, bytes) == s.applied_all(token_acts(more))
}

/// Where the bytes seen and the bytes to be fed are whole tokens, they can be fed
/// if and only if what those tokens ask for can be done.
pub open spec fn tokens_weighed(seen: Seq<u8>, place: Place, bytes: Seq<u8>) -> bool {
    forall|done: Seq<Token>, more: Seq<Token>|
        #![trigger spelled(done), spelled(more)]
        tokens_wf(done) && tokens_wf(more) && seen == spelled(done) && bytes == spelled(more)
            ==> feedable(seen, place, bytes) == place.can_apply_all(token_acts(more))
}

/// What is dispatched for the byte with index `j` is known where the output is
/// made of tokens.
spec fn told_at(seen: Seq<u8>, bytes: Seq<u8>, j: int) -> bool {
    tokens_told(seen + bytes.take(j), bytes[j], ansi_actions(seen + bytes.take(j), bytes[j]))
}

/// What is dispatched for each byte is known where the output is made of tokens.
spec fn told(seen: Seq<u8>, bytes: Seq<u8>) -> bool {
    forall|j: int| 0 <= j < bytes.len() ==> #[trigger] told_at(seen, bytes, j)
}

proof fn lemma_told_push(seen: Seq<u8>, bytes: Seq<u8>, n: int)
    requires
        0 <= n < bytes.len(),
        told(seen, bytes.take(n)),
        told_at(seen, bytes, n),
    ensures
        told(seen, bytes.take(n + 1)),
{
    assert forall|j: int| 0 <= j < n + 1 implies #[trigger] told_at(
        seen,
        bytes.take(n + 1),
        j,
    ) by {
        assert(bytes.take(n + 1).take(j) =~= bytes.take(j));
        if j < n {
            assert(told_at(seen, bytes.take(n), j));
            assert(bytes.take(n).take(j) =~= bytes.take(j));
        }
    }
}

proof fn lemma_told_in_pieces(seen: Seq<u8>, a: Seq<u8>, b: Seq<u8>)
    requires
        told(seen, a + b),
    ensures
        told(seen, a),
        told(seen + a, b),
{
    assert forall|j: int| 0 <= j < a.len() implies #[trigger] told_at(seen, a, j) by {
        assert(told_at(seen, a + b, j));
        assert((a + b).take(j) =~= a.take(j));
    }
    assert forall|j: int| 0 <= j < b.len() implies #[trigger] told_at(seen + a, b, j) by {
        assert(told_at(seen, a + b, a.len() + j));
        assert((a + b).take(a.len() + j) =~= a + b.take(j));
        assert(seen + (a + b.take(j)) =~= (seen + a) + b.take(j));
    }
}

/// The first bytes of a token.
proof fn lemma_token(done: Seq<Token>, token: Token, k: int, s: Screen, p: Place)
    requires
        tokens_wf(done),
        token.wf(),
        0 <= k <= token.bytes().len(),
        told(spelled(done), token.bytes().take(k)),
    ensures
        fed(spelled(done), s, token.bytes().take(k)) == s.applied_all(acts_at(token, k)),
        placed(spelled(done), p, token.bytes().take(k)) == p.after_all(acts_at(token, k)),
        feedable(spelled(done), p, token.bytes().take(k)) == p.can_apply_all(acts_at(token, k)),
    decreases k,
{
    let seen = spelled(done);
    let bytes = token.bytes().take(k);
    lemma_token_bytes(token);
    if k > 0 {
        let before = token.bytes().take(k - 1);
        assert(bytes.drop_last() =~= before);
        assert(bytes =~= before + seq![bytes.last()]);
        lemma_told_in_pieces(seen, before, seq![bytes.last()]);
        lemma_token(done, token, k - 1, s, p);
        assert(told_at(seen, bytes, k - 1));
        assert(bytes.take(k - 1) =~= before);
        assert(within(seen + before, bytes.last(), done, token, k - 1));
        assert(seq![token.act()].drop_last() =~= Seq::empty());
    }
}

/// Whole tokens do to a screen, and to a place, what each of them asks for.
proof fn lemma_tokens(done: Seq<Token>, more: Seq<Token>, s: Screen, p: Place)
    requires
        tokens_wf(done),
        tokens_wf(more),
        told(spelled(done), spelled(more)),
    ensures
        fed(spelled(done), s, spelled(more)) == s.applied_all(token_acts(more)),
        placed(spelled(done), p, spelled(more)) == p.after_all(token_acts(more)),
        feedable(spelled(done), p, spelled(more)) == p.can_apply_all(token_acts(more)),
    decreases more.len(),
{
    if more.len() > 0 {
        let before = more.drop_last();
        let token = more.last();
        assert(before.push(token) =~= more);
        lemma_spelled_push(before, token);
        lemma_told_in_pieces(spelled(done), spelled(before), token.bytes());
        lemma_tokens(done, before, s, p);
        lemma_wording_concat(done, before);
        let whole = token.bytes().len() as int;
        assert(token.bytes().take(whole) =~= token.bytes());
        lemma_token(
            done + before,
            token,
            whole,
            s.applied_all(token_acts(before)),
            p.after_all(token_acts(before)),
        );
        let at_p = Screen { place: p, ..s };
        law_fed_in_pieces(spelled(done), s, spelled(before), token.bytes());
        law_fed_in_pieces(spelled(done), at_p, spelled(before), token.bytes());
        assert(token_acts(more).drop_last() =~= token_acts(before));
        assert(seq![token.act()].drop_last() =~= Seq::empty());
        let q = p.after_all(token_acts(before));
        let t = s.applied_all(token_acts(before));
        assert(t.applied_all(Seq::empty()) == t);
        assert(q.after_all(Seq::empty()) == q);
        assert(q.can_apply_all(Seq::empty()));
    }
}

/// Where whole tokens can be applied, their first bytes can be fed.
proof fn lemma_tokens_prefix(done: Seq<Token>, more: Seq<Token>, p: Place, n: int)
    requires
        tokens_wf(done),
        tokens_wf(more),
        0 <= n <= spelled(more).len(),
        told(spelled(done), spelled(more).take(n)),
        p.can_apply_all(token_acts(more)),
    ensures
        feedable(spelled(done), p, spelled(more).take(n)),
    decreases more.len(),
{
    if more.len() > 0 {
        let before = more.drop_last();
        let token = more.last();
        let len = spelled(before).len() as int;
        assert(before.push(token) =~= more);
        lemma_spelled_push(before, token);
        assert(token_acts(more).drop_last() =~= token_acts(before));
        if n <= len {
            assert(spelled(more).take(n) =~= spelled(before).take(n));
            lemma_tokens_prefix(done, before, p, n);
        } else {
            let s = Screen {
                place: p,
                grid: Seq::empty(),
                scrollback: Seq::empty(),
                max_scrollback: 0,
                color: initial_colors(),
                damage: no_damage(),
            };
            let part = token.bytes().take(n - len);
            assert(spelled(more).take(n) =~= spelled(before) + part);
            lemma_told_in_pieces(spelled(done), spelled(before), part);
            lemma_tokens(done, before, s, p);
            lemma_wording_concat(done, before);
            lemma_token(done + before, token, n - len, s, p.after_all(token_acts(before)));
            law_fed_in_pieces(spelled(done), s, spelled(before), part);
            assert(seq![token.act()].drop_last() =~= Seq::empty());
            let q = p.after_all(token_acts(before));
            assert(q.after_all(Seq::empty()) == q);
            assert(q.can_apply_all(Seq::empty()));
        }
    }
}

/// One parser and the screen that it drives.
pub struct SemanticTerminal {
    parser: Parser<Utf8Parser>,
    model: TerminalModel,
}

impl SemanticTerminal {
    /// The screen is well formed.
    pub closed spec fn wf(&self) -> bool {
        self.model.wf()
    }

    /// The bytes fed so far.
    pub closed spec fn seen(&self) -> Seq<u8> {
        parser_input(self.parser)
    }

    /// The screen.
    pub closed spec fn screen(&self) -> Screen {
        self.model@
    }

    /// The screen of a well formed terminal is well formed.
    pub proof fn lemma_screen_wf(&self)
        requires
            self.wf(),
        ensures
            self.screen().wf(),
    {
    }

    /// An empty screen of this size and a parser that has seen nothing.
    pub fn new(size: ScreenSize) -> (r: SemanticTerminal)
        ensures
            r.wf(),
            r.seen() == Seq::<u8>::empty(),
            r.screen() == Screen::empty(size),
    {
        SemanticTerminal { parser: new_parser(), model: TerminalModel::new(size) }
    }

    /// Feed bytes and return the damage that this call did.
    pub fn feed(&mut self, bytes: &[u8]) -> (r: Damage)
        requires
            old(self).wf(),
            feedable(old(self).seen(), old(self).screen().place, bytes@),
        ensures
            final(self).wf(),
            final(self).seen() == old(self).seen() + bytes@,
            final(self).screen() == fed(
                old(self).seen(),
                old(self).screen().with_damage(no_damage()),
                bytes@,
            ),
            tokens_shown(old(self).seen(), old(self).screen().with_damage(no_damage()), bytes@),
            r == final(self).screen().damage,
    {
        self.model.reset_damage();
        let ghost seen = self.seen();
        let ghost start = self.screen();
        let mut i: usize = 0;
        proof {
            assert(bytes@.take(0) =~= Seq::empty());
            assert(seen + bytes@.take(0) =~= seen);
        }
        while i < bytes.len()
            invariant
                i <= bytes@.len(),
                start.wf(),
                feedable(seen, start.place, bytes@),
                self.wf(),
                self.seen() == seen + bytes@.take(i as int),
                self.screen() == fed(seen, start, bytes@.take(i as int)),
                told(seen, bytes@.take(i as int)),
            decreases bytes@.len() - i,
        {
            let ghost before = bytes@.take(i as int);
            let ghost now = bytes@.take(i + 1);
            let ghost s0 = self.screen();
            let ghost list = ansi_actions(seen + before, bytes@[i as int]);
            proof {
                assert(now.drop_last() =~= before);
                lemma_feedable_prefix(seen, start.place, bytes@, i + 1);
                lemma_feedable_prefix(seen, start.place, bytes@, i as int);
                law_fed(seen, start, before);
                assert(seen + now =~= (seen + before).push(bytes@[i as int]));
            }
            let actions = advance(&mut self.parser, bytes[i]);
            let mut k: usize = 0;
            proof {
                assert(list.take(0) =~= Seq::empty());
                assert(told_at(seen, bytes@, i as int));
                lemma_told_push(seen, bytes@, i as int);
            }
            while k < actions.len()
                invariant
                    k <= actions@.len(),
                    acts(actions@) == list,
                    s0.wf(),
                    s0.place.can_apply_all(list),
                    self.wf(),
                    self.seen() == seen + now,
                    self.screen() == s0.applied_all(list.take(k as int)),
                decreases actions@.len() - k,
            {
                proof {
                    assert(list.take(k + 1).drop_last() =~= list.take(k as int));
                    lemma_can_apply_prefix(s0.place, list, k + 1);
                    lemma_can_apply_prefix(s0.place, list, k as int);
                    law_applied_all(s0, list.take(k as int));
                    assert(list.take(k + 1).last() == actions@[k as int]@);
                }
                self.model.apply(&actions[k]);
                k = k + 1;
            }
            proof {
                assert(list.take(k as int) =~= list);
            }
            i = i + 1;
        }
        proof {
            assert(bytes@.take(i as int) =~= bytes@);
            assert forall|done: Seq<Token>, more: Seq<Token>|
                #![trigger spelled(done), spelled(more)]
                tokens_wf(done) && tokens_wf(more) && seen == spelled(done) && bytes@ == spelled(
                    more,
                ) implies fed(seen, start, bytes@) == start.applied_all(token_acts(more)) by {
                lemma_tokens(done, more, start, start.place);
            }
        }
        self.model.damage
    }

    /// Whether these bytes can be fed: no action that they lead to leaves the
    /// range of a grid coordinate.
    pub fn accepts(&self, bytes: &[u8]) -> (r: bool)
        requires
            self.wf(),
        ensures
            r == feedable(self.seen(), self.screen().place, bytes@),
            tokens_weighed(self.seen(), self.screen().place, bytes@),
    {
        let mut parser = clone_parser(&self.parser);
        let size = self.model.size;
        let mut cursor = self.model.cursor;
        let ghost seen = self.seen();
        let ghost start = self.screen().place;
        let mut i: usize = 0;
        proof {
            assert(bytes@.take(0) =~= Seq::empty());
            assert(seen + bytes@.take(0) =~= seen);
        }
        while i < bytes.len()
            invariant
                i <= bytes@.len(),
                seen == self.seen(),
                start == self.screen().place,
                start.wf(),
                feedable(seen, start, bytes@.take(i as int)),
                parser_input(parser) == seen + bytes@.take(i as int),
                place_of(size, cursor) == placed(seen, start, bytes@.take(i as int)),
                place_of(size, cursor).wf(),
                told(seen, bytes@.take(i as int)),
            decreases bytes@.len() - i,
        {
            let ghost before = bytes@.take(i as int);
            let ghost now = bytes@.take(i + 1);
            let ghost p0 = place_of(size, cursor);
            let ghost list = ansi_actions(seen + before, bytes@[i as int]);
            proof {
                assert(now.drop_last() =~= before);
                assert(seen + now =~= (seen + before).push(bytes@[i as int]));
            }
            let actions = advance(&mut parser, bytes[i]);
            let mut k: usize = 0;
            proof {
                assert(list.take(0) =~= Seq::empty());
                assert(told_at(seen, bytes@, i as int));
                lemma_told_push(seen, bytes@, i as int);
            }
            while k < actions.len()
                invariant
                    k <= actions@.len(),
                    i < bytes@.len(),
                    acts(actions@) == list,
                    seen == self.seen(),
                    start == self.screen().place,
                    now == bytes@.take(i + 1),
                    now.drop_last() == before,
                    now.last() == bytes@[i as int],
                    list == ansi_actions(seen + before, bytes@[i as int]),
                    told(seen, now),
                    p0 == placed(seen, start, before),
                    p0.can_apply_all(list.take(k as int)),
                    place_of(size, cursor) == p0.after_all(list.take(k as int)),
                    place_of(size, cursor).wf(),
                decreases actions@.len() - k,
            {
                proof {
                    assert(list.take(k + 1).drop_last() =~= list.take(k as int));
                    assert(list.take(k + 1).last() == actions@[k as int]@);
                }
                if !can_apply(size, cursor, &actions[k]) {
                    proof {
                        if feedable(seen, start, bytes@) {
                            lemma_feedable_prefix(seen, start, bytes@, i + 1);
                        }
                        if feedable(seen, start, now) {
                            lemma_can_apply_prefix(p0, list, k + 1);
                        }
                        assert forall|done: Seq<Token>, more: Seq<Token>|
                            #![trigger spelled(done), spelled(more)]
                            tokens_wf(done) && tokens_wf(more) && seen == spelled(done) && bytes@
                                == spelled(more) implies !start.can_apply_all(
                            token_acts(more),
                        ) by {
                            if start.can_apply_all(token_acts(more)) {
                                lemma_tokens_prefix(done, more, start, i + 1);
                            }
                        }
                    }
                    return false;
                }
                cursor = cursor_after(size, cursor, &actions[k]);
                k = k + 1;
            }
            proof {
                assert(list.take(k as int) =~= list);
            }
            i = i + 1;
        }
        proof {
            assert(bytes@.take(i as int) =~= bytes@);
            assert forall|done: Seq<Token>, more: Seq<Token>|
                #![trigger spelled(done), spelled(more)]
                tokens_wf(done) && tokens_wf(more) && seen == spelled(done) && bytes@ == spelled(
                    more,
                ) implies start.can_apply_all(token_acts(more)) by {
                lemma_tokens(done, more, self.screen(), start);
            }
        }
        true
    }

    /// Feed bytes if they can be fed, and return the damage that this call did.
    /// Otherwise nothing changes.
    pub fn feed_checked(&mut self, bytes: &[u8]) -> (r: Option<Damage>)
        requires
            old(self).wf(),
        ensures
            final(self).wf(),
            r is Some <==> feedable(old(self).seen(), old(self).screen().place, bytes@),
            tokens_weighed(old(self).seen(), old(self).screen().place, bytes@),
            r is Some ==> tokens_shown(
                old(self).seen(),
                old(self).screen().with_damage(no_damage()),
                bytes@,
            ),
            r matches Some(damage) ==> {
                &&& final(self).seen() == old(self).seen() + bytes@
                &&& final(self).screen() == fed(
                    old(self).seen(),
                    old(self).screen().with_damage(no_damage()),
                    bytes@,
                )
                &&& damage == final(self).screen().damage
            },
            r is None ==> *final(self) == *old(self),
    {
        if self.accepts(bytes) {
            Some(self.feed(bytes))
        } else {
            None
        }
    }

    /// The screen model.
    pub fn model(&self) -> (r: &TerminalModel)
        requires
            self.wf(),
        ensures
            r.wf(),
            r@ == self.screen(),
    {
        &self.model
    }
}

} // verus!
