//! Output made of whole characters, control characters and control sequences.

use vstd::prelude::*;
use vstd::utf8::*;

use crate::terminal::action::Act;
use crate::text::{decimal, lemma_encode_concat, lemma_encode_one};

verus! {

/// The escape character.
pub const ESC: char = '\u{1b}';

/// Greatest number of parameters of a control sequence.
pub const MAX_PARAMS: usize = 32;

/// One piece of output.
pub enum Token {
    /// A character from the space on.
    Char(char),
    /// A control character other than escape.
    Control(char),
    /// A control sequence: numbers, and the character that tells them apart.
    Sequence { params: Seq<u16>, code: char },
}

/// Numbers in decimal digits with semicolons in between.
pub open spec fn numbers(params: Seq<u16>) -> Seq<char>
    decreases params.len(),
{
    if params.len() == 0 {
        Seq::empty()
    } else if params.len() == 1 {
        decimal(params[0] as nat)
    } else {
        numbers(params.drop_last()).push(';') + decimal(params.last() as nat)
    }
}

impl Token {
    /// The token is what its variant says.
    pub open spec fn wf(self) -> bool {
        match self {
            Token::Char(c) => c as u32 >= 0x20,
            Token::Control(c) => (c as u32) < 0x20 && c != ESC,
            Token::Sequence { params, code } => params.len() <= MAX_PARAMS && 0x40 <= code as u32
                <= 0x7e,
        }
    }

    /// The token written out.
    pub open spec fn text(self) -> Seq<char> {
        match self {
            Token::Char(c) => seq![c],
            Token::Control(c) => seq![c],
            Token::Sequence { params, code } => (seq![ESC, '['] + numbers(params)).push(code),
        }
    }

    /// The token written out in UTF-8.
    pub open spec fn bytes(self) -> Seq<u8> {
        encode_utf8(self.text())
    }

    /// What the token asks of the screen. A sequence without numbers has a 0.
    pub open spec fn act(self) -> Act {
        match self {
            Token::Char(c) => Act::Print(c),
            Token::Control(c) => Act::Execute(c as u8),
            Token::Sequence { params, code } => Act::Csi {
                params: if params.len() == 0 {
                    seq![0u16]
                } else {
                    params
                },
                action: code as u8,
            },
        }
    }
}

/// Every token is what its variant says.
pub open spec fn tokens_wf(tokens: Seq<Token>) -> bool {
    forall|i: int| 0 <= i < tokens.len() ==> (#[trigger] tokens[i]).wf()
}

/// Tokens written out one after the other.
pub open spec fn wording(tokens: Seq<Token>) -> Seq<char>
    decreases tokens.len(),
{
    if tokens.len() == 0 {
        Seq::empty()
    } else {
        wording(tokens.drop_last()) + tokens.last().text()
    }
}

/// Tokens written out in UTF-8.
pub open spec fn spelled(tokens: Seq<Token>) -> Seq<u8> {
    encode_utf8(wording(tokens))
}

/// What tokens ask of the screen, in order.
pub open spec fn token_acts(tokens: Seq<Token>) -> Seq<Act> {
    Seq::new(tokens.len(), |i: int| tokens[i].act())
}

/// What is dispatched when the first `n` bytes of a token have come.
pub open spec fn acts_at(token: Token, n: int) -> Seq<Act> {
    if n == token.bytes().len() {
        seq![token.act()]
    } else {
        Seq::empty()
    }
}

/// `byte` is the byte of `token` with index `k`, and `seen` is the tokens `done`
/// and the bytes of `token` before that one.
pub open spec fn within(seen: Seq<u8>, byte: u8, done: Seq<Token>, token: Token, k: int) -> bool {
    &&& tokens_wf(done)
    &&& token.wf()
    &&& 0 <= k < token.bytes().len()
    &&& seen == spelled(done) + token.bytes().take(k)
    &&& byte == token.bytes()[k]
}

/// After whole tokens, each further token is dispatched with its last byte, and
/// nothing is dispatched before.
pub open spec fn tokens_told(seen: Seq<u8>, byte: u8, list: Seq<Act>) -> bool {
    forall|done: Seq<Token>, token: Token, k: int| #[trigger]
        within(seen, byte, done, token, k) ==> list == acts_at(token, k + 1)
}

/// A token takes at least one byte.
pub proof fn lemma_token_bytes(token: Token)
    ensures
        token.bytes().len() > 0,
{
    let text = token.text();
    assert(text =~= text.drop_last() + seq![text.last()]);
    lemma_encode_concat(text.drop_last(), seq![text.last()]);
    lemma_encode_one(text.last());
}

/// Tokens that are written out as nothing are no tokens.
pub proof fn lemma_no_wording(tokens: Seq<Token>)
    requires
        wording(tokens).len() == 0,
    ensures
        tokens.len() == 0,
{
    if tokens.len() > 0 {
        assert(tokens.last().text().len() > 0);
    }
}

/// One more token is written out behind the others.
pub proof fn lemma_spelled_push(tokens: Seq<Token>, token: Token)
    ensures
        spelled(tokens.push(token)) == spelled(tokens) + token.bytes(),
        token_acts(tokens.push(token)) == token_acts(tokens).push(token.act()),
{
    assert(tokens.push(token).drop_last() =~= tokens);
    lemma_encode_concat(wording(tokens), token.text());
    assert(token_acts(tokens.push(token)) =~= token_acts(tokens).push(token.act()));
}

/// Tokens written out in two pieces.
pub proof fn lemma_wording_concat(a: Seq<Token>, b: Seq<Token>)
    ensures
        wording(a + b) == wording(a) + wording(b),
        spelled(a + b) == spelled(a) + spelled(b),
        token_acts(a + b) == token_acts(a) + token_acts(b),
        tokens_wf(a) && tokens_wf(b) ==> tokens_wf(a + b),
    decreases b.len(),
{
    assert(token_acts(a + b) =~= token_acts(a) + token_acts(b));
    if b.len() == 0 {
        assert(a + b =~= a);
        assert(wording(a + b) =~= wording(a) + wording(b));
    } else {
        lemma_wording_concat(a, b.drop_last());
        assert((a + b).drop_last() =~= a + b.drop_last());
        assert(wording(a + b) =~= wording(a) + wording(b));
    }
    lemma_encode_concat(wording(a), wording(b));
}

/// A further number is written behind a semicolon, the first one without.
pub proof fn law_numbers(params: Seq<u16>, next: u16)
    ensures
        numbers(Seq::empty()).len() == 0,
        params.len() == 0 ==> numbers(params.push(next)) == decimal(next as nat),
        params.len() > 0 ==> numbers(params.push(next)) == numbers(params) + seq![';'] + decimal(
            next as nat,
        ),
{
    assert(params.push(next).drop_last() =~= params);
    if params.len() > 0 {
        assert(numbers(params.push(next)) =~= numbers(params) + seq![';'] + decimal(next as nat));
    }
}

/// A sequence is written with an escape character, a bracket, its numbers and its letter;
/// a character as itself.
pub proof fn law_token_text(token: Token)
    ensures
        token matches Token::Char(c) ==> token.text() == seq![c] && token.act() == Act::Print(c),
        token matches Token::Control(c) ==> token.text() == seq![c],
        token matches Token::Sequence { params, code } ==> token.text() == seq!['\u{1b}', '[']
            + numbers(params) + seq![code],
{
    if let Token::Sequence { params, code } = token {
        assert(token.text() =~= seq!['\u{1b}', '['] + numbers(params) + seq![code]);
    }
}

} // verus!
