//! One session's screen: its terminal and its line editor, independent of any
//! I/O. The handles of its FIFOs are kept beside them.

use vstd::prelude::*;
use vstd::string::*;
use vstd::utf8::*;

use crate::terminal::ansi::{fed, feedable, tokens_shown, tokens_weighed, SemanticTerminal};
use crate::terminal::model::{no_damage, Damage, Screen, ScreenSize, TerminalModel};
use crate::terminal::token::{
    lemma_no_wording,
    lemma_wording_concat,
    spelled,
    token_acts,
    tokens_wf,
    Token,
};
use crate::worker::canonical::{columns, CanonicalAction, CanonicalEditor, Line};
use crate::worker::echo::{
    blank_from,
    echo_tokens,
    in_step,
    law_echo_keeps_step,
    law_echo_wording,
    law_submit_leaves_line,
    printable,
    reads,
    row_left,
};

verus! {

/// Everything that makes a tab a tab.
pub struct SessionScreen {
    /// Reader of the application's standard output.
    pub out: Option<usize>,
    /// Reader of the control record.
    pub ctl: Option<usize>,
    /// Writer to the application's standard input, opened when first needed.
    pub in_writer: Option<usize>,
    /// Parser, grid, cursor, colours and scrollback.
    pub terminal: SemanticTerminal,
    /// The line editor of canonical mode.
    pub canonical: CanonicalEditor,
}

/// A handle as a list of one, or none.
pub open spec fn handle_seq(handle: Option<usize>) -> Seq<usize> {
    match handle {
        Some(h) => seq![h],
        None => Seq::empty(),
    }
}

/// The echo of an edit can be shown on a screen that has seen `seen`.
pub open spec fn echo_feedable(seen: Seq<u8>, screen: Screen, echo: Seq<char>) -> bool {
    echo.len() > 0 ==> feedable(seen, screen.place, encode_utf8(echo))
}

/// The screen after an echo; without one nothing changes.
pub open spec fn echoed(seen: Seq<u8>, screen: Screen, echo: Seq<char>) -> Screen {
    if echo.len() == 0 {
        screen
    } else {
        fed(seen, screen.with_damage(no_damage()), encode_utf8(echo))
    }
}

/// The bytes shown so far are `tokens`, the screen shows the line from column
/// `start` on, and the line is printable and fits the row before and after the
/// edit.
pub open spec fn edit_in_view(
    seen: Seq<u8>,
    screen: Screen,
    line: Line,
    action: CanonicalAction,
    tokens: Seq<Token>,
    start: int,
) -> bool {
    let next = line.edited(action).line;
    &&& tokens_wf(tokens)
    &&& seen == spelled(tokens)
    &&& in_step(screen, start, line)
    &&& printable(line.text)
    &&& printable(next.text)
    &&& start + columns(next.text) < screen.place.cols
}

/// The screen `after` the echo of an edit of a line that `before` shows: it shows
/// the edited line, or leaves the submitted line in the row above.
pub open spec fn edit_shown(
    before: Screen,
    line: Line,
    action: CanonicalAction,
    start: int,
    after: Screen,
) -> bool {
    if action == CanonicalAction::Submit {
        &&& after.place.col == 0
        &&& reads(row_left(before, after), start, line.text)
        &&& blank_from(row_left(before, after), start + columns(line.text))
    } else {
        in_step(after, start, line.edited(action).line)
    }
}

/// Of a line that the screen shows, every edit can be shown too.
proof fn lemma_edit_feedable(
    seen: Seq<u8>,
    screen: Screen,
    line: Line,
    action: CanonicalAction,
    tokens: Seq<Token>,
    start: int,
)
    requires
        screen.wf(),
        line.wf(),
        edit_in_view(seen, screen, line, action, tokens, start),
        tokens_weighed(seen, screen.place, encode_utf8(line.edited(action).echo)),
    ensures
        feedable(seen, screen.place, encode_utf8(line.edited(action).echo)),
{
    let more = echo_tokens(line, action);
    law_echo_wording(line, action);
    assert(encode_utf8(line.edited(action).echo) == spelled(more));
    if action == CanonicalAction::Submit {
        law_submit_leaves_line(screen, start, line);
    } else {
        law_echo_keeps_step(screen, start, line, action);
    }
}

/// The echo keeps the screen in step with the line.
proof fn lemma_edit_shown(
    seen: Seq<u8>,
    screen: Screen,
    line: Line,
    action: CanonicalAction,
    tokens: Seq<Token>,
    start: int,
)
    requires
        screen.wf(),
        line.wf(),
        edit_in_view(seen, screen, line, action, tokens, start),
        line.edited(action).echo.len() > 0 ==> tokens_shown(
            seen,
            screen.with_damage(no_damage()),
            encode_utf8(line.edited(action).echo),
        ),
    ensures
        edit_shown(
            screen,
            line,
            action,
            start,
            echoed(seen, screen, line.edited(action).echo),
        ),
        seen + encode_utf8(line.edited(action).echo) == spelled(
            tokens + echo_tokens(line, action),
        ),
        tokens_wf(tokens + echo_tokens(line, action)),
{
    let more = echo_tokens(line, action);
    let echo = line.edited(action).echo;
    let s = if echo.len() == 0 {
        screen
    } else {
        screen.with_damage(no_damage())
    };
    law_echo_wording(line, action);
    assert(encode_utf8(echo) == spelled(more));
    lemma_wording_concat(tokens, more);
    if echo.len() == 0 {
        lemma_no_wording(more);
        assert(token_acts(more) =~= Seq::empty());
        assert(s.applied_all(Seq::empty()) == s);
    }
    assert(s.wf());
    assert(in_step(s, start, line));
    if action == CanonicalAction::Submit {
        law_submit_leaves_line(s, start, line);
    } else {
        law_echo_keeps_step(s, start, line, action);
    }
}

impl SessionScreen {
    /// The terminal and the line are well formed.
    pub open spec fn wf(&self) -> bool {
        self.terminal.wf() && self.canonical.wf()
    }

    /// The bytes shown so far.
    pub open spec fn seen(&self) -> Seq<u8> {
        self.terminal.seen()
    }

    /// The screen.
    pub open spec fn screen(&self) -> Screen {
        self.terminal.screen()
    }

    /// The line being edited.
    pub open spec fn line(&self) -> Line {
        self.canonical@
    }

    /// Nothing is opened, shown or typed.
    pub fn new(size: ScreenSize) -> (r: SessionScreen)
        ensures
            r.wf(),
            r.out is None,
            r.ctl is None,
            r.in_writer is None,
            r.seen() == Seq::<u8>::empty(),
            r.screen() == Screen::empty(size),
            r.line() == (Line { text: Seq::empty(), cursor: 0 }),
    {
        SessionScreen {
            out: None,
            ctl: None,
            in_writer: None,
            terminal: SemanticTerminal::new(size),
            canonical: CanonicalEditor::new(),
        }
    }

    /// The same handles.
    pub open spec fn same_handles(&self, other: &SessionScreen) -> bool {
        self.out == other.out && self.ctl == other.ctl && self.in_writer == other.in_writer
    }

    /// Show the application's output.
    pub fn feed(&mut self, bytes: &[u8]) -> (r: Damage)
        requires
            old(self).wf(),
            feedable(old(self).seen(), old(self).screen().place, bytes@),
        ensures
            final(self).wf(),
            final(self).same_handles(old(self)),
            final(self).line() == old(self).line(),
            final(self).seen() == old(self).seen() + bytes@,
            final(self).screen() == fed(
                old(self).seen(),
                old(self).screen().with_damage(no_damage()),
                bytes@,
            ),
            tokens_shown(old(self).seen(), old(self).screen().with_damage(no_damage()), bytes@),
            r == final(self).screen().damage,
    {
        self.terminal.feed(bytes)
    }

    /// Show the application's output if it can be shown. Otherwise nothing
    /// changes.
    pub fn feed_checked(&mut self, bytes: &[u8]) -> (r: Option<Damage>)
        requires
            old(self).wf(),
        ensures
            final(self).wf(),
            final(self).same_handles(old(self)),
            final(self).line() == old(self).line(),
            r is Some <==> feedable(old(self).seen(), old(self).screen().place, bytes@),
            tokens_weighed(old(self).seen(), old(self).screen().place, bytes@),
            r is Some ==> tokens_shown(
                old(self).seen(),
                old(self).screen().with_damage(no_damage()),
                bytes@,
            ),
            r matches Some(damage) ==> {
                &&& final(self).seen() == old(self).seen() + bytes@
                &&& final(self).screen() == fed(
                    old(self).seen(),
                    old(self).screen().with_damage(no_damage()),
                    bytes@,
                )
                &&& damage == final(self).screen().damage
            },
            r is None ==> *final(self) == *old(self),
    {
        if self.terminal.accepts(bytes) {
            Some(self.feed(bytes))
        } else {
            None
        }
    }

    /// Edit the line. The echo goes to this session's own screen, so a line that
    /// is not submitted survives a switch to another tab and back. The second
    /// part of the result is the finished line, if the edit submitted one.
    pub fn edit(&mut self, action: CanonicalAction) -> (r: (Damage, Option<Vec<u8>>))
        requires
            old(self).wf(),
            echo_feedable(
                old(self).seen(),
                old(self).screen(),
                old(self).line().edited(action).echo,
            ),
        ensures
            final(self).wf(),
            final(self).same_handles(old(self)),
            ({
                let edit = old(self).line().edited(action);
                &&& final(self).line() == edit.line
                &&& final(self).seen() == old(self).seen() + encode_utf8(edit.echo)
                &&& final(self).screen() == echoed(old(self).seen(), old(self).screen(), edit.echo)
                &&& r.0 == if edit.echo.len() == 0 {
                    no_damage()
                } else {
                    final(self).screen().damage
                }
                &&& match (r.1, edit.submit) {
                    (Some(bytes), Some(expected)) => bytes@ == expected,
                    (None, None) => true,
                    _ => false,
                }
            }),
            forall|tokens: Seq<Token>, start: int| #[trigger]
                edit_in_view(
                    old(self).seen(),
                    old(self).screen(),
                    old(self).line(),
                    action,
                    tokens,
                    start,
                ) ==> {
                    &&& edit_shown(
                        old(self).screen(),
                        old(self).line(),
                        action,
                        start,
                        final(self).screen(),
                    )
                    &&& final(self).seen() == spelled(
                        tokens + echo_tokens(old(self).line(), action),
                    )
                },
    {
        let ghost seen = self.seen();
        let ghost screen = self.screen();
        let ghost line = self.line();
        proof {
            self.terminal.lemma_screen_wf();
        }
        let effect = self.canonical.apply(action);
        let damage = if effect.echo.as_str().is_empty() {
            proof {
                assert(encode_utf8(effect.echo@) =~= Seq::<u8>::empty());
                assert(self.seen() + Seq::<u8>::empty() =~= self.seen());
            }
            Damage::none()
        } else {
            self.terminal.feed(effect.echo.as_str().as_bytes())
        };
        proof {
            assert forall|tokens: Seq<Token>, start: int| #[trigger]
                edit_in_view(seen, screen, line, action, tokens, start) implies edit_shown(
                screen,
                line,
                action,
                start,
                self.screen(),
            ) && self.seen() == spelled(tokens + echo_tokens(line, action)) by {
                lemma_edit_shown(seen, screen, line, action, tokens, start);
            }
        }
        (damage, effect.submit)
    }

    /// Edit the line if the echo can be shown. Otherwise nothing changes.
    pub fn edit_checked(&mut self, action: CanonicalAction) -> (r: Option<
        (Damage, Option<Vec<u8>>),
    >)
        requires
            old(self).wf(),
        ensures
            final(self).wf(),
            final(self).same_handles(old(self)),
            r is Some <==> echo_feedable(
                old(self).seen(),
                old(self).screen(),
                old(self).line().edited(action).echo,
            ),
            r matches Some(done) ==> {
                let edit = old(self).line().edited(action);
                &&& final(self).line() == edit.line
                &&& final(self).seen() == old(self).seen() + encode_utf8(edit.echo)
                &&& final(self).screen() == echoed(old(self).seen(), old(self).screen(), edit.echo)
                &&& done.0 == if edit.echo.len() == 0 {
                    no_damage()
                } else {
                    final(self).screen().damage
                }
                &&& match (done.1, edit.submit) {
                    (Some(bytes), Some(expected)) => bytes@ == expected,
                    (None, None) => true,
                    _ => false,
                }
            },
            r is None ==> *final(self) == *old(self),
            forall|tokens: Seq<Token>, start: int| #[trigger]
                edit_in_view(
                    old(self).seen(),
                    old(self).screen(),
                    old(self).line(),
                    action,
                    tokens,
                    start,
                ) ==> {
                    &&& r is Some
                    &&& edit_shown(
                        old(self).screen(),
                        old(self).line(),
                        action,
                        start,
                        final(self).screen(),
                    )
                    &&& final(self).seen() == spelled(
                        tokens + echo_tokens(old(self).line(), action),
                    )
                },
    {
        let mut preview = self.canonical.copy();
        let effect = preview.apply(action);
        proof {
            self.terminal.lemma_screen_wf();
        }
        if effect.echo.as_str().is_empty() || self.terminal.accepts(
            effect.echo.as_str().as_bytes(),
        ) {
            Some(self.edit(action))
        } else {
            proof {
                assert forall|tokens: Seq<Token>, start: int| !(#[trigger] edit_in_view(
                    self.seen(),
                    self.screen(),
                    self.line(),
                    action,
                    tokens,
                    start,
                )) by {
                    if edit_in_view(
                        self.seen(),
                        self.screen(),
                        self.line(),
                        action,
                        tokens,
                        start,
                    ) {
                        lemma_edit_feedable(
                            self.seen(),
                            self.screen(),
                            self.line(),
                            action,
                            tokens,
                            start,
                        );
                    }
                }
            }
            None
        }
    }

    /// The handles that are open, to be closed with the session.
    pub fn open_handles(&self) -> (r: Vec<usize>)
        ensures
            r@ == handle_seq(self.out) + handle_seq(self.ctl) + handle_seq(self.in_writer),
    {
        let mut handles: Vec<usize> = Vec::new();
        if let Some(handle) = self.out {
            handles.push(handle);
        }
        if let Some(handle) = self.ctl {
            handles.push(handle);
        }
        if let Some(handle) = self.in_writer {
            handles.push(handle);
        }
        proof {
            assert(handles@ =~= handle_seq(self.out) + handle_seq(self.ctl) + handle_seq(
                self.in_writer,
            ));
        }
        handles
    }

    /// The screen model.
    pub fn model(&self) -> (r: &TerminalModel)
        requires
            self.wf(),
        ensures
            r.wf(),
            r@ == self.screen(),
    {
        self.terminal.model()
    }
}

/// An edit that echoes nothing can always be made and leaves the screen alone.
pub proof fn law_silent_edit(seen: Seq<u8>, screen: Screen)
    ensures
        echo_feedable(seen, screen, Seq::empty()),
        echoed(seen, screen, Seq::empty()) == screen,
{
}

/// A screen that shows a line, as the tokens so far left it, is one on which an edit of
/// this line can be shown if the edited line is printable and fits the row too.
pub proof fn law_edit_in_view(
    screen: Screen,
    line: Line,
    action: CanonicalAction,
    tokens: Seq<Token>,
    start: int,
)
    requires
        tokens_wf(tokens),
        in_step(screen, start, line),
        printable(line.text),
        printable(line.edited(action).line.text),
        start + columns(line.edited(action).line.text) < screen.place.cols,
    ensures
        edit_in_view(spelled(tokens), screen, line, action, tokens, start),
{
}

/// A screen that shows an edit is in step with the edited line; after a submit it has the
/// line, with nothing behind it, where the cursor's row went, and starts a new one.
pub proof fn law_edit_shown(
    before: Screen,
    line: Line,
    action: CanonicalAction,
    start: int,
    after: Screen,
)
    requires
        edit_shown(before, line, action, start, after),
    ensures
        !(action is Submit) ==> in_step(after, start, line.edited(action).line),
        action is Submit ==> {
            &&& after.place.col == 0
            &&& reads(row_left(before, after), start, line.text)
            &&& blank_from(row_left(before, after), start + columns(line.text))
        },
{
}

} // verus!
