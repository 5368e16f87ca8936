//! Colours as the terminal keeps them, and the state that SGR sequences change.
//!
//! A colour is symbolic: which named colour, palette entry or
//! RGB triple it starts from, and whether it was brightened or dimmed. The
//! renderer turns it into pixel values.

use vstd::prelude::*;

verus! {

/// Where a colour comes from before it is brightened or dimmed.
#[derive(Copy, Clone, Debug, PartialEq, Eq, Structural)]
pub enum BaseColor {
    Black,
    Red,
    Green,
    Yellow,
    Blue,
    Magenta,
    Cyan,
    White,
    /// An entry of the 256 colour palette.
    Indexed(u8),
    /// An opaque RGB colour.
    Rgb { red: u8, green: u8, blue: u8 },
    /// Fully transparent.
    Invisible,
    /// The green of the status bar.
    HhuGreen,
    /// The blue of the status bar.
    HhuBlue,
}

/// A colour to draw with: `base`, brightened first if `bright`, then dimmed if
/// `dim`.
#[derive(Copy, Clone, Debug, PartialEq, Eq, Structural)]
pub struct Color {
    pub base: BaseColor,
    pub bright: bool,
    pub dim: bool,
}

impl Color {
    /// `base` as it is.
    pub open spec fn of(base: BaseColor) -> Color {
        Color { base, bright: false, dim: false }
    }

    /// `base` as it is.
    pub fn plain(base: BaseColor) -> (r: Color)
        ensures
            r == Color::of(base),
    {
        Color { base, bright: false, dim: false }
    }
}

/// The colours in force and the SGR switches they were computed from.
#[derive(Copy, Clone, Debug, PartialEq, Eq, Structural)]
pub struct ColorState {
    pub fg_color: Color,
    pub bg_color: Color,
    pub fg_base_color: BaseColor,
    pub bg_base_color: BaseColor,
    pub fg_bright: bool,
    pub bg_bright: bool,
    pub invert: bool,
    pub bright: bool,
    pub dim: bool,
}

/// White on black, every switch off: the state that SGR 0 restores.
pub open spec fn initial_colors() -> ColorState {
    ColorState {
        fg_color: Color::of(BaseColor::White),
        bg_color: Color::of(BaseColor::Black),
        fg_base_color: BaseColor::White,
        bg_base_color: BaseColor::Black,
        fg_bright: false,
        bg_bright: false,
        invert: false,
        bright: false,
        dim: false,
    }
}

/// The eight colours that an SGR code names by its last digit; 9 is the default.
pub open spec fn named_color(digit: int) -> Option<BaseColor> {
    if digit == 0 {
        Some(BaseColor::Black)
    } else if digit == 1 {
        Some(BaseColor::Red)
    } else if digit == 2 {
        Some(BaseColor::Green)
    } else if digit == 3 {
        Some(BaseColor::Yellow)
    } else if digit == 4 {
        Some(BaseColor::Blue)
    } else if digit == 5 {
        Some(BaseColor::Magenta)
    } else if digit == 6 {
        Some(BaseColor::Cyan)
    } else if digit == 7 || digit == 9 {
        Some(BaseColor::White)
    } else {
        None
    }
}

/// The colour that the parameters after a 38 or 48 describe, and how many of
/// them were taken. `2;r;g;b` is an RGB triple (each value taken modulo 256),
/// `5;n` a palette entry. A description that breaks off takes everything.
pub open spec fn complex_color(rest: Seq<u16>) -> (Option<BaseColor>, nat) {
    if rest.len() == 0 {
        (None, 0)
    } else if rest[0] == 2 {
        if rest.len() < 4 {
            (None, rest.len())
        } else {
            (
                Some(
                    BaseColor::Rgb {
                        red: (rest[1] % 256) as u8,
                        green: (rest[2] % 256) as u8,
                        blue: (rest[3] % 256) as u8,
                    },
                ),
                4,
            )
        }
    } else if rest[0] == 5 {
        if rest.len() < 2 {
            (None, rest.len())
        } else if rest[1] <= 255 {
            (Some(BaseColor::Indexed(rest[1] as u8)), 2)
        } else {
            (None, 2)
        }
    } else {
        (None, 1)
    }
}

/// The colour that an SGR colour code with last digit `digit` selects, and how
/// many of the parameters behind the code it takes.
pub open spec fn selected_color(digit: int, rest: Seq<u16>) -> (Option<BaseColor>, nat) {
    if digit == 8 {
        complex_color(rest)
    } else {
        (named_color(digit), 0)
    }
}

impl ColorState {
    /// The state after one of the SGR codes 0 to 29.
    pub open spec fn rendition(self, code: int) -> ColorState {
        if code == 0 {
            initial_colors()
        } else if code == 1 {
            ColorState { bright: true, ..self }
        } else if code == 2 {
            ColorState { dim: true, ..self }
        } else if code == 7 {
            ColorState { invert: true, ..self }
        } else if code == 22 {
            ColorState { bright: false, dim: false, ..self }
        } else if code == 27 {
            ColorState { invert: false, ..self }
        } else {
            self
        }
    }

    /// A new foreground base colour, if there is one.
    pub open spec fn with_fg(self, base: Option<BaseColor>, bright: bool) -> ColorState {
        match base {
            Some(b) => ColorState { fg_base_color: b, fg_bright: bright, ..self },
            None => self,
        }
    }

    /// A new background base colour, if there is one.
    pub open spec fn with_bg(self, base: Option<BaseColor>, bright: bool) -> ColorState {
        match base {
            Some(b) => ColorState { bg_base_color: b, bg_bright: bright, ..self },
            None => self,
        }
    }

    /// The state after the first SGR code of `params` and how many parameters
    /// that code took, itself counted.
    pub open spec fn sgr_step(self, params: Seq<u16>) -> (ColorState, nat)
        recommends
            params.len() > 0,
    {
        let code = params[0] as int;
        let rest = params.skip(1);
        if 0 <= code <= 29 {
            (self.rendition(code), 1)
        } else if 30 <= code <= 39 {
            let (color, used) = selected_color(code - 30, rest);
            (self.with_fg(color, false), 1 + used)
        } else if 40 <= code <= 49 {
            let (color, used) = selected_color(code - 40, rest);
            (self.with_bg(color, false), 1 + used)
        } else if 90 <= code <= 97 {
            (self.with_fg(named_color(code - 90), true), 1)
        } else if 100 <= code <= 107 {
            (self.with_bg(named_color(code - 100), true), 1)
        } else {
            (self, 1)
        }
    }

    /// The switches and base colours after all SGR codes of `params`.
    pub open spec fn sgr_codes(self, params: Seq<u16>) -> ColorState
        decreases params.len(),
    {
        if params.len() == 0 {
            self
        } else {
            let (next, used) = self.sgr_step(params);
            next.sgr_codes(params.skip(used as int))
        }
    }

    /// The drawing colours that the switches and base colours stand for:
    /// inversion swaps the bases, bold or a bright code brightens, dim dims.
    pub open spec fn resolved(self) -> ColorState {
        ColorState {
            fg_color: Color {
                base: if self.invert { self.bg_base_color } else { self.fg_base_color },
                bright: self.bright || self.fg_bright,
                dim: self.dim,
            },
            bg_color: Color {
                base: if self.invert { self.fg_base_color } else { self.bg_base_color },
                bright: self.bg_bright,
                dim: false,
            },
            ..self
        }
    }

    /// The state after an SGR sequence (`CSI .. m`).
    pub open spec fn sgr(self, params: Seq<u16>) -> ColorState {
        self.sgr_codes(params).resolved()
    }

    /// White on black, every switch off.
    pub fn new() -> (r: ColorState)
        ensures
            r == initial_colors(),
    {
        ColorState {
            fg_color: Color::plain(BaseColor::White),
            bg_color: Color::plain(BaseColor::Black),
            fg_base_color: BaseColor::White,
            bg_base_color: BaseColor::Black,
            fg_bright: false,
            bg_bright: false,
            invert: false,
            bright: false,
            dim: false,
        }
    }

    /// Apply an SGR sequence with these parameters.
    pub fn handle_ansi_color(&mut self, params: &Vec<u16>)
        ensures
            *final(self) == old(self).sgr(params@),
    {
        let mut i: usize = 0;
        proof {
            assert(params@.skip(0) =~= params@);
        }
        while i < params.len()
            invariant
                i <= params@.len(),
                self.sgr_codes(params@.skip(i as int)) == old(self).sgr_codes(params@),
            decreases params@.len() - i,
        {
            let ghost rest = params@.skip(i as int);
            let ghost before = *self;
            let code: u16 = params[i];
            proof {
                assert(rest.skip(1) =~= params@.skip(i + 1));
            }
            if code <= 29 {
                self.handle_ansi_graphic_rendition(code);
                i = i + 1;
            } else if 30 <= code && code <= 39 {
                let (color, next) = ansi_color(code - 30, params, i + 1);
                if let Some(base) = color {
                    self.fg_base_color = base;
                    self.fg_bright = false;
                }
                i = next;
            } else if 40 <= code && code <= 49 {
                let (color, next) = ansi_color(code - 40, params, i + 1);
                if let Some(base) = color {
                    self.bg_base_color = base;
                    self.bg_bright = false;
                }
                i = next;
            } else if 90 <= code && code <= 97 {
                let (color, next) = ansi_color(code - 90, params, i + 1);
                if let Some(base) = color {
                    self.fg_base_color = base;
                    self.fg_bright = true;
                }
                i = next;
            } else if 100 <= code && code <= 107 {
                let (color, next) = ansi_color(code - 100, params, i + 1);
                if let Some(base) = color {
                    self.bg_base_color = base;
                    self.bg_bright = true;
                }
                i = next;
            } else {
                i = i + 1;
            }
            proof {
                let (stepped, used) = before.sgr_step(rest);
                assert(rest.skip(used as int) =~= params@.skip(i as int));
                assert(*self == stepped);
            }
        }
        proof {
            assert(params@.skip(i as int).len() == 0);
        }
        let mut fg = Color::plain(self.fg_base_color);
        let mut bg = Color::plain(self.bg_base_color);
        if self.invert {
            std::mem::swap(&mut fg, &mut bg);
        }
        if self.bright || self.fg_bright {
            fg.bright = true;
        }
        if self.dim {
            fg.dim = true;
        }
        if self.bg_bright {
            bg.bright = true;
        }
        self.fg_color = fg;
        self.bg_color = bg;
    }

    fn handle_ansi_graphic_rendition(&mut self, code: u16)
        ensures
            *final(self) == old(self).rendition(code as int),
    {
        if code == 0 {
            *self = ColorState::new();
        } else if code == 1 {
            self.bright = true;
        } else if code == 2 {
            self.dim = true;
        } else if code == 7 {
            self.invert = true;
        } else if code == 22 {
            self.bright = false;
            self.dim = false;
        } else if code == 27 {
            self.invert = false;
        }
    }
}

/// The colour that a colour code selects, where the parameters behind the code
/// start at `at`, and the index of the first parameter not taken.
fn ansi_color(digit: u16, params: &Vec<u16>, at: usize) -> (r: (Option<BaseColor>, usize))
    requires
        at <= params@.len(),
    ensures
        r.0 == selected_color(digit as int, params@.skip(at as int)).0,
        r.1 == at + selected_color(digit as int, params@.skip(at as int)).1,
        at <= r.1 <= params@.len(),
{
    if digit == 8 {
        return parse_complex_color(params, at);
    }
    let color = match digit {
        0 => Some(BaseColor::Black),
        1 => Some(BaseColor::Red),
        2 => Some(BaseColor::Green),
        3 => Some(BaseColor::Yellow),
        4 => Some(BaseColor::Blue),
        5 => Some(BaseColor::Magenta),
        6 => Some(BaseColor::Cyan),
        7 => Some(BaseColor::White),
        9 => Some(BaseColor::White),
        _ => None,
    };
    (color, at)
}

fn parse_complex_color(params: &Vec<u16>, at: usize) -> (r: (Option<BaseColor>, usize))
    requires
        at <= params@.len(),
    ensures
        r.0 == complex_color(params@.skip(at as int)).0,
        r.1 == at + complex_color(params@.skip(at as int)).1,
        at <= r.1 <= params@.len(),
{
    let left: usize = params.len() - at;
    if left == 0 {
        return (None, at);
    }
    let mode: u16 = params[at];
    if mode == 2 {
        if left < 4 {
            (None, params.len())
        } else {
            let red: u8 = (params[at + 1] % 256) as u8;
            let green: u8 = (params[at + 2] % 256) as u8;
            let blue: u8 = (params[at + 3] % 256) as u8;
            (Some(BaseColor::Rgb { red, green, blue }), at + 4)
        }
    } else if mode == 5 {
        if left < 2 {
            (None, params.len())
        } else {
            let index: u16 = params[at + 1];
            if index <= 255 {
                (Some(BaseColor::Indexed(index as u8)), at + 2)
            } else {
                (None, at + 2)
            }
        }
    } else {
        (None, at + 1)
    }
}

/// SGR 0 as the last code restores the initial colours, whatever came before.
pub proof fn law_sgr_reset(state: ColorState)
    ensures
        state.sgr(seq![0u16]) == initial_colors(),
{
    reveal_with_fuel(ColorState::sgr_codes, 2);
    assert(seq![0u16].skip(1) =~= Seq::<u16>::empty());
}

/// An SGR sequence leaves the drawing colours resolved, and resolving again
/// changes nothing.
pub proof fn law_sgr_resolves(state: ColorState, params: Seq<u16>)
    ensures
        state.sgr(params).resolved() == state.sgr(params),
{
}

/// One of the colours that a code names by its last digit.
pub open spec fn is_named(base: BaseColor, digit: int) -> bool {
    match base {
        BaseColor::Black => digit == 0,
        BaseColor::Red => digit == 1,
        BaseColor::Green => digit == 2,
        BaseColor::Yellow => digit == 3,
        BaseColor::Blue => digit == 4,
        BaseColor::Magenta => digit == 5,
        BaseColor::Cyan => digit == 6,
        BaseColor::White => digit == 7 || digit == 9,
        _ => false,
    }
}

/// The background and the switches are the same.
pub open spec fn same_but_fg(a: ColorState, b: ColorState) -> bool {
    &&& b.bg_base_color == a.bg_base_color
    &&& b.bg_bright == a.bg_bright
    &&& b.invert == a.invert
    &&& b.bright == a.bright
    &&& b.dim == a.dim
}

/// The foreground and the switches are the same.
pub open spec fn same_but_bg(a: ColorState, b: ColorState) -> bool {
    &&& b.fg_base_color == a.fg_base_color
    &&& b.fg_bright == a.fg_bright
    &&& b.invert == a.invert
    &&& b.bright == a.bright
    &&& b.dim == a.dim
}

/// The base colours are the same.
pub open spec fn same_bases(a: ColorState, b: ColorState) -> bool {
    &&& b.fg_base_color == a.fg_base_color
    &&& b.fg_bright == a.fg_bright
    &&& b.bg_base_color == a.bg_base_color
    &&& b.bg_bright == a.bg_bright
}

proof fn lemma_one_code(state: ColorState, params: Seq<u16>)
    requires
        params.len() > 0,
        state.sgr_step(params).1 == params.len(),
    ensures
        state.sgr_codes(params) == state.sgr_step(params).0,
{
    let (next, used) = state.sgr_step(params);
    assert(params.skip(used as int).len() == 0);
    assert(next.sgr_codes(params.skip(used as int)) == next);
}

/// The codes 30 to 37, 39 and 90 to 97 select the foreground, plain or bright, by their
/// last digit and leave the background and the switches alone. The codes 40 to 47, 49
/// and 100 to 107 do the same for the background.
pub proof fn law_named_colors(state: ColorState, code: u16)
    ensures
        (30 <= code <= 39 && code != 38) || 90 <= code <= 97 ==> {
            let after = state.sgr(seq![code]);
            &&& is_named(after.fg_base_color, code as int % 10)
            &&& after.fg_bright == (code >= 90)
            &&& same_but_fg(state, after)
        },
        (40 <= code <= 49 && code != 48) || 100 <= code <= 107 ==> {
            let after = state.sgr(seq![code]);
            &&& is_named(after.bg_base_color, code as int % 10)
            &&& after.bg_bright == (code >= 100)
            &&& same_but_bg(state, after)
        },
{
    if 30 <= code <= 107 && code != 38 && code != 48 {
        lemma_one_code(state, seq![code]);
    }
}

/// `38;5;n` and `48;5;n` select an entry of the palette, `38;2;r;g;b` and `48;2;r;g;b`
/// a colour by its parts. The other colour and the switches stay.
pub proof fn law_described_colors(state: ColorState, n: u16, red: u16, green: u16, blue: u16)
    requires
        n <= 255,
        red <= 255,
        green <= 255,
        blue <= 255,
    ensures
        ({
            let (fg, bg) = (state.sgr(seq![38u16, 5, n]), state.sgr(seq![48u16, 5, n]));
            &&& fg.fg_base_color == BaseColor::Indexed(n as u8)
            &&& !fg.fg_bright
            &&& same_but_fg(state, fg)
            &&& bg.bg_base_color == BaseColor::Indexed(n as u8)
            &&& !bg.bg_bright
            &&& same_but_bg(state, bg)
        }),
        ({
            let rgb = BaseColor::Rgb { red: red as u8, green: green as u8, blue: blue as u8 };
            let fg = state.sgr(seq![38u16, 2, red, green, blue]);
            let bg = state.sgr(seq![48u16, 2, red, green, blue]);
            &&& fg.fg_base_color == rgb
            &&& !fg.fg_bright
            &&& same_but_fg(state, fg)
            &&& bg.bg_base_color == rgb
            &&& !bg.bg_bright
            &&& same_but_bg(state, bg)
        }),
{
    lemma_one_code(state, seq![38u16, 5, n]);
    lemma_one_code(state, seq![48u16, 5, n]);
    lemma_one_code(state, seq![38u16, 2, red, green, blue]);
    lemma_one_code(state, seq![48u16, 2, red, green, blue]);
}

/// Bold, dim and inversion are switched on by 1, 2 and 7; 22 switches the first two off
/// and 27 the third. Each leaves the other switches and the base colours alone.
pub proof fn law_switches(state: ColorState)
    ensures
        ({
            let after = state.sgr(seq![1u16]);
            &&& same_bases(state, after)
            &&& after.bright
            &&& after.dim == state.dim
            &&& after.invert == state.invert
        }),
        ({
            let after = state.sgr(seq![2u16]);
            &&& same_bases(state, after)
            &&& after.bright == state.bright
            &&& after.dim
            &&& after.invert == state.invert
        }),
        ({
            let after = state.sgr(seq![7u16]);
            &&& same_bases(state, after)
            &&& after.bright == state.bright
            &&& after.dim == state.dim
            &&& after.invert
        }),
        ({
            let after = state.sgr(seq![22u16]);
            &&& same_bases(state, after)
            &&& !after.bright
            &&& !after.dim
            &&& after.invert == state.invert
        }),
        ({
            let after = state.sgr(seq![27u16]);
            &&& same_bases(state, after)
            &&& after.bright == state.bright
            &&& after.dim == state.dim
            &&& !after.invert
        }),
{
    lemma_one_code(state, seq![1u16]);
    lemma_one_code(state, seq![2u16]);
    lemma_one_code(state, seq![7u16]);
    lemma_one_code(state, seq![22u16]);
    lemma_one_code(state, seq![27u16]);
}

/// A reset brings back plain white on plain black and switches everything off.
pub proof fn law_reset_colors(state: ColorState)
    ensures
        ({
            let t = state.sgr(seq![0u16]);
            &&& t.fg_base_color == BaseColor::White
            &&& t.bg_base_color == BaseColor::Black
            &&& !t.fg_bright && !t.bg_bright
            &&& !t.bright && !t.dim && !t.invert
        }),
{
    lemma_one_code(state, seq![0u16]);
}

/// A palette entry that does not exist and a description that breaks off select nothing.
pub proof fn law_bad_descriptions(state: ColorState, code: u16, n: u16, red: u16, green: u16)
    requires
        code == 38 || code == 48,
        n > 255,
    ensures
        forall|params: Seq<u16>|
            params == seq![code] || params == seq![code, 5, n] || params == seq![code, 5]
                || params == seq![code, 2] || params == seq![code, 2, red] || params == seq![
                code,
                2,
                red,
                green,
            ] ==> same_bases(state, #[trigger] state.sgr(params)) && same_but_fg(
                state,
                state.sgr(params),
            ),
{
    lemma_one_code(state, seq![code]);
    lemma_one_code(state, seq![code, 5, n]);
    lemma_one_code(state, seq![code, 5]);
    lemma_one_code(state, seq![code, 2]);
    lemma_one_code(state, seq![code, 2, red]);
    lemma_one_code(state, seq![code, 2, red, green]);
}

/// A code that means nothing leaves the base colours and the switches alone, and so does
/// a sequence without codes.
pub proof fn law_unknown_codes(state: ColorState, code: u16)
    requires
        3 <= code <= 6 || 8 <= code <= 21 || 23 <= code <= 26 || 28 <= code <= 29 || 50 <= code
            <= 89 || 98 <= code <= 99 || code >= 108,
    ensures
        ({
            let (none, one) = (state.sgr(seq![]), state.sgr(seq![code]));
            &&& same_bases(state, none) && same_but_fg(state, none)
            &&& same_bases(state, one) && same_but_fg(state, one)
        }),
{
    lemma_one_code(state, seq![code]);
    assert(state.sgr_codes(seq![]) == state);
}

/// The colours to draw with follow from the base colours and the switches: inversion
/// exchanges the two bases; the foreground is bright if bold is on or a bright code
/// selected it, and dim if dim is on; the background is bright only by its own code, and
/// never dim.
pub proof fn law_drawing_colors(state: ColorState, params: Seq<u16>)
    ensures
        ({
            let t = state.sgr(params);
            &&& !t.invert ==> t.fg_color.base == t.fg_base_color && t.bg_color.base
                == t.bg_base_color
            &&& t.invert ==> t.fg_color.base == t.bg_base_color && t.bg_color.base
                == t.fg_base_color
            &&& t.fg_color.bright <==> (t.bright || t.fg_bright)
            &&& t.fg_color.dim <==> t.dim
            &&& t.bg_color.bright <==> t.bg_bright
            &&& !t.bg_color.dim
        }),
{
}

/// The first codes of a sequence and the rest of it do one after the other what they do
/// in one: no code looks at those before it.
pub proof fn law_codes_in_turn(state: ColorState, first: Seq<u16>, rest: Seq<u16>)
    requires
        ({
            ||| first.len() == 1 && first[0] != 38 && first[0] != 48
            ||| first.len() == 3 && (first[0] == 38 || first[0] == 48) && first[1] == 5
            ||| first.len() == 5 && (first[0] == 38 || first[0] == 48) && first[1] == 2
        }),
    ensures
        state.sgr(first + rest) == state.sgr(first).sgr(rest),
{
    let all = first + rest;
    lemma_one_code(state, first);
    assert(all.skip(1) =~= first.skip(1) + rest);
    assert(state.sgr_step(all) == state.sgr_step(first));
    assert(all.skip(first.len() as int) =~= rest);
    let mid = state.sgr_codes(first);
    assert(state.sgr_codes(all) == mid.sgr_codes(rest));
    lemma_codes_ignore_drawing(mid, mid.resolved(), rest);
}

proof fn lemma_codes_ignore_drawing(a: ColorState, b: ColorState, params: Seq<u16>)
    requires
        a.resolved() == b.resolved(),
    ensures
        a.sgr_codes(params).resolved() == b.sgr_codes(params).resolved(),
    decreases params.len(),
{
    if params.len() > 0 {
        let used = a.sgr_step(params).1;
        lemma_codes_ignore_drawing(
            a.sgr_step(params).0,
            b.sgr_step(params).0,
            params.skip(used as int),
        );
    }
}

} // verus!
