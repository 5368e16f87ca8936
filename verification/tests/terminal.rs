use d3os::terminal::ansi::SemanticTerminal;
use d3os::terminal::color::{BaseColor, Color, ColorState};
use d3os::terminal::glyph::{char_columns, columns_of_width};
use d3os::terminal::model::{Damage, ModelCursor, ScreenSize, TerminalModel};
use d3os::terminal::place::{can_print, cursor_after_print, sequence_target, tab_target};

fn terminal(cols: u16, rows: u16) -> SemanticTerminal {
    SemanticTerminal::new(ScreenSize { cols, rows })
}

fn row_text(model: &TerminalModel, row: usize) -> String {
    model.grid[row]
        .cells
        .iter()
        .map(|cell| if cell.value == '\0' { '.' } else { cell.value })
        .collect()
}

fn cursor(model: &TerminalModel) -> (u16, u16) {
    (model.cursor.col, model.cursor.row)
}

#[test]
fn a_new_screen_is_blank() {
    let t = terminal(5, 3);
    let model = t.model();
    assert_eq!(model.grid.len(), 3);
    assert_eq!(row_text(model, 0), ".....");
    assert_eq!(row_text(model, 1), ".....");
    assert_eq!(cursor(model), (0, 1));
    assert_eq!(model.scrollback.len(), 0);
    assert_eq!(model.damage, Damage::none());
    assert!(model.damage.is_clean());
    assert_eq!(model.grid[1].cells[0].fg_color, Color::plain(BaseColor::White));
    assert_eq!(model.grid[1].cells[0].bg_color, Color::plain(BaseColor::Black));
}

#[test]
fn prints_text() {
    let mut t = terminal(10, 4);
    let damage = t.feed(b"ab\x1b[31mc");
    assert!(!damage.full);
    assert_eq!(damage.dirty_range(), Some((1, 1)));
    assert!(damage.cursor_changed);
    assert!(!damage.is_clean());
    assert_eq!(row_text(t.model(), 1), "abc.......");
    assert_eq!(cursor(t.model()), (3, 1));
    assert_eq!(t.model().grid[1].cells[2].fg_color, Color::plain(BaseColor::Red));
    assert_eq!(t.model().grid[1].cells[1].fg_color, Color::plain(BaseColor::White));
}

#[test]
fn damage_counts_from_the_last_feed() {
    let mut t = terminal(10, 4);
    t.feed(b"a\nb");
    let damage = t.feed(b"");
    assert!(damage.is_clean());
    assert_eq!(t.feed(b"c").dirty_range(), Some((2, 2)));
}

#[test]
fn a_line_end_clears_the_rest_of_the_line() {
    let mut t = terminal(6, 4);
    let damage = t.feed(b"abcd\x1b[2G\nx");
    assert_eq!(row_text(t.model(), 1), "ab....");
    assert_eq!(row_text(t.model(), 2), "x.....");
    assert_eq!(cursor(t.model()), (1, 2));
    assert_eq!(damage.dirty_range(), Some((1, 2)));
}

#[test]
fn a_full_line_wraps() {
    let mut t = terminal(4, 4);
    t.feed(b"abcde");
    assert_eq!(row_text(t.model(), 1), "abcd");
    assert!(t.model().grid[1].wrapped);
    assert_eq!(row_text(t.model(), 2), "e...");
    assert!(!t.model().grid[2].wrapped);
    assert_eq!(cursor(t.model()), (1, 2));
}

#[test]
fn the_screen_scrolls_into_the_scrollback() {
    let mut t = terminal(4, 3);
    let damage = t.feed(b"a\nb\nc");
    assert!(damage.full);
    assert_eq!(row_text(t.model(), 0), "....");
    assert_eq!(row_text(t.model(), 1), "b...");
    assert_eq!(row_text(t.model(), 2), "c...");
    assert_eq!(t.model().scrollback.len(), 1);
    assert_eq!(t.model().scrollback[0].cells[0].value, 'a');
    assert_eq!(cursor(t.model()), (1, 2));
}

#[test]
fn the_scrollback_is_bounded() {
    let mut t = terminal(1024, 2);
    assert_eq!(t.model().max_scrollback_rows, 16);
    for i in 0..20u8 {
        t.feed(&[b'a' + i, b'\n']);
    }
    assert_eq!(t.model().scrollback.len(), 16);
    assert_eq!(t.model().scrollback[15].cells[0].value, 't');
    assert_eq!(t.model().scrollback[0].cells[0].value, 'e');
    assert_eq!(terminal(20000, 2).model().max_scrollback_rows, 1);
    assert_eq!(terminal(80, 2).model().max_scrollback_rows, 204);
    assert_eq!(terminal(0, 2).model().max_scrollback_rows, 16384);
}

#[test]
fn tabs_move_to_the_next_stop() {
    let mut t = terminal(12, 4);
    t.feed(b"a\tb");
    assert_eq!(row_text(t.model(), 1), "a...b.......");
    t.feed(b"\t");
    assert_eq!(cursor(t.model()), (8, 1));
    t.feed(b"\t");
    assert_eq!(cursor(t.model()), (0, 2));
    let size = ScreenSize { cols: 12, rows: 4 };
    let at = |col: u16| ModelCursor { col, row: 1, saved_col: 0, saved_row: 1 };
    assert_eq!(tab_target(size, at(3)), (4, 1));
    assert_eq!(tab_target(size, at(4)), (8, 1));
    assert_eq!(tab_target(size, at(8)), (0, 2));
}

#[test]
fn bell_and_other_control_bytes_do_nothing() {
    let mut t = terminal(6, 3);
    let damage = t.feed(b"\x07\x08\x0d\x00");
    assert!(damage.is_clean());
    assert_eq!(cursor(t.model()), (0, 1));
}

#[test]
fn backspace_blanks_the_cell_on_the_left() {
    let mut t = TerminalModel::new(ScreenSize { cols: 6, rows: 3 });
    t.print_char('a');
    t.print_char('b');
    t.print_char('\u{8}');
    assert_eq!(row_text(&t, 1), "a ....");
    assert_eq!(cursor(&t), (1, 1));
    t.print_char('\u{8}');
    t.print_char('\u{8}');
    assert_eq!(row_text(&t, 1), "  ....");
    assert_eq!(cursor(&t), (0, 1));
}

#[test]
fn wide_glyphs_take_two_cells() {
    assert_eq!(char_columns('a'), 1);
    assert_eq!(char_columns('\u{4e2d}'), 2);
    assert_eq!(columns_of_width(Some(16)), 2);
    assert_eq!(columns_of_width(Some(9)), 2);
    assert_eq!(columns_of_width(Some(8)), 1);
    assert_eq!(columns_of_width(Some(0)), 0);
    assert_eq!(columns_of_width(None), 0);
    let mut t = terminal(6, 3);
    t.feed("\u{4e2d}x".as_bytes());
    let cells = &t.model().grid[1].cells;
    assert_eq!((cells[0].value, cells[0].width), ('\u{4e2d}', 2));
    assert_eq!((cells[1].value, cells[1].width), ('\0', 0));
    assert_eq!(cells[1].fg_color, Color::plain(BaseColor::Invisible));
    assert_eq!((cells[2].value, cells[2].width), ('x', 1));
    assert_eq!(cursor(t.model()), (3, 1));
}

#[test]
fn a_wide_glyph_at_the_edge_is_cut() {
    let mut t = terminal(3, 3);
    t.feed("ab\u{4e2d}".as_bytes());
    assert_eq!(t.model().grid[1].cells[2].width, 2);
    assert!(t.model().grid[1].wrapped);
    assert_eq!(cursor(t.model()), (0, 2));
}

#[test]
fn moves_the_cursor() {
    let mut t = terminal(10, 8);
    t.feed(b"\x1b[5;3H");
    assert_eq!(cursor(t.model()), (5, 3));
    t.feed(b"\x1b[A");
    assert_eq!(cursor(t.model()), (5, 2));
    t.feed(b"\x1b[4B");
    assert_eq!(cursor(t.model()), (5, 6));
    t.feed(b"\x1b[9B");
    assert_eq!(cursor(t.model()), (5, 7));
    t.feed(b"\x1b[2C");
    assert_eq!(cursor(t.model()), (7, 7));
    t.feed(b"\x1b[90C");
    assert_eq!(cursor(t.model()), (9, 7));
    t.feed(b"\x1b[3D");
    assert_eq!(cursor(t.model()), (6, 7));
    t.feed(b"\x1b[2F");
    assert_eq!(cursor(t.model()), (0, 4));
    t.feed(b"\x1b[1E");
    assert_eq!(cursor(t.model()), (0, 6));
    t.feed(b"\x1b[4G");
    assert_eq!(cursor(t.model()), (4, 6));
    t.feed(b"\x1b[H");
    assert_eq!(cursor(t.model()), (0, 1));
    t.feed(b"\x1b[99;99f");
    assert_eq!(cursor(t.model()), (9, 7));
}

#[test]
fn the_status_row_is_never_selected() {
    let mut t = terminal(10, 8);
    t.feed(b"\x1b[3;0H");
    assert_eq!(cursor(t.model()), (3, 1));
    t.feed(b"\x1b[A");
    assert_eq!(cursor(t.model()), (3, 1));
    t.feed(b"x");
    assert_eq!(row_text(t.model(), 0), "..........");
}

#[test]
fn saves_and_restores_the_cursor() {
    let mut t = terminal(10, 8);
    t.feed(b"\x1b[5;3H\x1b[s\x1b[1;1Hxyz\x1b[u");
    assert_eq!(cursor(t.model()), (5, 3));
    assert_eq!(t.model().cursor.saved_col, 5);
    assert_eq!(t.model().cursor.saved_row, 3);
}

#[test]
fn refuses_to_leave_the_range_of_the_coordinates() {
    let mut t = terminal(10, 4);
    t.feed(b"ab");
    assert!(!t.accepts(b"\x1b[5A"));
    assert!(t.feed_checked(b"c\x1b[5A").is_none());
    assert_eq!(row_text(t.model(), 1), "ab........");
    assert!(t.feed_checked(b"\x1b[3D").is_none());
    assert!(t.feed_checked(b"\x1b[2D").is_some());
    assert_eq!(cursor(t.model()), (0, 1));
    assert!(t.feed_checked(b"\x1b[65535B").is_none());
    assert!(t.feed_checked(b"\x1b[65534B").is_some());
    assert_eq!(cursor(t.model()), (0, 3));
}

#[test]
fn targets_of_cursor_sequences() {
    let size = ScreenSize { cols: 10, rows: 8 };
    let at = ModelCursor { col: 4, row: 3, saved_col: 7, saved_row: 2 };
    assert_eq!(sequence_target(size, at, 0x41, &vec![2]), Some((4, 1)));
    assert_eq!(sequence_target(size, at, 0x48, &vec![1]), Some((0, 0)));
    assert_eq!(sequence_target(size, at, 0x48, &vec![10, 8]), Some((10, 8)));
    assert_eq!(sequence_target(size, at, 0x48, &vec![11, 9]), Some((9, 7)));
    assert_eq!(sequence_target(size, at, 0x75, &vec![]), Some((7, 2)));
    assert_eq!(sequence_target(size, at, 0x73, &vec![]), None);
    assert_eq!(sequence_target(size, at, 0x6e, &vec![6]), None);
    assert_eq!(sequence_target(size, at, 0x42, &vec![]), None);
    assert!(can_print(size, at, 'a', 1));
    let after = cursor_after_print(size, ModelCursor { col: 9, ..at }, 'a', 1);
    assert_eq!((after.col, after.row), (0, 4));
}

#[test]
fn erases_parts_of_a_line() {
    let mut t = terminal(6, 3);
    t.feed(b"abcdef\x1b[2;1H\x1b[K");
    assert_eq!(row_text(t.model(), 1), "ab....");
    t.feed(b"\x1b[1K");
    assert_eq!(row_text(t.model(), 1), "......");
    t.feed(b"xyz\x1b[2K");
    assert_eq!(row_text(t.model(), 1), "      ");
    assert_eq!(t.feed(b"\x1b[3K"), Damage::none());
}

#[test]
fn erases_parts_of_the_screen() {
    let fill = b"\x1b[Haaaa\nbbbb\ncccc";
    let mut t = terminal(5, 4);
    t.feed(fill);
    let damage = t.feed(b"\x1b[2;2H\x1b[J");
    assert_eq!(row_text(t.model(), 1), "aaaa.");
    assert_eq!(row_text(t.model(), 2), "bb...");
    assert_eq!(row_text(t.model(), 3), ".....");
    assert_eq!(damage.dirty_range(), Some((2, 3)));
    assert!(!damage.full);

    t.feed(fill);
    let damage = t.feed(b"\x1b[2;2H\x1b[1J");
    assert_eq!(row_text(t.model(), 1), ".....");
    assert_eq!(row_text(t.model(), 2), "..bb.");
    assert_eq!(row_text(t.model(), 3), "cccc.");
    assert_eq!(damage.dirty_range(), Some((1, 2)));

    let damage = t.feed(b"\x1b[2J");
    assert!(damage.full);
    assert_eq!(row_text(t.model(), 3), ".....");
    assert_eq!(cursor(t.model()), (0, 1));
}

#[test]
fn whole_tokens_are_told_apart() {
    for byte in 0u8..0x20 {
        if byte == 0x09 || byte == 0x0a || byte == 0x1b {
            continue;
        }
        let mut t = terminal(8, 3);
        t.feed(&[b'a', byte, b'b']);
        assert_eq!(row_text(t.model(), 1), "ab......");
    }
    for c in [' ', '~', '\u{e9}', '\u{20ac}', '\u{4e2d}', '\u{fffd}'] {
        let mut t = terminal(8, 3);
        t.feed(format!("{}\x1b[1D|", c).as_bytes());
        let columns = char_columns(c);
        assert!(columns > 0);
        assert_eq!(t.model().grid[1].cells[columns as usize - 1].value, '|');
        if columns == 2 {
            assert_eq!(t.model().grid[1].cells[0].value, c);
        }
    }
    let mut t = terminal(8, 3);
    t.feed(format!("\x1b[{}31mr\x1b[mw", "0;".repeat(31)).as_bytes());
    assert_eq!(t.model().grid[1].cells[0].fg_color, Color::plain(BaseColor::Red));
    assert_eq!(t.model().grid[1].cells[1].fg_color, Color::plain(BaseColor::White));
}

#[test]
fn sequences_may_be_split_over_feeds() {
    let whole: &[u8] = "a\x1b[1;32m\u{4e2d}\x1b[2;2Hz".as_bytes();
    let mut one = terminal(8, 4);
    one.feed(whole);
    for cut in 0..whole.len() {
        let mut two = terminal(8, 4);
        two.feed(&whole[..cut]);
        two.feed(&whole[cut..]);
        assert_eq!(row_text(one.model(), 1), row_text(two.model(), 1));
        assert_eq!(one.model().color, two.model().color);
        assert_eq!(one.model().cursor, two.model().cursor);
    }
}

fn colors(codes: &[u16]) -> ColorState {
    let mut state = ColorState::new();
    state.handle_ansi_color(&codes.to_vec());
    state
}

#[test]
fn sets_named_colors() {
    let named = [
        BaseColor::Black,
        BaseColor::Red,
        BaseColor::Green,
        BaseColor::Yellow,
        BaseColor::Blue,
        BaseColor::Magenta,
        BaseColor::Cyan,
        BaseColor::White,
    ];
    for (i, base) in named.iter().enumerate() {
        let i = i as u16;
        assert_eq!(colors(&[30 + i]).fg_color, Color::plain(*base));
        assert_eq!(colors(&[40 + i]).bg_color, Color::plain(*base));
        let bright = Color { base: *base, bright: true, dim: false };
        assert_eq!(colors(&[90 + i]).fg_color, bright);
        assert_eq!(colors(&[100 + i]).bg_color, bright);
    }
    assert_eq!(colors(&[31, 39]).fg_color, Color::plain(BaseColor::White));
    assert_eq!(colors(&[41, 49]).bg_color, Color::plain(BaseColor::White));
    assert_eq!(colors(&[31, 98]).fg_color, Color::plain(BaseColor::Red));
}

#[test]
fn sets_palette_and_rgb_colors() {
    assert_eq!(colors(&[38, 5, 200]).fg_color, Color::plain(BaseColor::Indexed(200)));
    assert_eq!(
        colors(&[48, 2, 1, 258, 3]).bg_color,
        Color::plain(BaseColor::Rgb { red: 1, green: 2, blue: 3 })
    );
    assert_eq!(colors(&[31, 38, 5, 256]).fg_color, Color::plain(BaseColor::Red));
    assert_eq!(colors(&[31, 38, 2, 1, 2]).fg_color, Color::plain(BaseColor::Red));
    assert_eq!(colors(&[38, 5, 7, 1]).fg_color, Color {
        base: BaseColor::Indexed(7),
        bright: true,
        dim: false,
    });
    assert_eq!(colors(&[31, 38, 9, 34]).fg_color, Color::plain(BaseColor::Blue));
}

#[test]
fn switches_renditions() {
    assert_eq!(colors(&[1]).fg_color, Color { base: BaseColor::White, bright: true, dim: false });
    assert_eq!(colors(&[2]).fg_color, Color { base: BaseColor::White, bright: false, dim: true });
    assert_eq!(colors(&[1, 2, 22]), ColorState::new());
    let inverse = colors(&[31, 44, 7]);
    assert_eq!(inverse.fg_color, Color::plain(BaseColor::Blue));
    assert_eq!(inverse.bg_color, Color::plain(BaseColor::Red));
    assert_eq!(colors(&[31, 7, 27]).fg_color, Color::plain(BaseColor::Red));
    assert_eq!(colors(&[31, 44, 1, 2, 7, 95, 102, 0]), ColorState::new());
}
