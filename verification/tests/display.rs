use d3os::terminal::ansi::SemanticTerminal;
use d3os::terminal::color::{BaseColor, Color};
use d3os::terminal::display::{Character, DisplayState, DrawStep, CURSOR};
use d3os::terminal::model::{Damage, ScreenSize};
use d3os::terminal::status::{
    format_uptime, place_date, status_date, status_info, status_tabs, SystemStatus,
};

const WHITE: Color = Color { base: BaseColor::White, bright: false, dim: false };
const BLACK: Color = Color { base: BaseColor::Black, bright: false, dim: false };

fn glyph(col: u16, row: u16, glyph: char) -> DrawStep {
    DrawStep::Glyph { col, row, fg: WHITE, bg: BLACK, glyph }
}

fn direct(col: u16, row: u16, glyph: char) -> DrawStep {
    DrawStep::Direct { col, row, fg: WHITE, bg: BLACK, glyph }
}

fn screen() -> (SemanticTerminal, DisplayState) {
    let display = DisplayState::new(31, 63);
    (SemanticTerminal::new(display.screen_size()), display)
}

#[test]
fn as_many_whole_characters_as_fit() {
    let display = DisplayState::new(31, 63);
    assert_eq!(display.screen_size(), ScreenSize { cols: 3, rows: 3 });
    assert_eq!(display.cursor_pos, (0, 1));
    assert_eq!(display.active_tab, 255);
    assert_eq!(display.visible[2][2], Character::blank());
    let wide = DisplayState::new(8 * 65537, 16);
    assert_eq!(wide.screen_size(), ScreenSize { cols: 1, rows: 1 });
}

#[test]
fn a_full_repaint_draws_every_content_row() {
    let (mut t, mut display) = screen();
    t.feed("a\u{4e2d}".as_bytes());
    let steps = display.present_full(t.model());
    assert_eq!(
        steps,
        vec![
            glyph(0, 1, 'a'),
            glyph(1, 1, '\u{4e2d}'),
            glyph(0, 2, ' '),
            glyph(1, 2, ' '),
            glyph(2, 2, ' '),
            DrawStep::StatusBar,
            DrawStep::FlushAll,
        ]
    );
    assert_eq!(display.visible[1][2].width, 0);
    assert_eq!(display.cursor_pos, (0, 2));
}

#[test]
fn damage_repaints_its_rows_only() {
    let (mut t, mut display) = screen();
    display.present_full(t.model());
    let damage = t.feed(b"\x1b[1;2Hx");
    let steps = display.present_damage(t.model(), damage);
    assert_eq!(
        steps,
        vec![
            direct(0, 1, ' '),
            glyph(0, 2, ' '),
            glyph(1, 2, 'x'),
            glyph(2, 2, ' '),
            DrawStep::FlushRows { from: 2, count: 1 },
        ]
    );
    assert_eq!(display.visible[2][1].value, 'x');
    assert_eq!(display.cursor_pos, (2, 2));
    assert!(!display.cursor_visible);
}

#[test]
fn no_damage_only_takes_the_cursor_away() {
    let (t, mut display) = screen();
    let steps = display.present_damage(t.model(), Damage::none());
    assert_eq!(steps, vec![direct(0, 1, ' ')]);
}

#[test]
fn scrolled_damage_moves_the_picture() {
    let (mut t, mut display) = screen();
    t.feed(b"a\nb");
    display.present_full(t.model());
    t.feed(b"\nc");
    let damage = Damage {
        full: false,
        dirty_min: Some(2),
        dirty_max: Some(2),
        cursor_changed: true,
        scrolled: 1,
    };
    let steps = display.present_damage(t.model(), damage);
    assert_eq!(
        steps,
        vec![
            direct(1, 2, ' '),
            DrawStep::Scroll(1),
            glyph(0, 2, 'c'),
            glyph(1, 2, ' '),
            glyph(2, 2, ' '),
            DrawStep::StatusBar,
            DrawStep::FlushAll,
        ]
    );
    assert_eq!(display.visible[1][0].value, 'b');
    assert_eq!(display.visible[2][0].value, 'c');
}

#[test]
fn full_damage_repaints_everything() {
    let (mut t, mut display) = screen();
    let damage = t.feed(b"a\nb\nc");
    assert!(damage.full);
    let steps = display.present_damage(t.model(), damage);
    assert_eq!(steps.len(), 8);
    assert_eq!(display.visible[1][0].value, 'b');
}

#[test]
fn the_cursor_blinks() {
    let (mut t, mut display) = screen();
    t.feed(b"a\x1b[0G");
    display.present_full(t.model());
    assert_eq!(display.toggle_cursor(), Some(direct(0, 1, CURSOR)));
    assert!(display.cursor_visible);
    assert_eq!(display.toggle_cursor(), Some(direct(0, 1, 'a')));
    assert!(!display.cursor_visible);
}

#[test]
fn the_cursor_leaves_continuation_cells_alone() {
    let (mut t, mut display) = screen();
    t.feed("\u{4e2d}\x1b[1G".as_bytes());
    display.present_full(t.model());
    assert_eq!(display.cursor_pos, (1, 1));
    assert_eq!(display.toggle_cursor(), None);
}

#[test]
fn tabs_are_numbered_by_their_place() {
    let (labels, used) = status_tabs(&vec![4, 7, 9], 7, 80);
    let texts: Vec<&str> = labels.iter().map(|label| label.text.as_str()).collect();
    assert_eq!(texts, vec![" 1 ", " 2 ", " 3 "]);
    assert_eq!(labels.iter().map(|label| label.col).collect::<Vec<u32>>(), vec![0, 3, 6]);
    assert_eq!(
        labels.iter().map(|label| label.highlighted).collect::<Vec<bool>>(),
        vec![false, true, false]
    );
    assert_eq!(used, 9);
    let (labels, used) = status_tabs(&vec![7; 1000], 7, 4000);
    assert_eq!((labels.len(), used), (821, 3 * 9 + 4 * 90 + 5 * 722));
    let (labels, used) = status_tabs(&vec![4, 7, 9], 7, 8);
    assert_eq!((labels.len(), used), (2, 6));
    let mut display = DisplayState::new(64, 64);
    display.update_tabs(&vec![1, 3], 3);
    assert_eq!((display.tab_ids.clone(), display.active_tab), (vec![1, 3], 3));
}

#[test]
fn the_date_stands_on_the_right() {
    let label = status_date(86399, 40, 6).unwrap();
    assert_eq!(label.text, "1970-01-01 23:59:59");
    assert_eq!(label.col, 21);
    assert!(status_date(0, 40, 21).is_none());
    assert!(status_date(0, 40, 20).is_some());
    assert!(status_date(0, 19, 0).is_none());
    assert!(status_date(i64::MAX, 80, 0).is_none());
    assert_eq!(place_date("abc".to_owned(), 10, 0).unwrap().col, 7);
    assert!(place_date("abc".to_owned(), 3, 0).is_none());
}

#[test]
fn uptime_has_two_digits_each() {
    assert_eq!(format_uptime(0), "00:00:00");
    assert_eq!(format_uptime(3661), "01:01:01");
    assert_eq!(format_uptime(360000 + 59 * 60 + 59), "100:59:59");
}

#[test]
fn the_most_detailed_information_that_fits() {
    let status = SystemStatus {
        version: "1.2".to_owned(),
        profile: "release".to_owned(),
        uptime_seconds: 61,
        processes: 3,
        threads: 12,
    };
    let full = "D\u{b3}OS v1.2 (release) | Uptime: 00:01:01 | Processes: 3 | Threads: 12";
    let width = full.chars().count() as u32;
    let label = status_info(&status, 6, 8 + width).unwrap();
    assert_eq!((label.col, label.text.as_str()), (7, full));
    let label = status_info(&status, 6, 7 + width).unwrap();
    assert_eq!(label.text, "Up 00:01:01 | P:3 T:12");
    let label = status_info(&status, 6, 8 + 11).unwrap();
    assert_eq!(label.text, "Up 00:01:01");
    assert!(status_info(&status, 6, 8 + 10).is_none());
    assert!(status_info(&status, 6, 0).is_none());
}
