use d3os::shell::line_context::LineContext;

fn line(text: &str) -> LineContext {
    let mut line = LineContext::new();
    line.push_str(text);
    line
}

#[test]
fn a_new_line_is_empty() {
    let line = LineContext::new();
    assert_eq!(LineContext::default().get(), "");
    assert_eq!(line.clone().get(), line.get());
    assert_eq!(line.get(), "");
    assert_eq!((line.len(), line.char_len()), (0, 0));
    assert!(!line.is_dirty());
    assert!(line.is_cursor_at_start() && line.is_cursor_at_end());
}

#[test]
fn lengths_count_bytes_and_characters() {
    let mut line = line("a\u{e4}");
    line.push('\u{4e2d}');
    assert_eq!(line.get(), "a\u{e4}\u{4e2d}");
    assert_eq!((line.len(), line.char_len()), (6, 3));
}

#[test]
fn the_dirty_part_follows_the_clean_part() {
    let mut line = line("a\u{e4}b");
    assert!(line.is_dirty());
    assert_eq!(line.get_dirty_part(), "a\u{e4}b");
    line.mark_clean();
    assert!(!line.is_dirty());
    assert_eq!((line.get_dirty_index(), line.get_dirty_char_index()), (4, 3));
    line.push('c');
    assert_eq!(line.get_dirty_part(), "c");
    line.mark_dirty_at(3);
    assert_eq!(line.get_dirty_part(), "bc");
    assert_eq!(line.get_dirty_char_index(), 2);
    line.mark_dirty_at(5);
    assert_eq!(line.get_dirty_index(), 3);
}

#[test]
fn edits_go_by_characters() {
    let mut line = line("a\u{e4}c");
    line.mark_clean();
    line.insert(2, 'b');
    assert_eq!(line.get(), "a\u{e4}bc");
    assert_eq!(line.get_dirty_index(), 3);
    line.remove(1);
    assert_eq!(line.get(), "abc");
    assert_eq!(line.get_dirty_index(), 1);
    assert_eq!(line.get_dirty_part(), "bc");
    line.insert(9, '!');
    assert_eq!(line.get(), "abc!");
}

#[test]
fn inserting_and_removing_gives_the_line_back() {
    let mut line = line("x\u{4e2d}y");
    for i in 0..4 {
        line.insert(i, '\u{e4}');
        line.remove(i);
        assert_eq!(line.get(), "x\u{4e2d}y");
    }
}

#[test]
fn pop_takes_the_last_character() {
    let mut line = line("ab");
    line.mark_clean();
    assert_eq!(line.pop(), Some('b'));
    assert_eq!(line.get_dirty_index(), 1);
    assert!(!line.is_dirty());
    assert_eq!(line.pop(), Some('a'));
    assert_eq!(line.pop(), None);
    assert_eq!(line.get_dirty_index(), 0);
}

#[test]
fn the_cursor_moves() {
    let mut line = line("abc");
    assert!(line.is_cursor_at_start() && !line.is_cursor_at_end());
    line.move_cursor_right(3);
    assert!(line.is_cursor_at_end());
    line.move_cursor_left(1);
    assert_eq!(line.get_cursor_pos(), 2);
    line.set_cursor_pos(7);
    assert!(line.is_cursor_at_end());
    line.reset();
    assert_eq!((line.get_cursor_pos(), line.len()), (0, 0));
}
