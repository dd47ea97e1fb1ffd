use irust_core::buffer::Buffer;

#[test]
fn coord_of_zero_is_origin() {
    let empty = Buffer::new(7);
    assert_eq!(empty.buffer_pos_to_relative_cursor_pos(0), (0, 0));
    let b = Buffer::from_str("hello\nworld", 5);
    assert_eq!(b.buffer_pos_to_relative_cursor_pos(0), (0, 0));
    let c = Buffer::from_str("x", 1);
    assert_eq!(c.buffer_pos_to_relative_cursor_pos(0), (0, 0));
}

#[test]
fn coord_col_always_below_width() {
    let b = Buffer::from_str("abc\ndefgh\n\nij", 3);
    for p in 0..=b.len() {
        let (col, _row) = b.buffer_pos_to_relative_cursor_pos(p);
        assert!(col < 3);
    }
}

#[test]
fn coord_is_idempotent() {
    let b = Buffer::from_str("ab\ncde\nf", 4);
    for p in 0..=b.len() {
        let first = b.buffer_pos_to_relative_cursor_pos(p);
        let second = b.buffer_pos_to_relative_cursor_pos(p);
        assert_eq!(first, second);
    }
}

#[test]
fn insert_then_remove_restores_buffer() {
    let mut b = Buffer::from_str("abc", 10);
    b.set_buffer_pos(1);
    b.insert('x');
    assert_eq!(b.to_text(), "axbc");
    assert_eq!(b.buffer_pos, 2);
    b.move_backward();
    let removed = b.remove_current_char();
    assert_eq!(removed, Some('x'));
    assert_eq!(b.to_text(), "abc");
    assert_eq!(b.buffer_pos, 1);
}

#[test]
fn wrap_boundary_at_exact_width() {
    let b = Buffer::from_str("abcdefghij", 5);
    assert_eq!(b.buffer_pos_to_relative_cursor_pos(5), (0, 1));
    assert_eq!(b.buffer_pos_to_relative_cursor_pos(10), (0, 2));
}

#[test]
fn newline_and_wrap_interaction() {
    let b = Buffer::from_str("ab\ncde", 3);
    // 'c' sits at index 3, just after the newline.
    assert_eq!(b.buffer_pos_to_relative_cursor_pos(3), (0, 1));
    // 'e' sits at index 5.
    assert_eq!(b.buffer_pos_to_relative_cursor_pos(5), (2, 1));
}

#[test]
fn last_position_coord_matches_full_walk() {
    let b = Buffer::from_str("ab\ncde", 3);
    assert_eq!(
        b.last_buffer_pos_to_relative_cursor_pos(),
        b.buffer_pos_to_relative_cursor_pos(b.len())
    );
}

#[test]
fn insert_str_inserts_in_order_at_cursor() {
    let mut b = Buffer::from_str("ad", 10);
    b.set_buffer_pos(1);
    b.insert_str("bc");
    assert_eq!(b.to_text(), "abcd");
    assert_eq!(b.buffer_pos, 3);
}

#[test]
fn movement_saturates_at_start() {
    let mut b = Buffer::from_str("ab", 10);
    assert!(b.is_at_start());
    b.move_backward();
    assert_eq!(b.buffer_pos, 0);
    b.move_forward();
    assert_eq!(b.buffer_pos, 1);
    b.goto_end();
    assert!(b.is_at_end());
    b.goto_start();
    assert!(b.is_at_start());
}

#[test]
fn peeks_respect_boundaries() {
    let mut b = Buffer::from_str("ab", 10);
    assert_eq!(b.previous_char(), None);
    assert_eq!(b.current_char(), Some(&'a'));
    assert_eq!(b.next_char(), Some(&'b'));
    b.goto_end();
    assert_eq!(b.previous_char(), Some(&'b'));
    assert_eq!(b.current_char(), None);
    assert_eq!(b.next_char(), None);
}

#[test]
fn line_start_after_newline_or_tab() {
    let mut b = Buffer::new(10);
    assert!(b.is_at_string_line_start());
    b.insert('a');
    assert!(!b.is_at_string_line_start());
    b.insert('\n');
    assert!(b.is_at_string_line_start());
    b.insert('\t');
    assert!(b.is_at_string_line_start());
}

#[test]
fn remove_on_empty_is_none() {
    let mut b = Buffer::new(10);
    assert_eq!(b.remove_current_char(), None);
    let mut c = Buffer::from_str("a", 10);
    c.goto_end();
    assert_eq!(c.remove_current_char(), None);
}

#[test]
fn clear_resets_content_and_cursor() {
    let mut b = Buffer::from_str("abc", 10);
    b.goto_end();
    b.clear();
    assert!(b.is_empty());
    assert_eq!(b.buffer_pos, 0);
    assert_eq!(b.len(), 0);
}

#[test]
fn push_str_appends_and_moves_to_end() {
    let mut b = Buffer::from_str("ab", 10);
    b._push_str("cd");
    assert_eq!(b.to_text(), "abcd");
    assert!(b.is_at_end());
}

#[test]
fn indexed_access_and_last() {
    let b = Buffer::from_str("abc", 10);
    assert_eq!(b._get(0), Some(&'a'));
    assert_eq!(b._get(2), Some(&'c'));
    assert_eq!(b._get(3), None);
    assert_eq!(b._last(), Some(&'c'));
    let e = Buffer::new(10);
    assert_eq!(e._last(), None);
}

#[test]
fn wrap_width_equal_to_content_length_wraps_at_boundary() {
    // The wrap triggers strictly after reaching the limit, not before.
    let b = Buffer::from_str("abc", 3);
    assert_eq!(b.buffer_pos_to_relative_cursor_pos(2), (2, 0));
    assert_eq!(b.buffer_pos_to_relative_cursor_pos(3), (0, 1));
}

#[test]
fn from_str_starts_at_position_zero() {
    let b = Buffer::from_str("hello", 10);
    assert_eq!(b.buffer_pos, 0);
    assert_eq!(b.len(), 5);
    assert_eq!(b.to_text(), "hello");
}
