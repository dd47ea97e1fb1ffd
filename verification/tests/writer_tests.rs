use irust_core::cursor::Bound;
use irust_core::session::{IRust, Options, TermOp};

fn session(width: usize, height: usize) -> IRust {
    IRust::new(Bound { width, height }, Options::default())
}

fn writes(ops: &[TermOp]) -> Vec<String> {
    let mut out = Vec::new();
    for op in ops {
        if let TermOp::Write(s) = op {
            out.push(s.clone());
        }
    }
    out
}

#[test]
fn plain_write_advances_column_per_character() {
    let mut s = session(80, 24);
    s.write("hi");
    let ops = s.take_ops();
    assert_eq!(writes(&ops), vec!["h".to_string(), "i".to_string()]);
    assert_eq!(s.cursor.pos.col, 2);
    assert_eq!(s.cursor.pos.row, 0);
}

#[test]
fn plain_write_column_saturates_at_width() {
    let mut s = session(6, 24);
    s.write("abcdefgh");
    let _ = s.take_ops();
    assert_eq!(s.cursor.pos.col, 6);
}

#[test]
fn empty_write_does_nothing() {
    let mut s = session(80, 24);
    s.write("");
    assert!(s.take_ops().is_empty());
}

#[test]
fn multiline_write_goes_line_by_line() {
    let mut s = session(80, 24);
    s.write("a\nb");
    let ops = s.take_ops();
    assert_eq!(
        writes(&ops),
        vec![
            "\n".to_string(),
            "a".to_string(),
            "\n".to_string(),
            "b".to_string(),
            "\n".to_string()
        ]
    );
    assert_eq!(s.cursor.pos.col, 0);
    assert_eq!(s.cursor.pos.row, 3);
}

#[test]
fn write_newline_moves_to_next_row_start() {
    let mut s = session(80, 24);
    s.cursor.pos.col = 5;
    s.write_newline();
    let ops = s.take_ops();
    assert_eq!(writes(&ops), vec!["\n".to_string()]);
    assert!(matches!(ops[1], TermOp::MoveTo(0, 1)));
    assert_eq!(s.cursor.pos.col, 0);
    assert_eq!(s.cursor.pos.row, 1);
}

#[test]
fn write_newline_pins_at_viewport_bottom() {
    let mut s = session(80, 3);
    s.cursor.pos.row = 2;
    s.write_newline();
    let _ = s.take_ops();
    assert_eq!(s.cursor.pos.row, 2);
}

#[test]
fn writeln_is_newline_then_text() {
    let mut s = session(80, 24);
    s._writeln("ok");
    let ops = s.take_ops();
    assert_eq!(
        writes(&ops),
        vec!["\n".to_string(), "o".to_string(), "k".to_string()]
    );
    assert_eq!(s.cursor.pos.row, 1);
    assert_eq!(s.cursor.pos.col, 2);
}

#[test]
fn write_str_at_moves_then_writes() {
    let mut s = session(80, 24);
    s.write_str_at("x", Some(10), Some(5));
    let ops = s.take_ops();
    assert!(matches!(ops[0], TermOp::MoveTo(10, 5)));
    assert_eq!(writes(&ops), vec!["x".to_string()]);
    assert_eq!(s.cursor.pos.col, 11);
    assert_eq!(s.cursor.pos.row, 5);
}

#[test]
fn write_str_at_keeps_omitted_coordinates() {
    let mut s = session(80, 24);
    s.cursor.pos.row = 7;
    s.write_str_at("x", Some(3), None);
    let ops = s.take_ops();
    assert!(matches!(ops[0], TermOp::MoveTo(3, 7)));
}

#[test]
fn write_str_at_saturates_at_viewport_edges() {
    let mut s = session(20, 10);
    s.write_str_at("x", Some(100), Some(100));
    let ops = s.take_ops();
    assert!(matches!(ops[0], TermOp::MoveTo(20, 9)));
}

#[test]
fn clear_suggestion_leaves_position_unchanged() {
    let mut s = session(80, 24);
    s.buffer.insert_str("abc");
    s.cursor.pos.col = 7;
    s.cursor.pos.row = 2;
    s.clear_suggestion();
    let ops = s.take_ops();
    assert!(matches!(ops[0], TermOp::SavePosition));
    // The clear happens just past the three echoed characters and the
    // four-column prompt.
    assert!(matches!(ops[1], TermOp::MoveTo(7, 2)));
    assert!(matches!(ops[2], TermOp::ClearUntilNewLine));
    assert!(matches!(ops[3], TermOp::RestorePosition));
    assert_eq!(s.cursor.pos.col, 7);
    assert_eq!(s.cursor.pos.row, 2);
}

#[test]
fn take_ops_drains_the_queue() {
    let mut s = session(80, 24);
    s.write("a");
    let first = s.take_ops();
    assert_eq!(first.len(), 1);
    assert!(s.take_ops().is_empty());
}
