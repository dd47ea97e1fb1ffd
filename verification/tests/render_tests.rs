use irust_core::cursor::Bound;
use irust_core::printer::{Color, Printer, PrinterItem, PrinterItemType};
use irust_core::session::{IRust, Options, TermOp};

fn session(width: usize, height: usize) -> IRust {
    IRust::new(Bound { width, height }, Options::default())
}

fn scroll_ups(ops: &[TermOp]) -> Vec<usize> {
    let mut out = Vec::new();
    for op in ops {
        if let TermOp::ScrollUp(n) = op {
            out.push(*n);
        }
    }
    out
}

fn writes(ops: &[TermOp]) -> Vec<String> {
    let mut out = Vec::new();
    for op in ops {
        if let TermOp::Write(s) = op {
            out.push(s.clone());
        }
    }
    out
}

#[test]
fn output_overflow_triggers_one_scroll_of_exact_amount() {
    // Viewport of height 10, cursor on physical row 9, and a batch of 3
    // explicit newline items: one scroll of 9 + 3 - (10 - 1) = 3 rows must
    // happen before drawing, and the tracked row ends pinned at 9.
    let mut s = session(80, 10);
    s.cursor.pos.row = 9;
    s.cursor.starting_row = 9;
    let mut batch = Printer::default();
    batch.add_new_line(3);
    s.print_output(batch);
    let ops = s.take_ops();
    assert_eq!(scroll_ups(&ops), vec![3]);
    assert!(matches!(ops[0], TermOp::ScrollUp(3)));
    assert_eq!(s.cursor.pos.row, 9);
}

#[test]
fn output_within_bounds_never_scrolls() {
    let mut s = session(80, 10);
    s.cursor.pos.row = 2;
    let mut batch = Printer::default();
    batch.add_new_line(3);
    s.print_output(batch);
    let ops = s.take_ops();
    assert_eq!(scroll_ups(&ops), Vec::<usize>::new());
    assert_eq!(s.cursor.pos.row, 5);
}

#[test]
fn empty_buffer_echo_writes_only_the_prompt() {
    let mut s = session(80, 24);
    let batch = Printer::from_string(s.buffer.to_text());
    assert!(batch.is_empty());
    s.print_input(batch, false);
    let ops = s.take_ops();
    assert_eq!(writes(&ops), vec!["In: ".to_string()]);
    assert_eq!(scroll_ups(&ops), Vec::<usize>::new());
}

#[test]
fn single_line_output_writes_in_place() {
    let mut s = session(80, 24);
    let batch = Printer::new(PrinterItem::new("hi".to_string(), PrinterItemType::Eval));
    s.print_output(batch);
    let ops = s.take_ops();
    assert_eq!(writes(&ops), vec!["hi".to_string()]);
    assert!(matches!(ops[0], TermOp::SetColor(Color::White)));
    assert_eq!(s.cursor.pos.row, 0);
}

#[test]
fn multiline_output_advances_one_row_per_line() {
    let mut s = session(80, 10);
    let batch = Printer::new(PrinterItem::new("a\nb".to_string(), PrinterItemType::Out));
    s.print_output(batch);
    let ops = s.take_ops();
    assert_eq!(
        writes(&ops),
        vec![
            "a".to_string(),
            "\r\n".to_string(),
            "b".to_string(),
            "\r\n".to_string()
        ]
    );
    // One row for the fresh line, one per written segment.
    assert_eq!(s.cursor.pos.row, 3);
}

#[test]
fn newline_item_records_new_reference_row() {
    let mut s = session(80, 10);
    s.cursor.pos.row = 4;
    let mut batch = Printer::default();
    batch.add_new_line(1);
    s.print_output(batch);
    let _ = s.take_ops();
    assert_eq!(s.cursor.pos.row, 5);
    assert_eq!(s.cursor.starting_row, 5);
}

#[test]
fn class_colors_follow_the_option_table() {
    let opts = Options::default();
    let cases: Vec<(PrinterItemType, Color)> = vec![
        (PrinterItemType::Eval, opts.eval_color),
        (PrinterItemType::Success, opts.ok_color),
        (PrinterItemType::Warn, opts.warn_color),
        (PrinterItemType::Out, opts.out_color),
        (PrinterItemType::Shell, opts.shell_color),
        (PrinterItemType::Error, opts.err_color),
        (PrinterItemType::Custom(Some(Color::Magenta)), Color::Magenta),
        (PrinterItemType::Custom(None), Color::White),
    ];
    for (class, expected) in cases {
        let mut s = session(80, 24);
        let batch = Printer::new(PrinterItem::new("t".to_string(), class));
        s.print_output(batch);
        let ops = s.take_ops();
        match &ops[0] {
            TermOp::SetColor(c) => assert_eq!(*c, expected),
            other => panic!("expected a color operation, got {:?}", other),
        }
    }
}

#[test]
fn input_echo_wraps_with_continuation_marker() {
    // Width 6 leaves two usable columns past the prompt: echoing three
    // characters must wrap once and write the continuation marker.
    let mut s = session(6, 24);
    s.buffer.insert_str("abc");
    let batch = Printer::from_string(s.buffer.to_text());
    s.print_input(batch, false);
    let ops = s.take_ops();
    let w = writes(&ops);
    assert!(w.contains(&"..: ".to_string()));
    assert_eq!(w[0], "In: ".to_string());
}

#[test]
fn input_taller_than_viewport_scrolls_first() {
    let mut s = session(80, 4);
    s.cursor.starting_row = 3;
    s.buffer.insert_str("a\nb\nc");
    let batch = Printer::from_string(s.buffer.to_text());
    s.print_input(batch, false);
    let ops = s.take_ops();
    // The buffer ends on coordinate row 2; projected from reference row 3
    // that is row 5, two past the last visible row 3.
    assert_eq!(scroll_ups(&ops), vec![2]);
    assert_eq!(s.cursor.starting_row, 1);
}

#[test]
fn colored_echo_locks_highlight_refresh() {
    let mut s = session(80, 24);
    s.print_input(Printer::default(), true);
    assert!(s.racer_lock);
    s.print_input(Printer::default(), false);
    assert!(!s.racer_lock);
}
