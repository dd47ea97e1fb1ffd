use irust_core::printer::{Printer, PrinterItem, PrinterItemType};

fn texts_joined(mut p: Printer) -> String {
    let mut parts: Vec<String> = Vec::new();
    while let Some(item) = p.next_item() {
        match item.string_type {
            PrinterItemType::NewLine => {}
            _ => parts.push(item.string),
        }
    }
    parts.join("\n")
}

fn classes(p: &Printer) -> Vec<&'static str> {
    let mut out = Vec::new();
    for item in &p.items {
        out.push(match item.string_type {
            PrinterItemType::NewLine => "nl",
            PrinterItemType::Custom(_) => "text",
            _ => "other",
        });
    }
    out
}

#[test]
fn from_string_splits_lines_with_newline_items() {
    let p = Printer::from_string("ab\ncd".to_string());
    assert_eq!(classes(&p), vec!["text", "nl", "text"]);
    assert_eq!(p.items[0].string, "ab");
    assert_eq!(p.items[2].string, "cd");
}

#[test]
fn from_string_keeps_final_newline_item_for_trailing_newline() {
    let p = Printer::from_string("ab\ncd\n".to_string());
    assert_eq!(classes(&p), vec!["text", "nl", "text", "nl"]);
}

#[test]
fn from_string_of_empty_is_empty_batch() {
    let p = Printer::from_string(String::new());
    assert!(p.is_empty());
    assert_eq!(p.len(), 0);
}

#[test]
fn from_string_of_lone_newline() {
    let p = Printer::from_string("\n".to_string());
    assert_eq!(classes(&p), vec!["text", "nl"]);
    assert_eq!(p.items[0].string, "");
}

#[test]
fn round_trip_without_trailing_newline_is_exact() {
    let original = "alpha\nbeta\n\ngamma";
    let p = Printer::from_string(original.to_string());
    assert_eq!(texts_joined(p), original);
}

#[test]
fn round_trip_with_trailing_newline_drops_it() {
    let original = "alpha\nbeta\n";
    let p = Printer::from_string(original.to_string());
    assert_eq!(texts_joined(p), "alpha\nbeta");
}

#[test]
fn new_holds_exactly_one_item() {
    let p = Printer::new(PrinterItem::new("hi".to_string(), PrinterItemType::Success));
    assert_eq!(p.len(), 1);
    assert_eq!(p.items[0].string, "hi");
    assert!(matches!(p.items[0].string_type, PrinterItemType::Success));
}

#[test]
fn add_new_line_appends_layout_items() {
    let mut p = Printer::default();
    p.add_new_line(3);
    assert_eq!(p.len(), 3);
    for item in &p.items {
        assert!(matches!(item.string_type, PrinterItemType::NewLine));
        assert_eq!(item.string, "");
    }
}

#[test]
fn push_pop_are_back_ended() {
    let mut p = Printer::default();
    p.push(PrinterItem::new("a".to_string(), PrinterItemType::Eval));
    p.push(PrinterItem::new("b".to_string(), PrinterItemType::Error));
    let last = p.pop().unwrap();
    assert_eq!(last.string, "b");
    assert!(matches!(last.string_type, PrinterItemType::Error));
    assert_eq!(p.len(), 1);
    p.pop();
    assert!(p.pop().is_none());
}

#[test]
fn append_preserves_order_and_drains_other() {
    let mut a = Printer::new(PrinterItem::new("x".to_string(), PrinterItemType::Out));
    let mut b = Printer::new(PrinterItem::new("y".to_string(), PrinterItemType::Shell));
    a.append(&mut b);
    assert_eq!(a.len(), 2);
    assert!(b.is_empty());
    assert_eq!(a.items[0].string, "x");
    assert_eq!(a.items[1].string, "y");
}

#[test]
fn next_item_drains_front_to_back() {
    let mut p = Printer::from_string("a\nb".to_string());
    assert_eq!(p.next_item().unwrap().string, "a");
    assert!(matches!(
        p.next_item().unwrap().string_type,
        PrinterItemType::NewLine
    ));
    assert_eq!(p.next_item().unwrap().string, "b");
    assert!(p.next_item().is_none());
}

#[test]
fn default_item_is_pure_newline() {
    let item = PrinterItem::default();
    assert_eq!(item.string, "");
    assert!(matches!(item.string_type, PrinterItemType::NewLine));
}
