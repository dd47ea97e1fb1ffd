//! The rendering engine: echoing the live input buffer and draining
//! classified output batches against the bounded viewport, scrolling first
//! whenever projected content would overflow it. Every function updates the
//! tracked cursor and queues terminal operations; the models state both.
use vstd::prelude::*;

use crate::buffer::coord_of;
use crate::cursor::{next_row, overflow_amount, sat_sub, Cursor, CursorPosition, INPUT_START_COL};
use crate::printer::{first_nl, Color, ItemView, Printer, PrinterItemType};
use crate::session::{ops_model, spec_resolve_color, IRust, OpModel, Options, TermOp};
use crate::writer::split_lines;

verus! {

/// The model of a conditional scroll: a positive overflow scrolls the
/// terminal up by that amount and shifts the row bookkeeping to match; a
/// zero overflow does nothing.
pub open spec fn scroll_model(c: Cursor, n: int) -> (Cursor, Seq<OpModel>) {
    if n > 0 {
        (c.spec_scroll_up(n), seq![OpModel::ScrollUp(n)])
    } else {
        (c, Seq::<OpModel>::empty())
    }
}

/// The number of explicit layout newline items in a batch.
pub open spec fn nl_count(items: Seq<ItemView>) -> int
    decreases items.len(),
{
    if items.len() == 0 {
        0
    } else {
        (if items[0].class is NewLine {
            1int
        } else {
            0int
        }) + nl_count(items.skip(1))
    }
}

/// The number of newline characters in a text.
pub open spec fn nl_chars(s: Seq<char>) -> int
    decreases s.len(),
{
    if s.len() == 0 {
        0
    } else {
        (if s[0] == '\n' {
            1int
        } else {
            0int
        }) + nl_chars(s.skip(1))
    }
}

/// `nl_count` lies within `[0, len]`.
pub proof fn lemma_nl_count_bounds(items: Seq<ItemView>)
    ensures
        0 <= nl_count(items) <= items.len(),
    decreases items.len(),
{
    if items.len() > 0 {
        lemma_nl_count_bounds(items.skip(1));
    }
}

/// The model of the compensation check after one written fragment: when
/// the fragment's embedded newlines overflow the viewport from the current
/// row, the terminal has scrolled once by itself, so one more scroll is
/// issued and the tracked row is pinned to the last visible row.
pub open spec fn output_scroll_check_model(c: Cursor, text: Seq<char>) -> (Cursor, Seq<OpModel>) {
    let ov = overflow_amount(c.pos.row as int, nl_chars(text), c.bound.height as int);
    if ov > 0 {
        (
            Cursor {
                pos: CursorPosition { col: c.pos.col, row: (c.bound.height - 1) as usize },
                ..c
            },
            seq![OpModel::ScrollUp(1)],
        )
    } else {
        (c, Seq::<OpModel>::empty())
    }
}

/// The model of writing a multi-line fragment: each segment on a row of
/// its own, followed by an explicit line advance, the tracked row pinned at
/// the bottom of the viewport.
pub open spec fn out_lines_model(c: Cursor, segs: Seq<Seq<char>>) -> (Cursor, Seq<OpModel>)
    decreases segs.len(),
{
    if segs.len() == 0 {
        (c, Seq::<OpModel>::empty())
    } else {
        let c1 = Cursor {
            pos: CursorPosition { col: c.pos.col, row: next_row(c.pos.row, c.bound.height) },
            ..c
        };
        let (c2, o2) = out_lines_model(c1, segs.skip(1));
        (c2, seq![OpModel::Write(segs[0]), OpModel::Write(seq!['\r', '\n'])] + o2)
    }
}

/// The model of printing one output item. A layout newline advances to the
/// next row and records it as the new reference row. A text item resolves
/// its color; multi-line text starts a fresh row and is written line by
/// line, other text is written in place; either way the compensation check
/// follows.
pub open spec fn print_item_model(c: Cursor, item: ItemView, opts: Options) -> (
    Cursor,
    Seq<OpModel>,
) {
    if item.class is NewLine {
        let c1 = c.spec_next_row_start();
        let c2 = Cursor { starting_row: c1.pos.row, ..c1 };
        (c2, seq![OpModel::MoveTo(0, c1.pos.row as int)])
    } else {
        let color = spec_resolve_color(item.class, opts);
        if first_nl(item.text) < item.text.len() {
            let c1 = c.spec_next_row_start();
            let (c2, o2) = out_lines_model(c1, split_lines(item.text));
            let (c3, o3) = output_scroll_check_model(c2, item.text);
            (
                c3,
                seq![OpModel::SetColor(color), OpModel::MoveTo(0, c1.pos.row as int)] + o2 + o3,
            )
        } else {
            let (c3, o3) = output_scroll_check_model(c, item.text);
            (c3, seq![OpModel::SetColor(color), OpModel::Write(item.text)] + o3)
        }
    }
}

/// The model of draining a batch front to back.
pub open spec fn print_items_model(c: Cursor, items: Seq<ItemView>, opts: Options) -> (
    Cursor,
    Seq<OpModel>,
)
    decreases items.len(),
{
    if items.len() == 0 {
        (c, Seq::<OpModel>::empty())
    } else {
        let (c1, o1) = print_item_model(c, items[0], opts);
        let (c2, o2) = print_items_model(c1, items.skip(1), opts);
        (c2, o1 + o2)
    }
}

/// The model of `print_output`: scroll first by the overflow the batch's
/// explicit newlines would cause, then drain the batch.
pub open spec fn print_output_model(c: Cursor, items: Seq<ItemView>, opts: Options) -> (
    Cursor,
    Seq<OpModel>,
) {
    let ov = overflow_amount(c.pos.row as int, nl_count(items), c.bound.height as int);
    let (c1, o1) = scroll_model(c, ov);
    let (c2, o2) = print_items_model(c1, items, opts);
    (c2, o1 + o2)
}

/// The model of the pre-input scroll: the row where the echoed buffer
/// would end is the reference row plus the buffer end's coordinate row; any
/// overflow past the last visible row is scrolled away.
pub open spec fn input_scroll_model(c: Cursor, content: Seq<char>, width: nat) -> (
    Cursor,
    Seq<OpModel>,
) {
    let last_row = c.starting_row + coord_of(content, width, content.len()).1;
    scroll_model(c, sat_sub(last_row as int, c.bound.height - 1))
}

/// The model of echoing one input character: its color is set and it is
/// written; when the column would reach the viewport width the echo wraps
/// to the next row, a continuation marker is written at the row start, and
/// the tracked column lands just past the marker.
pub open spec fn echo_char_model(c: Cursor, ch: char, color: Color) -> (Cursor, Seq<OpModel>) {
    let base = seq![OpModel::SetColor(color), OpModel::Write(seq![ch])];
    if c.pos.col + 1 < c.bound.width as int {
        (Cursor { pos: CursorPosition { col: (c.pos.col + 1) as usize, row: c.pos.row }, ..c }, base)
    } else {
        let r2 = next_row(c.pos.row, c.bound.height);
        (
            Cursor { pos: CursorPosition { col: INPUT_START_COL, row: r2 }, ..c },
            base + seq![
                OpModel::MoveTo(0, r2 as int),
                OpModel::SetColor(Color::Yellow),
                OpModel::Write("..: "@),
            ],
        )
    }
}

/// The model of echoing a run of characters, one at a time.
pub open spec fn echo_chars_model(c: Cursor, s: Seq<char>, color: Color) -> (Cursor, Seq<OpModel>)
    decreases s.len(),
{
    if s.len() == 0 {
        (c, Seq::<OpModel>::empty())
    } else {
        let (c1, o1) = echo_char_model(c, s[0], color);
        let (c2, o2) = echo_chars_model(c1, s.skip(1), color);
        (c2, o1 + o2)
    }
}

/// The model of echoing one classified item of live input: a colored item
/// is echoed character by character; a layout newline advances to a fresh
/// row and writes the continuation marker; other classes are not part of a
/// live echo and are skipped.
pub open spec fn echo_item_model(c: Cursor, item: ItemView) -> (Cursor, Seq<OpModel>) {
    match item.class {
        PrinterItemType::Custom(copt) => {
            let color = if copt is Some {
                copt->0
            } else {
                Color::White
            };
            echo_chars_model(c, item.text, color)
        },
        PrinterItemType::NewLine => {
            let r2 = next_row(c.pos.row, c.bound.height);
            (
                Cursor { pos: CursorPosition { col: INPUT_START_COL, row: r2 }, ..c },
                seq![
                    OpModel::MoveTo(0, r2 as int),
                    OpModel::SetColor(Color::Yellow),
                    OpModel::Write("..: "@),
                ],
            )
        },
        _ => (c, Seq::<OpModel>::empty()),
    }
}

/// The model of echoing a whole batch of live input, front to back.
pub open spec fn echo_items_model(c: Cursor, items: Seq<ItemView>) -> (Cursor, Seq<OpModel>)
    decreases items.len(),
{
    if items.len() == 0 {
        (c, Seq::<OpModel>::empty())
    } else {
        let (c1, o1) = echo_item_model(c, items[0]);
        let (c2, o2) = echo_items_model(c1, items.skip(1));
        (c2, o1 + o2)
    }
}

/// The model of `print_input`: hide the cursor, scroll so the full buffer
/// fits, save the position, move to the start of input, clear downward,
/// write the prompt marker, echo the batch, then restore the position and
/// show the cursor again.
pub open spec fn print_input_model(
    c: Cursor,
    content: Seq<char>,
    width: nat,
    items: Seq<ItemView>,
) -> (Cursor, Seq<OpModel>) {
    let (c1, o1) = input_scroll_model(c, content, width);
    let c2 = Cursor { saved: c1.pos, ..c1 };
    let c3 = Cursor { pos: CursorPosition { col: 0, row: c2.starting_row }, ..c2 };
    let c4 = Cursor { pos: CursorPosition { col: INPUT_START_COL, row: c3.pos.row }, ..c3 };
    let (c5, o5) = echo_items_model(c4, items);
    let c6 = Cursor { pos: c5.saved, ..c5 };
    (
        c6,
        seq![OpModel::HideCursor] + o1 + seq![
            OpModel::SavePosition,
            OpModel::MoveTo(0, c2.starting_row as int),
            OpModel::ClearFromCursorDown,
            OpModel::SetColor(Color::Yellow),
            OpModel::Write("In: "@),
        ] + o5 + seq![OpModel::RestorePosition, OpModel::ShowCursor],
    )
}

/// Counts the newline characters of `s`.
pub fn count_newlines(s: &str) -> (r: usize)
    ensures
        r as int == nl_chars(s@),
{
    let n = s.unicode_len();
    let mut r: usize = 0;
    let mut i: usize = 0;
    proof {
        assert(s@.skip(0) =~~= s@);
    }
    while i < n
        invariant
            i <= n,
            n as nat == s@.len(),
            r <= i,
            nl_chars(s@) == r + nl_chars(s@.skip(i as int)),
        decreases n - i,
    {
        let c = s.get_char(i);
        proof {
            assert(s@.skip(i as int)[0] == s@[i as int]);
            assert(s@.skip(i as int).skip(1) =~~= s@.skip(i as int + 1));
        }
        if c == '\n' {
            r = r + 1;
        }
        i = i + 1;
    }
    proof {
        assert(s@.skip(n as int) =~~= Seq::<char>::empty());
    }
    r
}

impl IRust {
    /// Scrolls so that re-echoing the whole input buffer will fit within
    /// the viewport: the minimal scroll that brings the buffer's projected
    /// last row back above the bottom edge.
    pub fn scroll_if_needed_for_input(&mut self)
        requires
            old(self).wf(),
        ensures
            final(self).wf(),
            final(self).applied(
                *old(self),
                input_scroll_model(
                    old(self).cursor,
                    old(self).buffer.content(),
                    old(self).buffer.width(),
                ).0,
                input_scroll_model(
                    old(self).cursor,
                    old(self).buffer.content(),
                    old(self).buffer.width(),
                ).1,
            ),
    {
        let rc = self.buffer.last_buffer_pos_to_relative_cursor_pos();
        let avail = self.cursor.bound.height - 1 - self.cursor.starting_row;
        let ov = if rc.1 > avail {
            rc.1 - avail
        } else {
            0
        };
        if ov > 0 {
            self.emit(TermOp::ScrollUp(ov));
            self.cursor.scroll_up(ov);
        }
        proof {
            if ov == 0 {
                assert(ops_model(self.ops@) =~~= ops_model(old(self).ops@)
                    + Seq::<OpModel>::empty());
            } else {
                assert(ops_model(self.ops@) =~~= ops_model(old(self).ops@) + seq![
                    OpModel::ScrollUp(ov as int),
                ]);
            }
        }
    }

    /// Scrolls by the overflow that the batch's explicit newline items
    /// would cause from the current row.
    pub fn scroll_if_needed_for_printer(&mut self, printer: &Printer)
        requires
            old(self).wf(),
        ensures
            final(self).wf(),
            final(self).applied(
                *old(self),
                scroll_model(
                    old(self).cursor,
                    overflow_amount(
                        old(self).cursor.pos.row as int,
                        nl_count(printer@),
                        old(self).cursor.bound.height as int,
                    ),
                ).0,
                scroll_model(
                    old(self).cursor,
                    overflow_amount(
                        old(self).cursor.pos.row as int,
                        nl_count(printer@),
                        old(self).cursor.bound.height as int,
                    ),
                ).1,
            ),
    {
        let n = printer.len();
        let mut k: usize = 0;
        let mut i: usize = 0;
        proof {
            assert(printer@.skip(0) =~~= printer@);
            lemma_nl_count_bounds(printer@);
        }
        while i < n
            invariant
                i <= n,
                n as nat == printer@.len(),
                k <= i,
                nl_count(printer@) == k + nl_count(printer@.skip(i as int)),
            decreases n - i,
        {
            proof {
                assert(printer@.skip(i as int)[0] == printer@[i as int]);
                assert(printer@.skip(i as int).skip(1) =~~= printer@.skip(i as int + 1));
                lemma_nl_count_bounds(printer@.skip(i as int + 1));
            }
            let is_nl = match printer.items[i].string_type {
                PrinterItemType::NewLine => true,
                _ => false,
            };
            if is_nl {
                k = k + 1;
            }
            i = i + 1;
        }
        proof {
            assert(printer@.skip(n as int) =~~= Seq::<ItemView>::empty());
        }
        let ov = self.cursor.screen_height_overflow_by_new_lines(k);
        if ov > 0 {
            self.emit(TermOp::ScrollUp(ov));
            self.cursor.scroll_up(ov);
        }
        proof {
            if ov == 0 {
                assert(ops_model(self.ops@) =~~= ops_model(old(self).ops@)
                    + Seq::<OpModel>::empty());
            } else {
                assert(ops_model(self.ops@) =~~= ops_model(old(self).ops@) + seq![
                    OpModel::ScrollUp(ov as int),
                ]);
            }
        }
    }

    /// The compensation check after one written fragment: when its embedded
    /// newlines overflowed the viewport, the terminal scrolled once by
    /// itself, so one more scroll is issued and the tracked row is pinned to
    /// the last visible row.
    pub fn scroll_if_needed_for_output(&mut self, output: &str)
        requires
            old(self).wf(),
        ensures
            final(self).wf(),
            final(self).applied(
                *old(self),
                output_scroll_check_model(old(self).cursor, output@).0,
                output_scroll_check_model(old(self).cursor, output@).1,
            ),
    {
        let k = count_newlines(output);
        let ov = self.cursor.screen_height_overflow_by_new_lines(k);
        if ov > 0 {
            self.emit(TermOp::ScrollUp(1));
            self.cursor.pos.row = self.cursor.bound.height - 1;
        }
        proof {
            if ov == 0 {
                assert(ops_model(self.ops@) =~~= ops_model(old(self).ops@)
                    + Seq::<OpModel>::empty());
            } else {
                assert(ops_model(self.ops@) =~~= ops_model(old(self).ops@) + seq![
                    OpModel::ScrollUp(1),
                ]);
            }
        }
    }

    /// Drains an output batch against the viewport: scrolls first by the
    /// overflow its explicit newlines would cause, then prints the items
    /// front to back, advancing, recoloring and compensating as each one
    /// demands.
    pub fn print_output(&mut self, printer: Printer)
        requires
            old(self).wf(),
        ensures
            final(self).wf(),
            final(self).applied(
                *old(self),
                print_output_model(old(self).cursor, printer@, old(self).options).0,
                print_output_model(old(self).cursor, printer@, old(self).options).1,
            ),
    {
        let ghost orig = *self;
        let ghost items = printer@;
        let ghost opts = self.options;
        self.scroll_if_needed_for_printer(&printer);
        let ghost c1 = self.cursor;
        let ghost scroll_ops = scroll_model(
            orig.cursor,
            overflow_amount(
                orig.cursor.pos.row as int,
                nl_count(items),
                orig.cursor.bound.height as int,
            ),
        ).1;
        let n = printer.len();
        let mut i: usize = 0;
        let ghost mut done: Seq<OpModel> = Seq::<OpModel>::empty();
        proof {
            assert(items.skip(0) =~~= items);
            assert(ops_model(self.ops@) =~~= ops_model(orig.ops@) + scroll_ops
                + Seq::<OpModel>::empty());
        }
        while i < n
            invariant
                self.wf(),
                i <= n,
                n as nat == items.len(),
                items == printer@,
                opts == self.options,
                self.buffer == orig.buffer,
                self.racer_lock == orig.racer_lock,
                ops_model(self.ops@) == ops_model(orig.ops@) + scroll_ops + done,
                print_items_model(c1, items, opts).0 == print_items_model(
                    self.cursor,
                    items.skip(i as int),
                    opts,
                ).0,
                print_items_model(c1, items, opts).1 == done + print_items_model(
                    self.cursor,
                    items.skip(i as int),
                    opts,
                ).1,
            decreases n - i,
        {
            let ghost cur0 = self.cursor;
            let ghost item = items[i as int];
            proof {
                assert(items.skip(i as int)[0] == items[i as int]);
                assert(items.skip(i as int).skip(1) =~~= items.skip(i as int + 1));
            }
            let is_nl = match printer.items[i].string_type {
                PrinterItemType::NewLine => true,
                _ => false,
            };
            if is_nl {
                self.cursor.goto_next_row_terminal_start();
                self.emit(TermOp::MoveTo(0, self.cursor.pos.row));
                self.cursor.use_current_row_as_starting_row();
                proof {
                    done = done + print_item_model(cur0, item, opts).1;
                    assert(ops_model(self.ops@) =~~= ops_model(orig.ops@) + scroll_ops + done);
                }
            } else {
                let color = crate::session::resolve_color(&printer.items[i].string_type, &self.options);
                self.emit(TermOp::SetColor(color));
                let text: &str = printer.items[i].string.as_str();
                let ghost t = text@;
                let tn = text.unicode_len();
                let mut has_nl = false;
                let mut j: usize = 0;
                while j < tn
                    invariant
                        j <= tn,
                        tn as nat == t.len(),
                        t == text@,
                        has_nl == exists|u: int| 0 <= u < j && t[u] == '\n',
                    decreases tn - j,
                {
                    if text.get_char(j) == '\n' {
                        has_nl = true;
                    }
                    j = j + 1;
                }
                proof {
                    crate::printer::lemma_first_nl(t);
                    if !has_nl && first_nl(t) < t.len() {
                        assert(t[first_nl(t)] == '\n');
                    }
                }
                if has_nl {
                    self.cursor.goto_next_row_terminal_start();
                    self.emit(TermOp::MoveTo(0, self.cursor.pos.row));
                    let ghost cm = self.cursor;
                    let ghost mut seg_done: Seq<OpModel> = Seq::<OpModel>::empty();
                    let mut start: usize = 0;
                    let mut u: usize = 0;
                    proof {
                        assert(t.skip(0) =~~= t);
                        assert(ops_model(self.ops@) =~~= ops_model(orig.ops@) + scroll_ops + done
                            + seq![
                            OpModel::SetColor(spec_resolve_color(item.class, opts)),
                            OpModel::MoveTo(0, cm.pos.row as int),
                        ] + Seq::<OpModel>::empty());
                    }
                    while u < tn
                        invariant
                            self.wf(),
                            start <= u <= tn,
                            tn as nat == t.len(),
                            t == text@,
                            opts == self.options,
                            self.buffer == orig.buffer,
                            self.racer_lock == orig.racer_lock,
                            item.class == printer@[i as int].class,
                            !(item.class is NewLine),
                            i < n,
                            n as nat == printer@.len(),
                            ops_model(self.ops@) == ops_model(orig.ops@) + scroll_ops + done
                                + seq![
                                OpModel::SetColor(spec_resolve_color(item.class, opts)),
                                OpModel::MoveTo(0, cm.pos.row as int),
                            ] + seg_done,
                            forall|v: int| start <= v < u ==> t[v] != '\n',
                            out_lines_model(cm, split_lines(t)).0 == out_lines_model(
                                self.cursor,
                                split_lines(t.skip(start as int)),
                            ).0,
                            out_lines_model(cm, split_lines(t)).1 == seg_done + out_lines_model(
                                self.cursor,
                                split_lines(t.skip(start as int)),
                            ).1,
                        decreases tn - u,
                    {
                        let ch = text.get_char(u);
                        if ch == '\n' {
                            let ghost cu = self.cursor;
                            let ghost rem = t.skip(start as int);
                            let seg = text.substring_char(start, u);
                            self.emit(TermOp::Write(seg.to_owned()));
                            let mut crlf = String::new();
                            crate::push_char(&mut crlf, '\r');
                            crate::push_char(&mut crlf, '\n');
                            proof {
                                assert(crlf@ =~~= seq!['\r', '\n']);
                            }
                            self.emit(TermOp::Write(crlf));
                            if self.cursor.pos.row + 1 < self.cursor.bound.height {
                                self.cursor.pos.row = self.cursor.pos.row + 1;
                            } else {
                                self.cursor.pos.row = self.cursor.bound.height - 1;
                            }
                            proof {
                                let kk = u as int - start as int;
                                assert forall|v: int| 0 <= v < kk implies rem[v] != '\n' by {
                                    assert(rem[v] == t[start as int + v]);
                                }
                                assert(rem[kk] == t[u as int]);
                                crate::printer::lemma_first_nl_at(rem, kk);
                                assert(rem.take(kk) =~~= seg@);
                                assert(rem.skip(kk + 1) =~~= t.skip(u as int + 1));
                                assert(split_lines(rem) =~~= seq![seg@] + split_lines(
                                    t.skip(u as int + 1),
                                ));
                                assert((seq![seg@] + split_lines(t.skip(u as int + 1))).skip(1)
                                    =~~= split_lines(t.skip(u as int + 1)));
                                let step = seq![
                                    OpModel::Write(seg@),
                                    OpModel::Write(seq!['\r', '\n']),
                                ];
                                seg_done = seg_done + step;
                                assert(ops_model(self.ops@) =~~= ops_model(orig.ops@) + scroll_ops
                                    + done + seq![
                                    OpModel::SetColor(spec_resolve_color(item.class, opts)),
                                    OpModel::MoveTo(0, cm.pos.row as int),
                                ] + seg_done);
                                assert(out_lines_model(cu, split_lines(rem)).1 =~~= step
                                    + out_lines_model(self.cursor, split_lines(t.skip(u as int + 1))).1);
                            }
                            start = u + 1;
                        }
                        u = u + 1;
                    }
                    let ghost cu = self.cursor;
                    let ghost rem = t.skip(start as int);
                    let seg = text.substring_char(start, tn);
                    self.emit(TermOp::Write(seg.to_owned()));
                    let mut crlf = String::new();
                    crate::push_char(&mut crlf, '\r');
                    crate::push_char(&mut crlf, '\n');
                    proof {
                        assert(crlf@ =~~= seq!['\r', '\n']);
                    }
                    self.emit(TermOp::Write(crlf));
                    if self.cursor.pos.row + 1 < self.cursor.bound.height {
                        self.cursor.pos.row = self.cursor.pos.row + 1;
                    } else {
                        self.cursor.pos.row = self.cursor.bound.height - 1;
                    }
                    proof {
                        reveal_with_fuel(out_lines_model, 2);
                        let kk = rem.len() as int;
                        assert forall|v: int| 0 <= v < kk implies rem[v] != '\n' by {
                            assert(rem[v] == t[start as int + v]);
                        }
                        crate::printer::lemma_first_nl_at(rem, kk);
                        assert(split_lines(rem) =~~= seq![rem]);
                        assert(rem =~~= seg@);
                        assert(seq![rem].skip(1) =~~= Seq::<Seq<char>>::empty());
                        let step = seq![OpModel::Write(seg@), OpModel::Write(seq!['\r', '\n'])];
                        assert(out_lines_model(cu, split_lines(rem)).1 =~~= step);
                        assert(out_lines_model(cu, split_lines(rem)).0 == self.cursor);
                        seg_done = seg_done + step;
                        assert(ops_model(self.ops@) =~~= ops_model(orig.ops@) + scroll_ops + done
                            + seq![
                            OpModel::SetColor(spec_resolve_color(item.class, opts)),
                            OpModel::MoveTo(0, cm.pos.row as int),
                        ] + seg_done);
                        assert(out_lines_model(cm, split_lines(t)).1 =~~= seg_done);
                        assert(out_lines_model(cm, split_lines(t)).0 == self.cursor);
                    }
                    let ghost cafter = self.cursor;
                    self.scroll_if_needed_for_output(text);
                    proof {
                        let head = seq![
                            OpModel::SetColor(spec_resolve_color(item.class, opts)),
                            OpModel::MoveTo(0, cm.pos.row as int),
                        ];
                        done = done + (head + seg_done + output_scroll_check_model(cafter, t).1);
                        assert(print_item_model(cur0, item, opts).1 =~~= head + seg_done
                            + output_scroll_check_model(cafter, t).1);
                        assert(print_item_model(cur0, item, opts).0 == self.cursor);
                        assert(ops_model(self.ops@) =~~= ops_model(orig.ops@) + scroll_ops + done);
                    }
                } else {
                    let owned = printer.items[i].string.clone();
                    self.emit(TermOp::Write(owned));
                    let ghost cafter = self.cursor;
                    self.scroll_if_needed_for_output(text);
                    proof {
                        let head = seq![
                            OpModel::SetColor(spec_resolve_color(item.class, opts)),
                            OpModel::Write(t),
                        ];
                        done = done + (head + output_scroll_check_model(cafter, t).1);
                        assert(print_item_model(cur0, item, opts).1 =~~= head
                            + output_scroll_check_model(cafter, t).1);
                        assert(print_item_model(cur0, item, opts).0 == self.cursor);
                        assert(ops_model(self.ops@) =~~= ops_model(orig.ops@) + scroll_ops + done);
                    }
                }
            }
            proof {
                assert(print_items_model(cur0, items.skip(i as int), opts).1 =~~= print_item_model(
                    cur0,
                    item,
                    opts,
                ).1 + print_items_model(self.cursor, items.skip(i as int + 1), opts).1);
            }
            i = i + 1;
        }
        proof {
            assert(items.skip(n as int) =~~= Seq::<ItemView>::empty());
            assert(print_items_model(c1, items, opts).1 =~~= done);
            assert(ops_model(self.ops@) =~~= ops_model(orig.ops@) + (scroll_ops + done));
            assert(print_output_model(orig.cursor, items, opts).1 =~~= scroll_ops + done);
        }
    }

    /// Echoes the live input buffer: hides the cursor, scrolls so the full
    /// buffer fits, redraws from the start of input behind the prompt
    /// marker, then restores the cursor. `color` reports whether the batch
    /// came from the highlighter; while such a colored echo is in flight
    /// the background highlighting refresh stays locked out.
    pub fn print_input(&mut self, printer: Printer, color: bool)
        requires
            old(self).wf(),
        ensures
            final(self).wf(),
            final(self).buffer == old(self).buffer,
            final(self).options == old(self).options,
            final(self).racer_lock == color,
            final(self).cursor == print_input_model(
                old(self).cursor,
                old(self).buffer.content(),
                old(self).buffer.width(),
                printer@,
            ).0,
            ops_model(final(self).ops@) == ops_model(old(self).ops@) + print_input_model(
                old(self).cursor,
                old(self).buffer.content(),
                old(self).buffer.width(),
                printer@,
            ).1,
    {
        let ghost orig = *self;
        let ghost items = printer@;
        self.emit(TermOp::HideCursor);
        self.scroll_if_needed_for_input();
        let ghost o1 = input_scroll_model(orig.cursor, orig.buffer.content(), orig.buffer.width()).1;
        self.emit(TermOp::SavePosition);
        self.cursor.save_position();
        let sr = self.cursor.starting_row;
        self.cursor.move_to(0, sr);
        self.emit(TermOp::MoveTo(0, sr));
        self.emit(TermOp::ClearFromCursorDown);
        self.emit(TermOp::SetColor(Color::Yellow));
        self.emit(TermOp::Write("In: ".to_owned()));
        self.cursor.pos.col = INPUT_START_COL;
        let ghost c4 = self.cursor;
        let ghost head = seq![OpModel::HideCursor] + o1 + seq![
            OpModel::SavePosition,
            OpModel::MoveTo(0, sr as int),
            OpModel::ClearFromCursorDown,
            OpModel::SetColor(Color::Yellow),
            OpModel::Write("In: "@),
        ];
        proof {
            assert(ops_model(self.ops@) =~~= ops_model(orig.ops@) + head);
        }
        self.print_inner(printer);
        let ghost o5 = echo_items_model(c4, items).1;
        self.emit(TermOp::RestorePosition);
        self.cursor.restore_position();
        self.emit(TermOp::ShowCursor);
        self.racer_lock = color;
        proof {
            assert(self.cursor =~~= print_input_model(
                orig.cursor,
                orig.buffer.content(),
                orig.buffer.width(),
                items,
            ).0);
            assert(ops_model(self.ops@) =~~= ops_model(orig.ops@) + (head + o5 + seq![
                OpModel::RestorePosition,
                OpModel::ShowCursor,
            ]));
            assert(print_input_model(
                orig.cursor,
                orig.buffer.content(),
                orig.buffer.width(),
                items,
            ).1 =~~= head + o5 + seq![OpModel::RestorePosition, OpModel::ShowCursor]);
        }
    }

    /// Echoes a batch of classified live input item by item: colored items
    /// character by character with wrap-continuation markers, layout
    /// newlines as fresh rows behind a continuation marker.
    fn print_inner(&mut self, printer: Printer)
        requires
            old(self).wf(),
        ensures
            final(self).wf(),
            final(self).applied(
                *old(self),
                echo_items_model(old(self).cursor, printer@).0,
                echo_items_model(old(self).cursor, printer@).1,
            ),
    {
        let ghost orig = *self;
        let ghost items = printer@;
        let n = printer.len();
        let mut i: usize = 0;
        let ghost mut done: Seq<OpModel> = Seq::<OpModel>::empty();
        proof {
            assert(items.skip(0) =~~= items);
            assert(ops_model(self.ops@) =~~= ops_model(orig.ops@) + Seq::<OpModel>::empty());
        }
        while i < n
            invariant
                self.wf(),
                i <= n,
                n as nat == items.len(),
                items == printer@,
                self.buffer == orig.buffer,
                self.options == orig.options,
                self.racer_lock == orig.racer_lock,
                ops_model(self.ops@) == ops_model(orig.ops@) + done,
                echo_items_model(orig.cursor, items).0 == echo_items_model(
                    self.cursor,
                    items.skip(i as int),
                ).0,
                echo_items_model(orig.cursor, items).1 == done + echo_items_model(
                    self.cursor,
                    items.skip(i as int),
                ).1,
            decreases n - i,
        {
            let ghost cur0 = self.cursor;
            let ghost item = items[i as int];
            proof {
                assert(items.skip(i as int)[0] == items[i as int]);
                assert(items.skip(i as int).skip(1) =~~= items.skip(i as int + 1));
            }
            match printer.items[i].string_type {
                PrinterItemType::Custom(copt) => {
                    let col = match copt {
                        Some(c) => c,
                        None => Color::White,
                    };
                    let text: &str = printer.items[i].string.as_str();
                    let ghost t = text@;
                    let tn = text.unicode_len();
                    let mut j: usize = 0;
                    let ghost mut char_done: Seq<OpModel> = Seq::<OpModel>::empty();
                    proof {
                        assert(t.skip(0) =~~= t);
                        assert(ops_model(self.ops@) =~~= ops_model(orig.ops@) + done
                            + Seq::<OpModel>::empty());
                    }
                    while j < tn
                        invariant
                            self.wf(),
                            j <= tn,
                            tn as nat == t.len(),
                            t == text@,
                            self.buffer == orig.buffer,
                            self.options == orig.options,
                            self.racer_lock == orig.racer_lock,
                            ops_model(self.ops@) == ops_model(orig.ops@) + done + char_done,
                            echo_chars_model(cur0, t, col).0 == echo_chars_model(
                                self.cursor,
                                t.skip(j as int),
                                col,
                            ).0,
                            echo_chars_model(cur0, t, col).1 == char_done + echo_chars_model(
                                self.cursor,
                                t.skip(j as int),
                                col,
                            ).1,
                        decreases tn - j,
                    {
                        let ghost cu = self.cursor;
                        let ch = text.get_char(j);
                        proof {
                            assert(t.skip(j as int)[0] == t[j as int]);
                            assert(t.skip(j as int).skip(1) =~~= t.skip(j as int + 1));
                        }
                        self.emit(TermOp::SetColor(col));
                        let mut one = String::new();
                        crate::push_char(&mut one, ch);
                        proof {
                            assert(one@ =~~= seq![t[j as int]]);
                        }
                        self.emit(TermOp::Write(one));
                        if self.cursor.pos.col < self.cursor.bound.width - 1 {
                            self.cursor.pos.col = self.cursor.pos.col + 1;
                        } else {
                            if self.cursor.pos.row + 1 < self.cursor.bound.height {
                                self.cursor.pos.row = self.cursor.pos.row + 1;
                            } else {
                                self.cursor.pos.row = self.cursor.bound.height - 1;
                            }
                            self.cursor.pos.col = INPUT_START_COL;
                            self.emit(TermOp::MoveTo(0, self.cursor.pos.row));
                            self.emit(TermOp::SetColor(Color::Yellow));
                            self.emit(TermOp::Write("..: ".to_owned()));
                        }
                        proof {
                            char_done = char_done + echo_char_model(cu, t[j as int], col).1;
                            assert(self.cursor =~~= echo_char_model(cu, t[j as int], col).0);
                            assert(ops_model(self.ops@) =~~= ops_model(orig.ops@) + done
                                + char_done);
                        }
                        j = j + 1;
                    }
                    proof {
                        assert(t.skip(tn as int) =~~= Seq::<char>::empty());
                        assert(echo_chars_model(cur0, t, col).1 =~~= char_done);
                        done = done + char_done;
                        assert(echo_item_model(cur0, item).1 == char_done);
                        assert(ops_model(self.ops@) =~~= ops_model(orig.ops@) + done);
                    }
                },
                PrinterItemType::NewLine => {
                    if self.cursor.pos.row + 1 < self.cursor.bound.height {
                        self.cursor.pos.row = self.cursor.pos.row + 1;
                    } else {
                        self.cursor.pos.row = self.cursor.bound.height - 1;
                    }
                    self.cursor.pos.col = INPUT_START_COL;
                    self.emit(TermOp::MoveTo(0, self.cursor.pos.row));
                    self.emit(TermOp::SetColor(Color::Yellow));
                    self.emit(TermOp::Write("..: ".to_owned()));
                    proof {
                        done = done + echo_item_model(cur0, item).1;
                        assert(self.cursor =~~= echo_item_model(cur0, item).0);
                        assert(ops_model(self.ops@) =~~= ops_model(orig.ops@) + done);
                    }
                },
                _ => {
                    proof {
                        assert(echo_item_model(cur0, item).1 =~~= Seq::<OpModel>::empty());
                        assert(done + echo_item_model(cur0, item).1 =~~= done);
                    }
                },
            }
            proof {
                assert(echo_items_model(cur0, items.skip(i as int)).1 =~~= echo_item_model(
                    cur0,
                    item,
                ).1 + echo_items_model(self.cursor, items.skip(i as int + 1)).1);
            }
            i = i + 1;
        }
        proof {
            assert(items.skip(n as int) =~~= Seq::<ItemView>::empty());
            assert(echo_items_model(orig.cursor, items).1 =~~= done);
        }
    }
}

} // verus!
