//! Low-level write operations of the session: writing text at the tracked
//! cursor, advancing to fresh lines, and clearing trailing suggestion text.
//! Each operation updates the tracked cursor and queues the terminal
//! operations it decided on; the models below state both exactly.
use vstd::prelude::*;

use crate::cursor::{next_row, Cursor, CursorPosition};
use crate::printer::first_nl;
use crate::session::{ops_model, IRust, OpModel, TermOp};

verus! {

/// The model of advancing to a fresh line: a newline write, the tracked
/// cursor at the start of the next row (pinned at the bottom of the
/// viewport), and a cursor move to match.
pub open spec fn write_newline_model(c: Cursor) -> (Cursor, Seq<OpModel>) {
    let c2 = Cursor {
        pos: CursorPosition { col: 0, row: next_row(c.pos.row, c.bound.height) },
        ..c
    };
    (c2, seq![OpModel::Write(seq!['\n']), OpModel::MoveTo(0, c2.pos.row as int)])
}

/// The column after writing `n` characters on one row, saturating at the
/// viewport width.
pub open spec fn col_after(col: int, n: int, width: int) -> int {
    if col + n <= width {
        col + n
    } else {
        width
    }
}

/// The model of writing newline-free text in place: one write per
/// character, the tracked column advancing with each, saturating at the
/// viewport width.
pub open spec fn write_plain_model(c: Cursor, s: Seq<char>) -> (Cursor, Seq<OpModel>) {
    (
        Cursor {
            pos: CursorPosition {
                col: col_after(c.pos.col as int, s.len() as int, c.bound.width as int) as usize,
                row: c.pos.row,
            },
            ..c
        },
        Seq::new(s.len(), |i: int| OpModel::Write(seq![s[i]])),
    )
}

/// The segments of `s` between its newlines, as `str::split('\n')` yields
/// them: one more segment than there are newlines, so a trailing newline
/// produces a final empty segment.
pub open spec fn split_lines(s: Seq<char>) -> Seq<Seq<char>>
    decreases s.len(),
{
    let k = first_nl(s);
    if 0 <= k < s.len() {
        seq![s.take(k)] + split_lines(s.skip(k + 1))
    } else {
        seq![s]
    }
}

/// The model of writing a run of segments: each segment is written whole,
/// followed by an advance to a fresh line.
pub open spec fn write_segments_model(c: Cursor, segs: Seq<Seq<char>>) -> (Cursor, Seq<OpModel>)
    decreases segs.len(),
{
    if segs.len() == 0 {
        (c, Seq::<OpModel>::empty())
    } else {
        let (c1, o1) = write_newline_model(c);
        let (c2, o2) = write_segments_model(c1, segs.skip(1));
        (c2, seq![OpModel::Write(segs[0])] + o1 + o2)
    }
}

/// The model of `write`: empty text does nothing; text with a newline
/// starts a fresh line and then writes each segment on a line of its own;
/// newline-free text is written in place, character by character.
pub open spec fn write_model(c: Cursor, s: Seq<char>) -> (Cursor, Seq<OpModel>) {
    if s.len() == 0 {
        (c, Seq::<OpModel>::empty())
    } else if first_nl(s) < s.len() {
        let (c1, o1) = write_newline_model(c);
        let (c2, o2) = write_segments_model(c1, split_lines(s));
        (c2, o1 + o2)
    } else {
        write_plain_model(c, s)
    }
}

/// The model of `_writeln`: a fresh line, then the text.
pub open spec fn writeln_model(c: Cursor, s: Seq<char>) -> (Cursor, Seq<OpModel>) {
    let (c1, o1) = write_newline_model(c);
    let (c2, o2) = write_model(c1, s);
    (c2, o1 + o2)
}

/// The model of a cursor move: an omitted coordinate keeps its current
/// value, the result saturates at the viewport's edges, and one move
/// operation is queued at the final position.
pub open spec fn move_to_model(c: Cursor, x: Option<usize>, y: Option<usize>) -> (
    Cursor,
    Seq<OpModel>,
) {
    let tx = if x is Some {
        x->0 as int
    } else {
        c.pos.col as int
    };
    let ty = if y is Some {
        y->0 as int
    } else {
        c.pos.row as int
    };
    let c2 = c.spec_move_to(tx, ty);
    (c2, seq![OpModel::MoveTo(c2.pos.col as int, c2.pos.row as int)])
}

/// The model of `write_str_at`: a move, then the text.
pub open spec fn write_str_at_model(c: Cursor, s: Seq<char>, x: Option<usize>, y: Option<usize>) -> (
    Cursor,
    Seq<OpModel>,
) {
    let (c1, o1) = move_to_model(c, x, y);
    let (c2, o2) = write_model(c1, s);
    (c2, o1 + o2)
}

/// The model of `clear_from`: save the position, move, clear to the end of
/// the line, and return; the tracked position is unchanged and the saved
/// position now holds it.
pub open spec fn clear_from_model(c: Cursor, x: Option<usize>, y: Option<usize>) -> (
    Cursor,
    Seq<OpModel>,
) {
    let (c1, o1) = move_to_model(Cursor { saved: c.pos, ..c }, x, y);
    (
        Cursor { pos: c.pos, saved: c.pos, starting_row: c.starting_row, bound: c.bound },
        seq![OpModel::SavePosition] + o1 + seq![
            OpModel::ClearUntilNewLine,
            OpModel::RestorePosition,
        ],
    )
}

impl IRust {
    /// Writes `out` at the tracked cursor. Text holding a newline is
    /// written line by line, each on a fresh row; other text is written in
    /// place, the tracked column advancing per character.
    pub fn write(&mut self, out: &str)
        requires
            old(self).wf(),
        ensures
            final(self).wf(),
            final(self).applied(
                *old(self),
                write_model(old(self).cursor, out@).0,
                write_model(old(self).cursor, out@).1,
            ),
    {
        let ghost orig = *self;
        let ghost s = out@;
        let n = out.unicode_len();
        if n == 0 {
            proof {
                assert(ops_model(self.ops@) =~~= ops_model(orig.ops@) + Seq::<OpModel>::empty());
            }
            return ;
        }
        let mut has_nl = false;
        let mut j: usize = 0;
        while j < n
            invariant
                j <= n,
                n as nat == s.len(),
                s == out@,
                has_nl == exists|t: int| 0 <= t < j && s[t] == '\n',
            decreases n - j,
        {
            if out.get_char(j) == '\n' {
                has_nl = true;
            }
            j = j + 1;
        }
        proof {
            crate::printer::lemma_first_nl(s);
            if has_nl {
                assert(first_nl(s) < s.len());
            } else {
                if first_nl(s) < s.len() {
                    assert(s[first_nl(s)] == '\n');
                }
            }
        }
        if has_nl {
            self.write_newline();
            let ghost c1 = self.cursor;
            let ghost done0 = write_newline_model(orig.cursor).1;
            let mut start: usize = 0;
            let mut i: usize = 0;
            let ghost mut done: Seq<OpModel> = Seq::<OpModel>::empty();
            proof {
                assert(s.skip(0) =~~= s);
                assert(ops_model(self.ops@) =~~= ops_model(orig.ops@) + done0
                    + Seq::<OpModel>::empty());
            }
            while i < n
                invariant
                    self.wf(),
                    start <= i <= n,
                    n as nat == s.len(),
                    s == out@,
                    self.buffer == orig.buffer,
                    self.options == orig.options,
                    self.racer_lock == orig.racer_lock,
                    ops_model(self.ops@) == ops_model(orig.ops@) + done0 + done,
                    forall|t: int| start <= t < i ==> s[t] != '\n',
                    write_segments_model(c1, split_lines(s)).0 == write_segments_model(
                        self.cursor,
                        split_lines(s.skip(start as int)),
                    ).0,
                    write_segments_model(c1, split_lines(s)).1 == done + write_segments_model(
                        self.cursor,
                        split_lines(s.skip(start as int)),
                    ).1,
                decreases n - i,
            {
                let c = out.get_char(i);
                if c == '\n' {
                    let ghost cur0 = self.cursor;
                    let ghost rem = s.skip(start as int);
                    let seg = out.substring_char(start, i);
                    self.emit(TermOp::Write(seg.to_owned()));
                    self.write_newline();
                    proof {
                        let k = i as int - start as int;
                        assert forall|t: int| 0 <= t < k implies rem[t] != '\n' by {
                            assert(rem[t] == s[start as int + t]);
                        }
                        assert(rem[k] == s[i as int]);
                        crate::printer::lemma_first_nl_at(rem, k);
                        assert(rem.take(k) =~~= seg@);
                        assert(rem.skip(k + 1) =~~= s.skip(i as int + 1));
                        assert(split_lines(rem) =~~= seq![seg@] + split_lines(
                            s.skip(i as int + 1),
                        ));
                        assert((seq![seg@] + split_lines(s.skip(i as int + 1))).skip(1)
                            =~~= split_lines(s.skip(i as int + 1)));
                        let step_ops = seq![OpModel::Write(seg@)] + write_newline_model(cur0).1;
                        done = done + step_ops;
                        assert(ops_model(self.ops@) =~~= ops_model(orig.ops@) + done0 + done);
                        assert(write_segments_model(cur0, split_lines(rem)).1 =~~= step_ops
                            + write_segments_model(self.cursor, split_lines(s.skip(i as int + 1))).1);
                    }
                    start = i + 1;
                }
                i = i + 1;
            }
            let ghost cur0 = self.cursor;
            let ghost rem = s.skip(start as int);
            let seg = out.substring_char(start, n);
            self.emit(TermOp::Write(seg.to_owned()));
            self.write_newline();
            proof {
                reveal_with_fuel(write_segments_model, 2);
                let k = rem.len() as int;
                assert forall|t: int| 0 <= t < k implies rem[t] != '\n' by {
                    assert(rem[t] == s[start as int + t]);
                }
                crate::printer::lemma_first_nl_at(rem, k);
                assert(split_lines(rem) =~~= seq![rem]);
                assert(rem =~~= seg@);
                assert(seq![rem].skip(1) =~~= Seq::<Seq<char>>::empty());
                let step_ops = seq![OpModel::Write(seg@)] + write_newline_model(cur0).1;
                assert(write_segments_model(cur0, split_lines(rem)).1 =~~= step_ops);
                assert(write_segments_model(cur0, split_lines(rem)).0 == self.cursor);
                assert(write_model(orig.cursor, s).0 == self.cursor);
                assert(ops_model(self.ops@) =~~= ops_model(orig.ops@) + done0 + (done + step_ops));
                assert(ops_model(self.ops@) =~~= ops_model(orig.ops@) + (done0 + (done
                    + step_ops)));
                assert(write_model(orig.cursor, s).1 =~~= done0 + (done + step_ops));
            }
        } else {
            let ghost c0 = self.cursor;
            let mut i: usize = 0;
            while i < n
                invariant
                    self.wf(),
                    i <= n,
                    n as nat == s.len(),
                    s == out@,
                    self.buffer == orig.buffer,
                    self.options == orig.options,
                    self.racer_lock == orig.racer_lock,
                    self.cursor.bound == orig.cursor.bound,
                    self.cursor.pos.row == orig.cursor.pos.row,
                    self.cursor.saved == orig.cursor.saved,
                    self.cursor.starting_row == orig.cursor.starting_row,
                    self.cursor.pos.col as int == col_after(
                        orig.cursor.pos.col as int,
                        i as int,
                        orig.cursor.bound.width as int,
                    ),
                    ops_model(self.ops@) == ops_model(orig.ops@) + Seq::new(
                        i as nat,
                        |t: int| OpModel::Write(seq![s[t]]),
                    ),
                decreases n - i,
            {
                let c = out.get_char(i);
                let mut one = String::new();
                crate::push_char(&mut one, c);
                proof {
                    assert(one@ =~~= seq![s[i as int]]);
                }
                self.emit(TermOp::Write(one));
                if self.cursor.pos.col < self.cursor.bound.width {
                    self.cursor.pos.col = self.cursor.pos.col + 1;
                }
                proof {
                    assert(ops_model(self.ops@) =~~= ops_model(orig.ops@) + Seq::new(
                        (i + 1) as nat,
                        |t: int| OpModel::Write(seq![s[t]]),
                    ));
                }
                i = i + 1;
            }
            proof {
                assert(write_model(orig.cursor, s) == write_plain_model(orig.cursor, s));
                assert(self.cursor =~~= write_plain_model(orig.cursor, s).0);
            }
        }
    }

    /// Advances to the start of a fresh line: writes a newline, tracks the
    /// new row (pinned at the bottom of the viewport), and moves there.
    pub fn write_newline(&mut self)
        requires
            old(self).wf(),
        ensures
            final(self).wf(),
            final(self).applied(
                *old(self),
                write_newline_model(old(self).cursor).0,
                write_newline_model(old(self).cursor).1,
            ),
    {
        let mut nl = String::new();
        crate::push_char(&mut nl, '\n');
        proof {
            assert(nl@ =~~= seq!['\n']);
        }
        self.emit(TermOp::Write(nl));
        self.cursor.goto_next_row_terminal_start();
        self.emit(TermOp::MoveTo(self.cursor.pos.col, self.cursor.pos.row));
        proof {
            assert(ops_model(self.ops@) =~~= ops_model(old(self).ops@) + write_newline_model(
                old(self).cursor,
            ).1);
        }
    }

    /// A fresh line followed by the given text.
    pub fn _writeln(&mut self, s: &str)
        requires
            old(self).wf(),
        ensures
            final(self).wf(),
            final(self).applied(
                *old(self),
                writeln_model(old(self).cursor, s@).0,
                writeln_model(old(self).cursor, s@).1,
            ),
    {
        self.write_newline();
        self.write(s);
        proof {
            assert(ops_model(self.ops@) =~~= ops_model(old(self).ops@) + writeln_model(
                old(self).cursor,
                s@,
            ).1);
        }
    }

    /// Moves the tracked cursor, saturating at the viewport's edges; an
    /// omitted coordinate keeps its current value.
    pub fn move_cursor_to(&mut self, x: Option<usize>, y: Option<usize>)
        requires
            old(self).wf(),
        ensures
            final(self).wf(),
            final(self).applied(
                *old(self),
                move_to_model(old(self).cursor, x, y).0,
                move_to_model(old(self).cursor, x, y).1,
            ),
    {
        let tx = match x {
            Some(v) => v,
            None => self.cursor.pos.col,
        };
        let ty = match y {
            Some(v) => v,
            None => self.cursor.pos.row,
        };
        self.cursor.move_to(tx, ty);
        self.emit(TermOp::MoveTo(self.cursor.pos.col, self.cursor.pos.row));
        proof {
            assert(ops_model(self.ops@) =~~= ops_model(old(self).ops@) + move_to_model(
                old(self).cursor,
                x,
                y,
            ).1);
        }
    }

    /// Writes `s` after moving to the given coordinates.
    pub fn write_str_at(&mut self, s: &str, x: Option<usize>, y: Option<usize>)
        requires
            old(self).wf(),
        ensures
            final(self).wf(),
            final(self).applied(
                *old(self),
                write_str_at_model(old(self).cursor, s@, x, y).0,
                write_str_at_model(old(self).cursor, s@, x, y).1,
            ),
    {
        self.move_cursor_to(x, y);
        self.write_str(s);
        proof {
            assert(ops_model(self.ops@) =~~= ops_model(old(self).ops@) + write_str_at_model(
                old(self).cursor,
                s@,
                x,
                y,
            ).1);
        }
    }

    /// Writes `s` at the tracked cursor.
    fn write_str(&mut self, s: &str)
        requires
            old(self).wf(),
        ensures
            final(self).wf(),
            final(self).applied(
                *old(self),
                write_model(old(self).cursor, s@).0,
                write_model(old(self).cursor, s@).1,
            ),
    {
        self.write(s);
    }

    /// Clears from just past the echoed input to the end of that line: the
    /// region where a suggestion was displayed. The tracked position is
    /// unchanged.
    pub fn clear_suggestion(&mut self)
        requires
            old(self).wf(),
        ensures
            final(self).wf(),
            final(self).applied(
                *old(self),
                clear_from_model(
                    old(self).cursor,
                    Some(suggestion_col(*old(self)) as usize),
                    None,
                ).0,
                clear_from_model(
                    old(self).cursor,
                    Some(suggestion_col(*old(self)) as usize),
                    None,
                ).1,
            ),
    {
        let w = self.cursor.bound.width;
        let l = self.buffer.len();
        let x = if l <= w - crate::cursor::INPUT_START_COL {
            l + crate::cursor::INPUT_START_COL
        } else {
            w
        };
        self.clear_from(Some(x), None);
    }

    /// Saves the position, moves, clears to the end of the line there, and
    /// returns to the saved position.
    fn clear_from(&mut self, x: Option<usize>, y: Option<usize>)
        requires
            old(self).wf(),
        ensures
            final(self).wf(),
            final(self).applied(
                *old(self),
                clear_from_model(old(self).cursor, x, y).0,
                clear_from_model(old(self).cursor, x, y).1,
            ),
    {
        self.emit(TermOp::SavePosition);
        self.cursor.save_position();
        self.move_cursor_to(x, y);
        self.emit(TermOp::ClearUntilNewLine);
        self.emit(TermOp::RestorePosition);
        self.cursor.restore_position();
        proof {
            assert(self.cursor =~~= clear_from_model(old(self).cursor, x, y).0);
            assert(ops_model(self.ops@) =~~= ops_model(old(self).ops@) + clear_from_model(
                old(self).cursor,
                x,
                y,
            ).1);
        }
    }
}

/// The column just past the echoed input line: the character count plus
/// the prompt width, pinned to the viewport width.
pub open spec fn suggestion_col(s: IRust) -> int {
    let t = s.buffer.content().len() + crate::cursor::INPUT_START_COL;
    if t <= s.cursor.bound.width as int {
        t as int
    } else {
        s.cursor.bound.width as int
    }
}

} // verus!
