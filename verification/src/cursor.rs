//! The viewport and physical cursor state: a bounded terminal size, the
//! tracked cursor position within it, and the row where the current prompt's
//! input begins. All row bookkeeping saturates at the viewport's edges, so
//! the invariants hold after every operation.
use vstd::prelude::*;

verus! {

/// The column where input text begins: the width of the prompt marker.
pub const INPUT_START_COL: usize = 4;

/// The measured `(width, height)` of the physical terminal.
#[derive(Clone, Copy, Debug, PartialEq, Eq, Structural)]
pub struct Bound {
    pub width: usize,
    pub height: usize,
}

impl Bound {
    /// A usable viewport: at least one row, and wider than the prompt
    /// marker so that wrapped input still has a column to land in.
    pub open spec fn wf(&self) -> bool {
        &&& self.height >= 1
        &&& self.width > INPUT_START_COL
    }
}

/// A physical `(col, row)` cursor position within the viewport.
#[derive(Clone, Copy, Debug, PartialEq, Eq, Structural)]
pub struct CursorPosition {
    pub col: usize,
    pub row: usize,
}

/// The tracked cursor: its current position, the last explicitly saved
/// position, the viewport row where buffer position 0 sits for the current
/// prompt, and the terminal bound.
#[derive(Clone, Copy, Debug, PartialEq, Eq, Structural)]
pub struct Cursor {
    pub pos: CursorPosition,
    pub saved: CursorPosition,
    pub starting_row: usize,
    pub bound: Bound,
}

/// The row after `row`, pinned to the last visible row of a viewport of
/// `height` rows: the physical terminal scrolls rather than move below it.
pub open spec fn next_row(row: usize, height: usize) -> usize {
    if row + 1 < height {
        (row + 1) as usize
    } else {
        (height - 1) as usize
    }
}

/// `a - b`, saturating at zero.
pub open spec fn sat_sub(a: int, b: int) -> int {
    if a >= b {
        a - b
    } else {
        0
    }
}

/// By how many rows projected content starting at `row` and adding
/// `new_lines` further rows overflows a viewport of `height` rows: the
/// minimal scroll that brings it back within bounds.
pub open spec fn overflow_amount(row: int, new_lines: int, height: int) -> int {
    sat_sub(row + new_lines, height - 1)
}

/// The scroll amount is never negative, and it is the minimal value that
/// brings the projected content row `row + new_lines` back within the
/// viewport's last visible row; in particular a zero overflow means the
/// content already fits.
pub proof fn lemma_overflow_amount_minimal(row: int, new_lines: int, height: int)
    requires
        0 <= row,
        0 <= new_lines,
        1 <= height,
    ensures
        overflow_amount(row, new_lines, height) >= 0,
        row + new_lines - overflow_amount(row, new_lines, height) <= height - 1,
        overflow_amount(row, new_lines, height) == 0 ==> row + new_lines <= height - 1,
        overflow_amount(row, new_lines, height) > 0 ==> row + new_lines - overflow_amount(
            row,
            new_lines,
            height,
        ) == height - 1,
{
}

impl Cursor {
    /// The cursor invariant: both tracked positions stay within the
    /// viewport, as does the starting row.
    pub open spec fn wf(&self) -> bool {
        &&& self.bound.wf()
        &&& self.pos.row < self.bound.height
        &&& self.pos.col <= self.bound.width
        &&& self.saved.row < self.bound.height
        &&& self.saved.col <= self.bound.width
        &&& self.starting_row < self.bound.height
    }

    /// A fresh cursor at the origin of the given viewport.
    pub fn new(bound: Bound) -> (r: Cursor)
        requires
            bound.wf(),
        ensures
            r.wf(),
            r.bound == bound,
            r.pos == (CursorPosition { col: 0, row: 0 }),
            r.saved == (CursorPosition { col: 0, row: 0 }),
            r.starting_row == 0,
    {
        Cursor {
            pos: CursorPosition { col: 0, row: 0 },
            saved: CursorPosition { col: 0, row: 0 },
            starting_row: 0,
            bound,
        }
    }

    /// The model of scrolling up by `n` rows: every row reference shifts up
    /// by `n`, saturating at the top.
    pub open spec fn spec_scroll_up(self, n: int) -> Cursor {
        Cursor {
            pos: CursorPosition { col: self.pos.col, row: sat_sub(self.pos.row as int, n) as usize },
            saved: CursorPosition {
                col: self.saved.col,
                row: sat_sub(self.saved.row as int, n) as usize,
            },
            starting_row: sat_sub(self.starting_row as int, n) as usize,
            bound: self.bound,
        }
    }

    /// Shifts all row bookkeeping up by `n` rows after the terminal
    /// scrolled by that amount, saturating at the top of the viewport.
    pub fn scroll_up(&mut self, n: usize)
        requires
            old(self).wf(),
        ensures
            final(self).wf(),
            *final(self) == old(self).spec_scroll_up(n as int),
    {
        self.pos.row = if self.pos.row >= n {
            self.pos.row - n
        } else {
            0
        };
        self.saved.row = if self.saved.row >= n {
            self.saved.row - n
        } else {
            0
        };
        self.starting_row = if self.starting_row >= n {
            self.starting_row - n
        } else {
            0
        };
    }

    /// By how many rows `new_lines` further rows of content would overflow
    /// the viewport from the current row.
    pub fn screen_height_overflow_by_new_lines(&self, new_lines: usize) -> (r: usize)
        requires
            self.wf(),
        ensures
            r as int == overflow_amount(self.pos.row as int, new_lines as int, self.bound.height as int),
    {
        let avail = self.bound.height - 1 - self.pos.row;
        if new_lines > avail {
            new_lines - avail
        } else {
            0
        }
    }

    /// The model of advancing to the start of the next row, pinned at the
    /// bottom of the viewport.
    pub open spec fn spec_next_row_start(self) -> Cursor {
        Cursor {
            pos: CursorPosition { col: 0, row: next_row(self.pos.row, self.bound.height) },
            ..self
        }
    }

    /// Moves to the start of the next physical row, pinned at the bottom of
    /// the viewport.
    pub fn goto_next_row_terminal_start(&mut self)
        requires
            old(self).wf(),
        ensures
            final(self).wf(),
            *final(self) == old(self).spec_next_row_start(),
    {
        self.pos.col = 0;
        if self.pos.row + 1 < self.bound.height {
            self.pos.row = self.pos.row + 1;
        } else {
            self.pos.row = self.bound.height - 1;
        }
    }

    /// Records the current row as the reference row for subsequent
    /// overflow bookkeeping.
    pub fn use_current_row_as_starting_row(&mut self)
        requires
            old(self).wf(),
        ensures
            final(self).wf(),
            *final(self) == (Cursor { starting_row: old(self).pos.row, ..*old(self) }),
    {
        self.starting_row = self.pos.row;
    }

    /// Saves the current position for a later restore.
    pub fn save_position(&mut self)
        requires
            old(self).wf(),
        ensures
            final(self).wf(),
            *final(self) == (Cursor { saved: old(self).pos, ..*old(self) }),
    {
        self.saved = self.pos;
    }

    /// Restores the last saved position.
    pub fn restore_position(&mut self)
        requires
            old(self).wf(),
        ensures
            final(self).wf(),
            *final(self) == (Cursor { pos: old(self).saved, ..*old(self) }),
    {
        self.pos = self.saved;
    }

    /// True if the tracked cursor sits at column `col`.
    pub fn is_at_col(&self, col: usize) -> (r: bool)
        ensures
            r == (self.pos.col == col),
    {
        self.pos.col == col
    }

    /// The model of a saturating move: coordinates beyond the viewport are
    /// pinned to its edges rather than rejected.
    pub open spec fn spec_move_to(self, col: int, row: int) -> Cursor {
        Cursor {
            pos: CursorPosition {
                col: if col <= self.bound.width as int {
                    col as usize
                } else {
                    self.bound.width
                },
                row: if row < self.bound.height as int {
                    row as usize
                } else {
                    (self.bound.height - 1) as usize
                },
            },
            ..self
        }
    }

    /// Moves the tracked cursor to `(col, row)`, saturating at the
    /// viewport's edges.
    pub fn move_to(&mut self, col: usize, row: usize)
        requires
            old(self).wf(),
        ensures
            final(self).wf(),
            *final(self) == old(self).spec_move_to(col as int, row as int),
    {
        self.pos.col = if col <= self.bound.width {
            col
        } else {
            self.bound.width
        };
        self.pos.row = if row < self.bound.height {
            row
        } else {
            self.bound.height - 1
        };
    }
}

} // verus!
