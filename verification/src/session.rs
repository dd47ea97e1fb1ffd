//! The session context: the one edit buffer, the one viewport/cursor state,
//! the color options, and the queue of terminal operations the engine has
//! decided on. The engine never touches the physical terminal itself: it
//! appends operations to the queue, and the surrounding program drains the
//! queue and performs them.
use vstd::prelude::*;

use crate::buffer::Buffer;
use crate::cursor::{Bound, Cursor, CursorPosition, INPUT_START_COL};
use crate::printer::{Color, PrinterItemType};

verus! {

/// One operation against the physical terminal, decided by the engine and
/// performed by the surrounding program.
#[derive(Clone, Debug)]
pub enum TermOp {
    /// Write the text at the terminal cursor.
    Write(String),
    /// Set the foreground color for subsequent writes.
    SetColor(Color),
    /// Move the terminal cursor to `(col, row)`.
    MoveTo(usize, usize),
    /// Scroll the terminal up by the given number of rows.
    ScrollUp(usize),
    /// Clear from the terminal cursor to the end of the screen.
    ClearFromCursorDown,
    /// Clear from the terminal cursor to the end of the line.
    ClearUntilNewLine,
    /// Hide the terminal cursor.
    HideCursor,
    /// Show the terminal cursor.
    ShowCursor,
    /// Ask the terminal to remember its cursor position.
    SavePosition,
    /// Ask the terminal to return to the remembered position.
    RestorePosition,
}

/// The model of a terminal operation: texts as character sequences.
#[verifier::ext_equal]
pub enum OpModel {
    Write(Seq<char>),
    SetColor(Color),
    MoveTo(int, int),
    ScrollUp(int),
    ClearFromCursorDown,
    ClearUntilNewLine,
    HideCursor,
    ShowCursor,
    SavePosition,
    RestorePosition,
}

impl View for TermOp {
    type V = OpModel;

    open spec fn view(&self) -> OpModel {
        match self {
            TermOp::Write(s) => OpModel::Write(s@),
            TermOp::SetColor(c) => OpModel::SetColor(*c),
            TermOp::MoveTo(col, row) => OpModel::MoveTo(*col as int, *row as int),
            TermOp::ScrollUp(n) => OpModel::ScrollUp(*n as int),
            TermOp::ClearFromCursorDown => OpModel::ClearFromCursorDown,
            TermOp::ClearUntilNewLine => OpModel::ClearUntilNewLine,
            TermOp::HideCursor => OpModel::HideCursor,
            TermOp::ShowCursor => OpModel::ShowCursor,
            TermOp::SavePosition => OpModel::SavePosition,
            TermOp::RestorePosition => OpModel::RestorePosition,
        }
    }
}

/// The model of a queue of terminal operations.
pub open spec fn ops_model(v: Seq<TermOp>) -> Seq<OpModel> {
    v.map_values(|o: TermOp| o@)
}

/// Appending one operation appends its model.
pub proof fn lemma_ops_model_push(v: Seq<TermOp>, op: TermOp)
    ensures
        ops_model(v.push(op)) == ops_model(v).push(op@),
{
    assert forall|i: int| 0 <= i < v.len() + 1 implies ops_model(v.push(op))[i] == ops_model(
        v,
    ).push(op@)[i] by {
        if i < v.len() {
            assert(v.push(op)[i] == v[i]);
        }
    }
    assert(ops_model(v.push(op)) =~~= ops_model(v).push(op@));
}

/// The color assigned to each semantic output class.
#[derive(Clone, Copy, Debug, PartialEq, Eq, Structural)]
pub struct Options {
    pub eval_color: Color,
    pub ok_color: Color,
    pub warn_color: Color,
    pub out_color: Color,
    pub shell_color: Color,
    pub err_color: Color,
}

impl Default for Options {
    /// The stock palette.
    fn default() -> (r: Options)
        ensures
            r == (Options {
                eval_color: Color::White,
                ok_color: Color::Blue,
                warn_color: Color::Cyan,
                out_color: Color::Red,
                shell_color: Color::Green,
                err_color: Color::Red,
            }),
    {
        Options {
            eval_color: Color::White,
            ok_color: Color::Blue,
            warn_color: Color::Cyan,
            out_color: Color::Red,
            shell_color: Color::Green,
            err_color: Color::Red,
        }
    }
}

/// The color a non-layout class resolves to: the option table's entry, the
/// explicit override for `Custom(Some(c))`, and the default white for
/// `Custom(None)`. A layout newline is never colored; its resolution is
/// never consulted.
pub open spec fn spec_resolve_color(t: PrinterItemType, options: Options) -> Color {
    match t {
        PrinterItemType::Eval => options.eval_color,
        PrinterItemType::Success => options.ok_color,
        PrinterItemType::Warn => options.warn_color,
        PrinterItemType::Out => options.out_color,
        PrinterItemType::Shell => options.shell_color,
        PrinterItemType::Error => options.err_color,
        PrinterItemType::NewLine => Color::White,
        PrinterItemType::Custom(Some(c)) => c,
        PrinterItemType::Custom(None) => Color::White,
    }
}

/// Resolves a class to its presentation color.
pub fn resolve_color(t: &PrinterItemType, options: &Options) -> (r: Color)
    requires
        !(t is NewLine),
    ensures
        r == spec_resolve_color(*t, *options),
{
    match t {
        PrinterItemType::Eval => options.eval_color,
        PrinterItemType::Success => options.ok_color,
        PrinterItemType::Warn => options.warn_color,
        PrinterItemType::Out => options.out_color,
        PrinterItemType::Shell => options.shell_color,
        PrinterItemType::Error => options.err_color,
        PrinterItemType::NewLine => Color::White,
        PrinterItemType::Custom(Some(c)) => *c,
        PrinterItemType::Custom(None) => Color::White,
    }
}

/// The session context: the edit buffer, the tracked cursor, the palette,
/// the pending terminal operations, and the lock that suppresses background
/// highlighting refreshes while a colored echo is in flight.
pub struct IRust {
    pub buffer: Buffer,
    pub cursor: Cursor,
    pub options: Options,
    pub ops: Vec<TermOp>,
    pub racer_lock: bool,
}

impl IRust {
    /// The session invariant: buffer and cursor are both well formed.
    pub open spec fn wf(&self) -> bool {
        &&& self.buffer.wf()
        &&& self.cursor.wf()
    }

    /// True of two sessions that differ at most in their pending terminal
    /// operations.
    pub open spec fn same_but_ops(self, other: IRust) -> bool {
        &&& self.buffer == other.buffer
        &&& self.cursor == other.cursor
        &&& self.options == other.options
        &&& self.racer_lock == other.racer_lock
    }

    /// A fresh session over the given viewport: an empty buffer whose wrap
    /// width is the columns left of the prompt marker, the cursor at the
    /// origin, and no pending operations.
    pub fn new(bound: Bound, options: Options) -> (r: IRust)
        requires
            bound.wf(),
        ensures
            r.wf(),
            r.buffer.content() == Seq::<char>::empty(),
            r.buffer.pos() == 0,
            r.buffer.width() == bound.width - INPUT_START_COL,
            r.cursor == (Cursor {
                pos: CursorPosition { col: 0, row: 0 },
                saved: CursorPosition { col: 0, row: 0 },
                starting_row: 0,
                bound,
            }),
            r.options == options,
            ops_model(r.ops@) == Seq::<OpModel>::empty(),
            r.racer_lock == false,
    {
        let r = IRust {
            buffer: Buffer::new(bound.width - INPUT_START_COL),
            cursor: Cursor::new(bound),
            options,
            ops: Vec::new(),
            racer_lock: false,
        };
        proof {
            assert(ops_model(r.ops@) =~~= Seq::<OpModel>::empty());
        }
        r
    }

    /// True if `self` is `prior` with the cursor replaced by `c` and the
    /// operation models `emitted` appended to the pending queue: the shape
    /// of every rendering step's effect.
    pub open spec fn applied(self, prior: IRust, c: Cursor, emitted: Seq<OpModel>) -> bool {
        &&& self.buffer == prior.buffer
        &&& self.options == prior.options
        &&& self.racer_lock == prior.racer_lock
        &&& self.cursor == c
        &&& ops_model(self.ops@) == ops_model(prior.ops@) + emitted
    }

    /// Queues one terminal operation.
    pub fn emit(&mut self, op: TermOp)
        ensures
            final(self).same_but_ops(*old(self)),
            ops_model(final(self).ops@) == ops_model(old(self).ops@).push(op@),
    {
        let ghost prior = self.ops@;
        let ghost o = op@;
        self.ops.push(op);
        proof {
            lemma_ops_model_push(prior, self.ops@.last());
        }
    }

    /// Hands the pending terminal operations to the caller, in order,
    /// leaving the queue empty. The surrounding program performs them
    /// against the physical terminal.
    pub fn take_ops(&mut self) -> (r: Vec<TermOp>)
        ensures
            r@ == old(self).ops@,
            final(self).ops@ == Seq::<TermOp>::empty(),
            final(self).same_but_ops(*old(self)),
    {
        let mut v: Vec<TermOp> = Vec::new();
        core::mem::swap(&mut v, &mut self.ops);
        v
    }
}

} // verus!
