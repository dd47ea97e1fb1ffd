//! The edit buffer: an ordered sequence of characters with an insertion
//! cursor and a fixed wrap width, plus the mapping from buffer indices
//! to wrap-aware physical coordinates.
use vstd::prelude::*;

verus! {

/// One step of the coordinate walk: advance a `(col, row)` pair over one
/// character. A newline resets the column and moves to the next row; any
/// other character advances the column; reaching the wrap width resets the
/// column and moves to the next row.
pub open spec fn coord_step(xy: (nat, nat), c: char, width: nat) -> (nat, nat) {
    let x = if c == '\n' { 0nat } else { (xy.0 + 1) as nat };
    let y = if c == '\n' { (xy.1 + 1) as nat } else { xy.1 };
    if x == width {
        (0nat, (y + 1) as nat)
    } else {
        (x, y)
    }
}

/// The `(col, row)` coordinate of buffer index `p`: the walk of
/// `coord_step` over the first `p` characters of `s`, starting at `(0, 0)`.
pub open spec fn coord_of(s: Seq<char>, width: nat, p: nat) -> (nat, nat)
    decreases p,
{
    if p == 0 {
        (0nat, 0nat)
    } else {
        coord_step(coord_of(s, width, (p - 1) as nat), s[p - 1], width)
    }
}

/// The coordinate of index 0 is the origin, whatever the content and width.
pub proof fn lemma_coord_zero(s: Seq<char>, width: nat)
    ensures
        coord_of(s, width, 0) == (0nat, 0nat),
{
}

/// The column of every coordinate is strictly below the wrap width.
pub proof fn lemma_coord_col_lt_width(s: Seq<char>, width: nat, p: nat)
    requires
        width >= 1,
    ensures
        coord_of(s, width, p).0 < width,
    decreases p,
{
    if p > 0 {
        lemma_coord_col_lt_width(s, width, (p - 1) as nat);
    }
}

/// The coordinate of an index is a function of the content, the width and
/// the index alone: two results that both satisfy its postcondition
/// are identical.
pub proof fn lemma_coord_deterministic(
    s: Seq<char>,
    width: nat,
    p: nat,
    r1: (nat, nat),
    r2: (nat, nat),
)
    requires
        r1 == coord_of(s, width, p),
        r2 == coord_of(s, width, p),
    ensures
        r1 == r2,
{
}

/// The edit buffer. `buffer` holds the characters in order, `buffer_pos`
/// is the insertion cursor, and `max_line_char` is the wrap width: the
/// number of columns before a physical line wrap occurs.
pub struct Buffer {
    pub buffer: Vec<char>,
    pub buffer_pos: usize,
    pub max_line_char: usize,
}

impl Buffer {
    /// The buffer's invariant: the cursor stays within `[0, len]` and the
    /// wrap width is positive.
    pub open spec fn wf(&self) -> bool {
        &&& self.buffer_pos <= self.buffer@.len()
        &&& self.max_line_char >= 1
    }

    /// The content as a mathematical sequence.
    pub open spec fn content(&self) -> Seq<char> {
        self.buffer@
    }

    /// The insertion cursor.
    pub open spec fn pos(&self) -> nat {
        self.buffer_pos as nat
    }

    /// The wrap width.
    pub open spec fn width(&self) -> nat {
        self.max_line_char as nat
    }

    /// Creates an empty buffer with the given wrap width.
    pub fn new(max_line_char: usize) -> (r: Buffer)
        requires
            max_line_char >= 1,
        ensures
            r.wf(),
            r.content() == Seq::<char>::empty(),
            r.pos() == 0,
            r.width() == max_line_char as nat,
    {
        Buffer { buffer: Vec::new(), buffer_pos: 0, max_line_char }
    }

    /// Inserts `c` at the cursor, then advances the cursor past it.
    pub fn insert(&mut self, c: char)
        requires
            old(self).wf(),
        ensures
            final(self).wf(),
            final(self).content() == old(self).content().insert(old(self).pos() as int, c),
            final(self).pos() == old(self).pos() + 1,
            final(self).width() == old(self).width(),
    {
        self.buffer.insert(self.buffer_pos, c);
        self.move_forward();
    }

    /// Advances the cursor by one. Callers must stay within the content:
    /// check `is_at_end` first.
    pub fn move_forward(&mut self)
        requires
            old(self).wf(),
            old(self).pos() < old(self).content().len(),
        ensures
            final(self).wf(),
            final(self).content() == old(self).content(),
            final(self).pos() == old(self).pos() + 1,
            final(self).width() == old(self).width(),
    {
        proof {
            broadcast use vstd::std_specs::vec::axiom_spec_len;

            assert(self.buffer.len() == self.buffer@.len());
        }
        self.buffer_pos = self.buffer_pos + 1;
    }

    /// Moves the cursor back by one; a no-op at position 0.
    pub fn move_backward(&mut self)
        requires
            old(self).wf(),
        ensures
            final(self).wf(),
            final(self).content() == old(self).content(),
            final(self).pos() == if old(self).pos() == 0 { 0nat } else { (old(self).pos() - 1) as nat },
            final(self).width() == old(self).width(),
    {
        if self.buffer_pos != 0 {
            self.buffer_pos = self.buffer_pos - 1;
        }
    }

    /// The number of characters in the buffer.
    pub fn len(&self) -> (r: usize)
        ensures
            r as nat == self.content().len(),
    {
        self.buffer.len()
    }

    /// True if the buffer holds no characters.
    pub fn is_empty(&self) -> (r: bool)
        ensures
            r == (self.content().len() == 0),
    {
        self.len() == 0
    }

    /// Inserts every character of `s` at the cursor, in order, and leaves
    /// the cursor right after the inserted run.
    pub fn insert_str(&mut self, s: &str)
        requires
            old(self).wf(),
        ensures
            final(self).wf(),
            final(self).content() == old(self).content().take(old(self).pos() as int) + s@
                + old(self).content().skip(old(self).pos() as int),
            final(self).pos() == old(self).pos() + s@.len(),
            final(self).width() == old(self).width(),
    {
        let ghost orig = *self;
        let n = s.unicode_len();
        let mut i: usize = 0;
        while i < n
            invariant
                orig.wf(),
                self.wf(),
                i <= n,
                n as nat == s@.len(),
                self.content() == orig.content().take(orig.pos() as int) + s@.take(i as int)
                    + orig.content().skip(orig.pos() as int),
                self.pos() == orig.pos() + i,
                self.width() == orig.width(),
            decreases n - i,
        {
            let c = s.get_char(i);
            self.insert(c);
            proof {
                assert(self.content() =~= orig.content().take(orig.pos() as int) + s@.take(
                    i as int + 1,
                ) + orig.content().skip(orig.pos() as int));
            }
            i = i + 1;
        }
        proof {
            assert(s@.take(n as int) =~= s@);
        }
    }

    /// Places the cursor at `pos`, which must lie within `[0, len]`.
    pub fn set_buffer_pos(&mut self, pos: usize)
        requires
            old(self).wf(),
            pos as nat <= old(self).content().len(),
        ensures
            final(self).wf(),
            final(self).content() == old(self).content(),
            final(self).pos() == pos as nat,
            final(self).width() == old(self).width(),
    {
        self.buffer_pos = pos;
    }

    /// Removes and returns the character at the cursor, if one exists;
    /// otherwise a no-op returning nothing. The cursor does not move.
    pub fn remove_current_char(&mut self) -> (r: Option<char>)
        requires
            old(self).wf(),
        ensures
            final(self).wf(),
            final(self).pos() == old(self).pos(),
            final(self).width() == old(self).width(),
            old(self).pos() < old(self).content().len() ==> {
                &&& r == Some(old(self).content()[old(self).pos() as int])
                &&& final(self).content() == old(self).content().remove(old(self).pos() as int)
            },
            old(self).pos() >= old(self).content().len() ==> {
                &&& r is None
                &&& final(self).content() == old(self).content()
            },
    {
        if self.buffer_pos < self.buffer.len() {
            let character = self.buffer.remove(self.buffer_pos);
            Some(character)
        } else {
            None
        }
    }

    /// The character one past the cursor, if any.
    pub fn next_char(&self) -> (r: Option<&char>)
        requires
            self.wf(),
        ensures
            (r is Some) == (self.pos() + 1 < self.content().len()),
            r matches Some(c) ==> *c == self.content()[self.pos() as int + 1],
    {
        if self.buffer_pos < self.buffer.len() && self.buffer_pos + 1 < self.buffer.len() {
            Some(&self.buffer[self.buffer_pos + 1])
        } else {
            None
        }
    }

    /// The character at the cursor, if any.
    pub fn current_char(&self) -> (r: Option<&char>)
        requires
            self.wf(),
        ensures
            (r is Some) == (self.pos() < self.content().len()),
            r matches Some(c) ==> *c == self.content()[self.pos() as int],
    {
        if self.buffer_pos < self.buffer.len() {
            Some(&self.buffer[self.buffer_pos])
        } else {
            None
        }
    }

    /// The character just before the cursor; nothing at position 0.
    pub fn previous_char(&self) -> (r: Option<&char>)
        requires
            self.wf(),
        ensures
            (r is Some) == (self.pos() > 0),
            r matches Some(c) ==> *c == self.content()[self.pos() as int - 1],
    {
        if self.buffer_pos > 0 {
            Some(&self.buffer[self.buffer_pos - 1])
        } else {
            None
        }
    }

    /// Empties the buffer and resets the cursor to 0.
    pub fn clear(&mut self)
        requires
            old(self).wf(),
        ensures
            final(self).wf(),
            final(self).content() == Seq::<char>::empty(),
            final(self).pos() == 0,
            final(self).width() == old(self).width(),
    {
        self.buffer.clear();
        self.buffer_pos = 0;
    }

    /// True if the buffer is empty or the character before the cursor is a
    /// newline or a tab: the cursor sits at the start of a textual line.
    pub fn is_at_string_line_start(&self) -> (r: bool)
        requires
            self.wf(),
        ensures
            r == (self.content().len() == 0 || (self.pos() > 0 && (self.content()[self.pos() as int - 1]
                == '\n' || self.content()[self.pos() as int - 1] == '\t'))),
    {
        if self.is_empty() {
            true
        } else {
            match self.previous_char() {
                Some(c) => *c == '\n' || *c == '\t',
                None => false,
            }
        }
    }

    /// True if the cursor is at position 0.
    pub fn is_at_start(&self) -> (r: bool)
        ensures
            r == (self.pos() == 0),
    {
        self.buffer_pos == 0
    }

    /// True if the cursor is at the end of the content.
    pub fn is_at_end(&self) -> (r: bool)
        ensures
            r == (self.pos() == self.content().len()),
    {
        self.buffer_pos == self.buffer.len()
    }

    /// Sets the cursor to position 0.
    pub fn goto_start(&mut self)
        ensures
            final(self).wf() <== old(self).wf(),
            final(self).content() == old(self).content(),
            final(self).pos() == 0,
            final(self).width() == old(self).width(),
    {
        self.buffer_pos = 0;
    }

    /// Sets the cursor to the end of the content.
    pub fn goto_end(&mut self)
        ensures
            final(self).wf() <== old(self).wf(),
            final(self).content() == old(self).content(),
            final(self).pos() == old(self).content().len(),
            final(self).width() == old(self).width(),
    {
        self.buffer_pos = self.buffer.len();
    }

    /// Appends every character of `str` at the end of the content and
    /// leaves the cursor at the new end.
    pub fn _push_str(&mut self, str: &str)
        requires
            old(self).wf(),
        ensures
            final(self).wf(),
            final(self).content() == old(self).content() + str@,
            final(self).pos() == final(self).content().len(),
            final(self).width() == old(self).width(),
    {
        let ghost orig = *self;
        let n = str.unicode_len();
        let mut i: usize = 0;
        while i < n
            invariant
                i <= n,
                n as nat == str@.len(),
                self.buffer@ == orig.buffer@ + str@.take(i as int),
                self.max_line_char == orig.max_line_char,
            decreases n - i,
        {
            let c = str.get_char(i);
            self.buffer.push(c);
            proof {
                assert(self.buffer@ =~= orig.buffer@ + str@.take(i as int + 1));
            }
            i = i + 1;
        }
        proof {
            assert(str@.take(n as int) =~= str@);
        }
        self.buffer_pos = self.buffer.len();
    }

    /// The wrap-aware `(col, row)` coordinate of buffer index `buffer_pos`:
    /// the column advances per character, resets on a newline (which also
    /// advances the row), and wraps to the next row whenever it reaches the
    /// wrap width.
    pub fn buffer_pos_to_relative_cursor_pos(&self, buffer_pos: usize) -> (r: (usize, usize))
        requires
            self.wf(),
            buffer_pos as nat <= self.content().len(),
        ensures
            (r.0 as nat, r.1 as nat) == coord_of(self.content(), self.width(), buffer_pos as nat),
            r.0 < self.width(),
    {
        let mut x: usize = 0;
        let mut y: usize = 0;
        let mut i: usize = 0;
        proof {
            broadcast use vstd::std_specs::vec::axiom_spec_len;

            assert(self.buffer.len() == self.buffer@.len());
        }
        while i < buffer_pos
            invariant
                self.wf(),
                i <= buffer_pos,
                buffer_pos as nat <= self.content().len(),
                self.buffer.len() == self.buffer@.len(),
                (x as nat, y as nat) == coord_of(self.content(), self.width(), i as nat),
                x < self.width(),
                y <= i,
            decreases buffer_pos - i,
        {
            let c = self.buffer[i];
            if c == '\n' {
                x = 0;
                y = y + 1;
            } else {
                x = x + 1;
            }
            if x == self.max_line_char {
                x = 0;
                y = y + 1;
            }
            i = i + 1;
        }
        (x, y)
    }

    /// The coordinate of the end of the content.
    pub fn last_buffer_pos_to_relative_cursor_pos(&self) -> (r: (usize, usize))
        requires
            self.wf(),
        ensures
            (r.0 as nat, r.1 as nat) == coord_of(
                self.content(),
                self.width(),
                self.content().len(),
            ),
            r.0 < self.width(),
    {
        let n = self.buffer.len();
        self.buffer_pos_to_relative_cursor_pos(n)
    }

    /// Creates a buffer holding the characters of `str`, cursor at 0, with
    /// the given wrap width.
    pub fn from_str(str: &str, max_line_char: usize) -> (r: Buffer)
        requires
            max_line_char >= 1,
        ensures
            r.wf(),
            r.content() == str@,
            r.pos() == 0,
            r.width() == max_line_char as nat,
    {
        let mut b = Buffer::new(max_line_char);
        b._push_str(str);
        b.goto_start();
        proof {
            assert(b.content() =~= str@);
        }
        b
    }

    /// The character at index `idx`, if any.
    pub fn _get(&self, idx: usize) -> (r: Option<&char>)
        ensures
            (r is Some) == ((idx as nat) < self.content().len()),
            r matches Some(c) ==> *c == self.content()[idx as int],
    {
        if idx < self.buffer.len() {
            Some(&self.buffer[idx])
        } else {
            None
        }
    }

    /// The last character of the content, if any.
    pub fn _last(&self) -> (r: Option<&char>)
        ensures
            (r is Some) == (self.content().len() > 0),
            r matches Some(c) ==> *c == self.content()[self.content().len() - 1],
    {
        if self.buffer.len() > 0 {
            Some(&self.buffer[self.buffer.len() - 1])
        } else {
            None
        }
    }

    /// Renders the content as a single string.
    pub fn to_text(&self) -> (r: String)
        ensures
            r@ == self.content(),
    {
        let mut out = String::new();
        let mut i: usize = 0;
        let n = self.buffer.len();
        while i < n
            invariant
                i <= n,
                n as nat == self.buffer@.len(),
                out@ == self.buffer@.take(i as int),
            decreases n - i,
        {
            crate::push_char(&mut out, self.buffer[i]);
            proof {
                assert(out@ =~= self.buffer@.take(i as int + 1));
            }
            i = i + 1;
        }
        proof {
            assert(self.buffer@.take(n as int) =~= self.buffer@);
        }
        out
    }
}

/// Inserting a character at a position and then removing the character at
/// that same position restores the original sequence: the model behind the
/// buffer's insert / move-backward / remove-current round trip.
pub proof fn lemma_insert_remove_inverse(s: Seq<char>, p: int, c: char)
    requires
        0 <= p <= s.len(),
    ensures
        s.insert(p, c).remove(p) == s,
{
    assert(s.insert(p, c).remove(p) =~= s);
}

} // verus!
