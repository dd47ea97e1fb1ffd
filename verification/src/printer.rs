//! The classified output model: an ordered batch of text fragments, each
//! tagged with a semantic class, exchanged between producers (evaluator,
//! highlighter) and the renderer. A batch is consumed front-to-back.
use vstd::prelude::*;

verus! {

/// A terminal color. Mirrors the palette of the terminal backend as plain
/// data, so that classified items can carry an explicit color through the
/// core without the core touching the terminal.
#[derive(Clone, Copy, Debug, PartialEq, Eq, Structural)]
pub enum Color {
    Black,
    DarkGrey,
    Red,
    DarkRed,
    Green,
    DarkGreen,
    Yellow,
    DarkYellow,
    Blue,
    DarkBlue,
    Magenta,
    DarkMagenta,
    Cyan,
    DarkCyan,
    White,
    Grey,
    Rgb { r: u8, g: u8, b: u8 },
    AnsiValue(u8),
}

/// The semantic class of an output fragment. `NewLine` is a pure layout
/// instruction and carries no text; `Custom(None)` asks for the default
/// color, `Custom(Some(c))` overrides it.
#[derive(Clone, Copy, Debug)]
pub enum PrinterItemType {
    Eval,
    Success,
    Warn,
    Out,
    Shell,
    Error,
    NewLine,
    Custom(Option<Color>),
}

/// One classified output fragment: a text and its class.
#[derive(Clone, Debug)]
pub struct PrinterItem {
    pub string: String,
    pub string_type: PrinterItemType,
}

/// The mathematical model of an item: its text as a character sequence and
/// its class.
#[verifier::ext_equal]
pub struct ItemView {
    pub text: Seq<char>,
    pub class: PrinterItemType,
}

impl View for PrinterItem {
    type V = ItemView;

    open spec fn view(&self) -> ItemView {
        ItemView { text: self.string@, class: self.string_type }
    }
}

impl PrinterItem {
    /// Creates an item from a text and a class.
    pub fn new(string: String, string_type: PrinterItemType) -> (r: PrinterItem)
        ensures
            r@ == (ItemView { text: string@, class: string_type }),
    {
        PrinterItem { string, string_type }
    }
}

impl Default for PrinterItem {
    /// The default item is a pure layout newline: no text.
    fn default() -> (r: PrinterItem)
        ensures
            r@ == newline_item(),
    {
        PrinterItem { string: String::new(), string_type: PrinterItemType::NewLine }
    }
}

/// The model of a layout newline item.
pub open spec fn newline_item() -> ItemView {
    ItemView { text: Seq::<char>::empty(), class: PrinterItemType::NewLine }
}

/// The model of a default-colored text item, as the batch splitter builds
/// them.
pub open spec fn text_item(t: Seq<char>) -> ItemView {
    ItemView { text: t, class: PrinterItemType::Custom(None) }
}

/// A render batch: an ordered sequence of classified items, consumed
/// exactly once, front to back.
#[derive(Clone, Debug)]
pub struct Printer {
    pub items: Vec<PrinterItem>,
}

impl View for Printer {
    type V = Seq<ItemView>;

    open spec fn view(&self) -> Seq<ItemView> {
        self.items@.map_values(|it: PrinterItem| it@)
    }
}

impl Default for Printer {
    /// The default batch is empty.
    fn default() -> (r: Printer)
        ensures
            r@ == Seq::<ItemView>::empty(),
    {
        let r = Printer { items: Vec::new() };
        proof {
            assert(r@ =~~= Seq::<ItemView>::empty());
        }
        r
    }
}

impl Printer {
    /// Creates a batch holding the one given item.
    pub fn new(output: PrinterItem) -> (r: Printer)
        ensures
            r@ == seq![output@],
    {
        let ghost v = output@;
        let mut items: Vec<PrinterItem> = Vec::new();
        items.push(output);
        let r = Printer { items };
        proof {
            assert(r@ =~~= seq![v]);
        }
        r
    }

    /// Appends `num` layout newline items at the back.
    pub fn add_new_line(&mut self, num: usize)
        ensures
            final(self)@ == old(self)@ + Seq::new(num as nat, |i: int| newline_item()),
    {
        let ghost orig = *self;
        let mut k: usize = 0;
        while k < num
            invariant
                k <= num,
                self@ == orig@ + Seq::new(k as nat, |i: int| newline_item()),
            decreases num - k,
        {
            let ghost prev = *self;
            self.items.push(PrinterItem::default());
            proof {
                assert(self.items@ == prev.items@.push(self.items@.last()));
                assert(self.items@.last()@ == newline_item());
                assert(self@.len() == prev@.len() + 1);
                assert forall|i: int| 0 <= i < self@.len() implies self@[i] == prev@.push(
                    newline_item(),
                )[i] by {
                    if i < prev@.len() {
                        assert(self.items@[i] == prev.items@[i]);
                    }
                }
                assert(self@ =~~= orig@ + Seq::new((k + 1) as nat, |i: int| newline_item()));
            }
            k = k + 1;
        }
    }

    /// Appends one item at the back.
    pub fn push(&mut self, output: PrinterItem)
        ensures
            final(self)@ == old(self)@.push(output@),
    {
        let ghost v = output@;
        self.items.push(output);
        proof {
            assert(self@ =~~= old(self)@.push(v));
        }
    }

    /// Removes and returns the last item, if any.
    pub fn pop(&mut self) -> (r: Option<PrinterItem>)
        ensures
            old(self)@.len() > 0 ==> {
                &&& r matches Some(it) && it@ == old(self)@.last()
                &&& final(self)@ == old(self)@.drop_last()
            },
            old(self)@.len() == 0 ==> r is None && final(self)@ == old(self)@,
    {
        let r = self.items.pop();
        proof {
            if old(self)@.len() > 0 {
                assert(self@ =~~= old(self)@.drop_last());
            } else {
                assert(self@ =~~= old(self)@);
            }
        }
        r
    }

    /// Moves every item of `other` onto the back of `self`, preserving
    /// order; `other` is left empty.
    pub fn append(&mut self, other: &mut Printer)
        ensures
            final(self)@ == old(self)@ + old(other)@,
            final(other)@ == Seq::<ItemView>::empty(),
    {
        self.items.append(&mut other.items);
        proof {
            assert(self@ =~~= old(self)@ + old(other)@);
            assert(other@ =~~= Seq::<ItemView>::empty());
        }
    }

    /// True if the batch holds no items.
    pub fn is_empty(&self) -> (r: bool)
        ensures
            r == (self@.len() == 0),
    {
        self.items.len() == 0
    }

    /// The number of items in the batch.
    pub fn len(&self) -> (r: usize)
        ensures
            r as nat == self@.len(),
    {
        self.items.len()
    }

    /// Removes and returns the front item, if any: the batch is a
    /// single-pass queue drained front to back.
    pub fn next_item(&mut self) -> (r: Option<PrinterItem>)
        ensures
            old(self)@.len() > 0 ==> {
                &&& r matches Some(it) && it@ == old(self)@.first()
                &&& final(self)@ == old(self)@.skip(1)
            },
            old(self)@.len() == 0 ==> r is None && final(self)@ == old(self)@,
    {
        if self.items.len() > 0 {
            let it = self.items.remove(0);
            proof {
                assert(self@ =~~= old(self)@.skip(1));
            }
            Some(it)
        } else {
            None
        }
    }

    /// Splits a raw string into a batch: one default-colored text item per
    /// line, a layout newline item after each, the final newline item
    /// suppressed when the string does not end in a newline.
    pub fn from_string(string: String) -> (r: Printer)
        ensures
            r@ == batch_of(string@),
    {
        let s: &str = string.as_str();
        let n = s.unicode_len();
        let mut out = Printer { items: Vec::new() };
        proof {
            assert(out@ =~~= Seq::<ItemView>::empty());
            assert(s@.take(0) =~~= Seq::<char>::empty());
        }
        let mut start: usize = 0;
        let mut i: usize = 0;
        while i < n
            invariant
                start <= i <= n,
                n as nat == s@.len(),
                out@ == batch_lines(s@.take(start as int)),
                start == 0 || s@[start as int - 1] == '\n',
                forall|j: int| start <= j < i ==> s@[j] != '\n',
            decreases n - i,
        {
            let c = s.get_char(i);
            if c == '\n' {
                let line = s.substring_char(start, i);
                out.push(PrinterItem::new(line.to_owned(), PrinterItemType::Custom(None)));
                out.push(PrinterItem::default());
                proof {
                    let ghost pre = s@.take(start as int);
                    let ghost seg = s@.subrange(start as int, i as int);
                    lemma_batch_lines_concat(pre, seg.push('\n'));
                    lemma_batch_lines_closed_line(seg);
                    assert(s@.take(i as int + 1) =~~= pre + seg.push('\n'));
                    assert(out@ =~~= batch_lines(pre) + seq![
                        text_item(seg),
                        newline_item(),
                    ]);
                }
                start = i + 1;
            }
            i = i + 1;
        }
        if start < n {
            let line = s.substring_char(start, n);
            out.push(PrinterItem::new(line.to_owned(), PrinterItemType::Custom(None)));
            proof {
                let ghost pre = s@.take(start as int);
                let ghost seg = s@.subrange(start as int, n as int);
                lemma_batch_lines_concat(pre, seg);
                lemma_batch_lines_open_line(seg);
                assert(s@ =~~= pre + seg);
                assert(s@[s@.len() - 1] != '\n');
                assert((batch_lines(pre) + seq![text_item(seg), newline_item()]).drop_last()
                    =~~= batch_lines(pre).push(text_item(seg)));
                assert(out@ =~~= batch_of(s@));
            }
        } else {
            proof {
                assert(s@.take(n as int) =~~= s@);
                if s@.len() > 0 {
                    assert(ends_with_newline(s@));
                }
            }
        }
        out
    }
}

/// True if no character of `s` is a newline.
pub open spec fn newline_free(s: Seq<char>) -> bool {
    forall|j: int| 0 <= j < s.len() ==> s[j] != '\n'
}

/// The index of the first newline in `s`, or `s.len()` if there is none.
pub open spec fn first_nl(s: Seq<char>) -> int
    decreases s.len(),
{
    if s.len() == 0 {
        0
    } else if s[0] == '\n' {
        0
    } else {
        1 + first_nl(s.skip(1))
    }
}

/// `first_nl` lies within `[0, len]`, points at a newline when it is below
/// `len`, and nothing before it is a newline.
pub proof fn lemma_first_nl(s: Seq<char>)
    ensures
        0 <= first_nl(s) <= s.len(),
        first_nl(s) < s.len() ==> s[first_nl(s)] == '\n',
        forall|j: int| 0 <= j < first_nl(s) ==> s[j] != '\n',
    decreases s.len(),
{
    if s.len() == 0 {
    } else if s[0] == '\n' {
    } else {
        lemma_first_nl(s.skip(1));
        let k = first_nl(s);
        if k < s.len() {
            assert(s.skip(1)[k - 1] == s[k]);
        }
        assert forall|j: int| 0 <= j < k implies s[j] != '\n' by {
            if j > 0 {
                assert(s.skip(1)[j - 1] == s[j]);
            }
        }
    }
}

/// `first_nl` is the unique index with those properties.
pub proof fn lemma_first_nl_at(s: Seq<char>, k: int)
    requires
        0 <= k <= s.len(),
        forall|j: int| 0 <= j < k ==> s[j] != '\n',
        k < s.len() ==> s[k] == '\n',
    ensures
        first_nl(s) == k,
    decreases s.len(),
{
    if s.len() == 0 {
    } else if s[0] == '\n' {
    } else {
        assert forall|j: int| 0 <= j < k - 1 implies s.skip(1)[j] != '\n' by {
            assert(s.skip(1)[j] == s[j + 1]);
        }
        if k < s.len() {
            assert(s.skip(1)[k - 1] == s[k]);
        }
        lemma_first_nl_at(s.skip(1), k - 1);
    }
}

/// The batch of a raw string with one text item and one layout newline per
/// line, including a trailing newline item for the last line.
pub open spec fn batch_lines(s: Seq<char>) -> Seq<ItemView>
    decreases s.len(),
{
    if s.len() == 0 {
        Seq::<ItemView>::empty()
    } else {
        let k = first_nl(s);
        if 0 <= k < s.len() {
            seq![text_item(s.take(k)), newline_item()] + batch_lines(s.skip(k + 1))
        } else {
            seq![text_item(s), newline_item()]
        }
    }
}

/// True if `s` ends in a newline character.
pub open spec fn ends_with_newline(s: Seq<char>) -> bool {
    s.len() > 0 && s[s.len() - 1] == '\n'
}

/// The batch built from a raw string: `batch_lines`, with the final layout
/// newline dropped when the string does not end in a newline.
pub open spec fn batch_of(s: Seq<char>) -> Seq<ItemView> {
    if s.len() == 0 || ends_with_newline(s) {
        batch_lines(s)
    } else {
        batch_lines(s).drop_last()
    }
}

/// A line closed by its newline splits into one text item and one layout
/// newline.
pub proof fn lemma_batch_lines_closed_line(line: Seq<char>)
    requires
        newline_free(line),
    ensures
        batch_lines(line.push('\n')) == seq![text_item(line), newline_item()],
{
    let s = line.push('\n');
    reveal_with_fuel(batch_lines, 2);
    assert forall|j: int| 0 <= j < line.len() implies s[j] != '\n' by {
        assert(s[j] == line[j]);
    }
    lemma_first_nl_at(s, line.len() as int);
    assert(s.take(line.len() as int) =~~= line);
    assert(s.skip(line.len() as int + 1) =~~= Seq::<char>::empty());
    assert(batch_lines(s) =~~= seq![text_item(line), newline_item()]);
}

/// A nonempty line without a closing newline still yields one text item
/// and one layout newline (the batch builder later drops that newline).
pub proof fn lemma_batch_lines_open_line(line: Seq<char>)
    requires
        newline_free(line),
        line.len() > 0,
    ensures
        batch_lines(line) == seq![text_item(line), newline_item()],
{
    lemma_first_nl_at(line, line.len() as int);
}

/// Splitting distributes over concatenation at a line boundary: when `a`
/// is empty or ends in a newline, the batch of `a + b` is the batch of `a`
/// followed by the batch of `b`.
pub proof fn lemma_batch_lines_concat(a: Seq<char>, b: Seq<char>)
    requires
        a.len() == 0 || a[a.len() - 1] == '\n',
    ensures
        batch_lines(a + b) == batch_lines(a) + batch_lines(b),
    decreases a.len(),
{
    if a.len() == 0 {
        assert(a + b =~~= b);
        assert(batch_lines(a) + batch_lines(b) =~~= batch_lines(b));
    } else {
        lemma_first_nl(a);
        let k = first_nl(a);
        assert(k < a.len());
        let s = a + b;
        assert forall|j: int| 0 <= j < k implies s[j] != '\n' by {
            assert(s[j] == a[j]);
        }
        assert(s[k] == a[k]);
        lemma_first_nl_at(s, k);
        assert(s.take(k) =~~= a.take(k));
        assert(s.skip(k + 1) =~~= a.skip(k + 1) + b);
        if k + 1 < a.len() {
            assert(a.skip(k + 1)[a.len() - k - 2] == a[a.len() - 1]);
        } else {
            assert(a.skip(k + 1).len() == 0);
        }
        lemma_batch_lines_concat(a.skip(k + 1), b);
        assert(batch_lines(a + b) =~~= batch_lines(a) + batch_lines(b));
    }
}

/// The texts of a batch: the text of each item that is not a layout
/// newline, in order.
pub open spec fn texts_of(items: Seq<ItemView>) -> Seq<Seq<char>>
    decreases items.len(),
{
    if items.len() == 0 {
        Seq::<Seq<char>>::empty()
    } else if items[0].class is NewLine {
        texts_of(items.skip(1))
    } else {
        seq![items[0].text] + texts_of(items.skip(1))
    }
}

/// The segments joined by a newline between each pair.
pub open spec fn joined(ts: Seq<Seq<char>>) -> Seq<char>
    decreases ts.len(),
{
    if ts.len() == 0 {
        Seq::<char>::empty()
    } else if ts.len() == 1 {
        ts[0]
    } else {
        ts[0] + seq!['\n'] + joined(ts.skip(1))
    }
}

/// `s` without its final newline character, if it has one.
pub open spec fn strip_final_newline(s: Seq<char>) -> Seq<char> {
    if ends_with_newline(s) {
        s.drop_last()
    } else {
        s
    }
}

/// Joining the texts of the full line split reproduces the string, up to
/// one final newline.
proof fn lemma_joined_batch_lines(s: Seq<char>)
    ensures
        joined(texts_of(batch_lines(s))) == strip_final_newline(s),
        s.len() > 0 ==> texts_of(batch_lines(s)).len() >= 1,
    decreases s.len(),
{
    if s.len() == 0 {
    } else {
        lemma_first_nl(s);
        let k = first_nl(s);
        if k == s.len() {
            reveal_with_fuel(texts_of, 4);
            let items = batch_lines(s);
            assert(items =~~= seq![text_item(s), newline_item()]);
            assert(items.skip(1) =~~= seq![newline_item()]);
            assert(seq![newline_item()].skip(1) =~~= Seq::<ItemView>::empty());
            assert(texts_of(items) =~~= seq![s]);
            assert(!ends_with_newline(s));
        } else {
            reveal_with_fuel(texts_of, 3);
            let rest = s.skip(k + 1);
            let items = batch_lines(s);
            let tail = batch_lines(rest);
            assert(items =~~= seq![text_item(s.take(k)), newline_item()] + tail);
            assert(items[0] == text_item(s.take(k)));
            assert(items.skip(1) =~~= seq![newline_item()] + tail);
            assert((seq![newline_item()] + tail).skip(1) =~~= tail);
            assert(texts_of(items) =~~= seq![s.take(k)] + texts_of(tail));
            lemma_joined_batch_lines(rest);
            if rest.len() == 0 {
                assert(texts_of(items) =~~= seq![s.take(k)]);
                assert(joined(texts_of(items)) == s.take(k));
                assert(ends_with_newline(s));
                assert(s.drop_last() =~~= s.take(k));
            } else {
                let ts = texts_of(items);
                assert(ts.len() >= 2);
                assert(ts[0] == s.take(k));
                assert(ts.skip(1) =~~= texts_of(tail));
                assert(joined(ts) == s.take(k) + seq!['\n'] + strip_final_newline(rest));
                assert(s =~~= s.take(k) + seq!['\n'] + rest);
                assert(rest[rest.len() - 1] == s[s.len() - 1]);
                if ends_with_newline(rest) {
                    assert(ends_with_newline(s));
                    assert(strip_final_newline(s) =~~= s.take(k) + seq!['\n']
                        + strip_final_newline(rest));
                } else {
                    assert(!ends_with_newline(s));
                    assert(strip_final_newline(s) =~~= s.take(k) + seq!['\n']
                        + strip_final_newline(rest));
                }
            }
        }
    }
}

/// Dropping a trailing layout newline does not change a batch's texts.
proof fn lemma_texts_drop_last_nl(items: Seq<ItemView>)
    requires
        items.len() > 0,
        items[items.len() - 1].class is NewLine,
    ensures
        texts_of(items.drop_last()) == texts_of(items),
    decreases items.len(),
{
    if items.len() == 1 {
        assert(items.skip(1) =~~= Seq::<ItemView>::empty());
        assert(items.drop_last() =~~= Seq::<ItemView>::empty());
    } else {
        lemma_texts_drop_last_nl(items.skip(1));
        assert(items.drop_last().skip(1) =~~= items.skip(1).drop_last());
        assert(items.drop_last()[0] == items[0]);
    }
}

/// The last item of a nonempty split is always a layout newline.
proof fn lemma_batch_lines_last_nl(s: Seq<char>)
    requires
        s.len() > 0,
    ensures
        batch_lines(s).len() > 0,
        batch_lines(s)[batch_lines(s).len() - 1] == newline_item(),
    decreases s.len(),
{
    lemma_first_nl(s);
    let k = first_nl(s);
    if 0 <= k < s.len() {
        if s.skip(k + 1).len() > 0 {
            lemma_batch_lines_last_nl(s.skip(k + 1));
        } else {
            assert(batch_lines(s.skip(k + 1)) =~~= Seq::<ItemView>::empty());
        }
    }
}

/// The classified batch round trip: splitting a raw string into a batch
/// and joining the batch's non-newline texts with a newline between each
/// pair reproduces the string exactly when it does not end in a newline,
/// and reproduces it with the final newline dropped when it does.
pub proof fn lemma_from_string_round_trip(s: Seq<char>)
    ensures
        !ends_with_newline(s) ==> joined(texts_of(batch_of(s))) == s,
        ends_with_newline(s) ==> joined(texts_of(batch_of(s))) == s.drop_last(),
{
    lemma_joined_batch_lines(s);
    if s.len() == 0 || ends_with_newline(s) {
    } else {
        lemma_batch_lines_last_nl(s);
        lemma_texts_drop_last_nl(batch_lines(s));
    }
}

} // verus!
