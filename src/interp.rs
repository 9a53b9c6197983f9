//! The escape-sequence interpreter: turns tokenizer callbacks into a colored grid.
use vstd::prelude::*;

use anstyle_parse::Params;

use crate::color::{spec_true_color, true_color, DEFAULT_FG};
use crate::grid::{index_of, lemma_index_in_bounds, Cell, Grid};

verus! {

#[verifier::external_type_specification]
#[verifier::external_body]
pub struct ExParams(Params);

/// Each parameter of a control sequence, with its subparameters, in order.
pub uninterp spec fn param_list(p: Params) -> Seq<Seq<u16>>;

/// Relies on anstyle_parse::Params::iter, which yields each parameter as the slice of
/// it and its subparameters, in order.
#[verifier::external_body]
fn params_to_vec(params: &Params) -> (r: Vec<Vec<u16>>)
    ensures
        r@.len() == param_list(*params).len(),
        forall|i: int| 0 <= i < r@.len() ==> (#[trigger] r@[i])@ == param_list(*params)[i],
{
    params.iter().map(|p| p.to_vec()).collect()
}

/// What the interpreter has built so far.
pub struct Capture {
    pub cells: Seq<Cell>,
    pub width: int,
    pub height: int,
    pub x: int,
    pub y: int,
    pub fg: u32,
    pub colors: Seq<u32>,
}

/// One callback of the tokenizer.
pub enum Token {
    Print(char),
    Control(u8),
    Csi(Seq<Seq<u16>>, u8),
}

/// Interprets tokenizer callbacks: a write cursor, a current foreground color, and the
/// distinct colors selected so far, in the order first seen.
pub struct Performer {
    pub grid: Grid,
    pub x: usize,
    pub y: usize,
    pub fg: u32,
    pub colors: Vec<u32>,
}

impl View for Performer {
    type V = Capture;

    open spec fn view(&self) -> Capture {
        Capture {
            cells: self.grid.data@,
            width: self.grid.width as int,
            height: self.grid.height as int,
            x: self.x as int,
            y: self.y as int,
            fg: self.fg,
            colors: self.colors@,
        }
    }
}

/// A counter advanced by one, held at the largest `usize`.
pub open spec fn bumped(n: int) -> int {
    if n < usize::MAX {
        n + 1
    } else {
        n
    }
}

/// Writes `ch` in the current color at the cursor, when the cursor is inside the grid,
/// and moves the cursor one column right.
pub open spec fn after_print(s: Capture, ch: char) -> Capture {
    Capture {
        cells: if s.x < s.width && s.y < s.height {
            s.cells.update(index_of(s.width, s.x, s.y), Cell { fg: s.fg, c: ch })
        } else {
            s.cells
        },
        x: bumped(s.x),
        ..s
    }
}

/// A line feed moves the cursor to the start of the next row; other control bytes do nothing.
pub open spec fn after_control(s: Capture, byte: u8) -> Capture {
    if byte == 0x0a {
        Capture { x: 0, y: bumped(s.y), ..s }
    } else {
        s
    }
}

/// Whether parameter `i` is present with a first value.
pub open spec fn has_param(items: Seq<Seq<u16>>, i: int) -> bool {
    i < items.len() && items[i].len() > 0
}

/// The foreground color that an SGR sequence with these parameters selects, if any:
/// `0` and `39` the default, `30..=37` and `90..=97` the basic and bright palette,
/// `38;5;i` a palette index, `38;2;r;g;b` a true color. Other final bytes, other
/// leading parameters, missing parameters and components above 255 select nothing.
pub open spec fn csi_color(items: Seq<Seq<u16>>, final_byte: u8) -> Option<u32> {
    if final_byte != 0x6d || !has_param(items, 0) {
        None
    } else {
        let p = items[0][0];
        if p == 0 || p == 39 {
            Some(DEFAULT_FG)
        } else if 30 <= p <= 37 {
            Some((p - 30) as u32)
        } else if 90 <= p <= 97 {
            Some((p - 82) as u32)
        } else if p == 38 && has_param(items, 1) && items[1][0] == 5 {
            if has_param(items, 2) && items[2][0] <= 255 {
                Some(items[2][0] as u32)
            } else {
                None
            }
        } else if p == 38 && has_param(items, 1) && items[1][0] == 2 {
            if has_param(items, 2) && has_param(items, 3) && has_param(items, 4) && items[2][0]
                <= 255 && items[3][0] <= 255 && items[4][0] <= 255 {
                Some(spec_true_color(items[2][0] as u8, items[3][0] as u8, items[4][0] as u8))
            } else {
                None
            }
        } else {
            None
        }
    }
}

/// The recorded colors with `c` added at the end, unless already there.
pub open spec fn recorded(colors: Seq<u32>, c: u32) -> Seq<u32> {
    if colors.contains(c) {
        colors
    } else {
        colors.push(c)
    }
}

/// A control sequence that selects a color makes it current and records it.
pub open spec fn after_csi(s: Capture, items: Seq<Seq<u16>>, final_byte: u8) -> Capture {
    match csi_color(items, final_byte) {
        Some(c) => Capture { fg: c, colors: recorded(s.colors, c), ..s },
        None => s,
    }
}

pub open spec fn after_token(s: Capture, t: Token) -> Capture {
    match t {
        Token::Print(ch) => after_print(s, ch),
        Token::Control(b) => after_control(s, b),
        Token::Csi(items, f) => after_csi(s, items, f),
    }
}

/// The state after the tokens in order.
pub open spec fn after_tokens(s: Capture, ts: Seq<Token>) -> Capture
    decreases ts.len(),
{
    if ts.len() == 0 {
        s
    } else {
        after_token(after_tokens(s, ts.drop_last()), ts.last())
    }
}

pub open spec fn items_view(items: Seq<Vec<u16>>) -> Seq<Seq<u16>> {
    items.map_values(|v: Vec<u16>| v@)
}

/// The color selected by an SGR sequence, or `None` (see `csi_color`).
pub fn sgr_color(items: &Vec<Vec<u16>>, c: u8) -> (r: Option<u32>)
    ensures
        r == csi_color(items_view(items@), c),
{
    let ghost v = items_view(items@);
    if c != 0x6d || items.len() == 0 || items[0].len() == 0 {
        return None;
    }
    assert(v[0] == items@[0]@);
    let p = items[0][0];
    if p == 0 || p == 39 {
        Some(DEFAULT_FG)
    } else if 30 <= p && p <= 37 {
        Some((p - 30) as u32)
    } else if 90 <= p && p <= 97 {
        Some((p - 82) as u32)
    } else if p == 38 && items.len() > 1 && items[1].len() > 0 && items[1][0] == 5 {
        assert(v[1] == items@[1]@);
        if items.len() > 2 && items[2].len() > 0 && items[2][0] <= 255 {
            assert(v[2] == items@[2]@);
            Some(items[2][0] as u32)
        } else {
            None
        }
    } else if p == 38 && items.len() > 1 && items[1].len() > 0 && items[1][0] == 2 {
        assert(v[1] == items@[1]@);
        if items.len() > 4 && items[2].len() > 0 && items[3].len() > 0 && items[4].len() > 0
            && items[2][0] <= 255 && items[3][0] <= 255 && items[4][0] <= 255 {
            assert(v[2] == items@[2]@);
            assert(v[3] == items@[3]@);
            assert(v[4] == items@[4]@);
            Some(true_color(items[2][0] as u8, items[3][0] as u8, items[4][0] as u8))
        } else {
            None
        }
    } else {
        None
    }
}

/// A capture state that an interpreter over a well-formed grid can be in.
pub open spec fn capture_wf(s: Capture) -> bool {
    &&& 0 <= s.width
    &&& 0 <= s.height
    &&& 0 <= s.x
    &&& 0 <= s.y
    &&& s.cells.len() == s.width * s.height
    &&& s.width * s.height <= usize::MAX
}

/// Whether the token is a control sequence that selects a color.
pub open spec fn selects_color(t: Token) -> bool {
    match t {
        Token::Csi(items, f) => csi_color(items, f) is Some,
        _ => false,
    }
}

/// Input without a color-selecting sequence writes every character in the default
/// color: each cell is either untouched or holds the default foreground.
pub proof fn lemma_plain_input_default_color(s: Capture, ts: Seq<Token>)
    requires
        capture_wf(s),
        s.fg == DEFAULT_FG,
        forall|i: int| 0 <= i < ts.len() ==> !selects_color(#[trigger] ts[i]),
    ensures
        capture_wf(after_tokens(s, ts)),
        after_tokens(s, ts).width == s.width,
        after_tokens(s, ts).height == s.height,
        after_tokens(s, ts).fg == DEFAULT_FG,
        forall|i: int|
            0 <= i < s.cells.len() ==> (#[trigger] after_tokens(s, ts).cells[i] == s.cells[i])
                || after_tokens(s, ts).cells[i].fg == DEFAULT_FG,
    decreases ts.len(),
{
    if ts.len() > 0 {
        let d = ts.drop_last();
        assert forall|i: int| 0 <= i < d.len() implies !selects_color(#[trigger] d[i]) by {
            assert(d[i] == ts[i]);
        }
        lemma_plain_input_default_color(s, d);
        let r = after_tokens(s, d);
        assert(!selects_color(ts[ts.len() - 1]));
        if let Token::Print(ch) = ts.last() {
            if r.x < r.width && r.y < r.height {
                lemma_index_in_bounds(r.width, r.height, r.x, r.y);
            }
        }
    }
}

proof fn lemma_print_inside(r: Capture, ch: char)
    requires
        r.x < r.width,
        r.y < r.height,
    ensures
        after_print(r, ch).cells == r.cells.update(
            index_of(r.width, r.x, r.y),
            Cell { fg: r.fg, c: ch },
        ),
        capture_wf(r) ==> capture_wf(after_print(r, ch)),
        capture_wf(r) ==> after_print(r, ch).cells.len() == r.cells.len(),
        capture_wf(r) ==> after_print(r, ch).cells[index_of(r.width, r.x, r.y)] == (Cell {
            fg: r.fg,
            c: ch,
        }),
        capture_wf(r) ==> forall|j: int|
            0 <= j < r.cells.len() && j != index_of(r.width, r.x, r.y) ==> #[trigger] after_print(
                r,
                ch,
            ).cells[j] == r.cells[j],
{
    if capture_wf(r) {
        lemma_index_in_bounds(r.width, r.height, r.x, r.y);
    }
}

/// The state after printing each character of `t` in turn.
pub open spec fn after_prints(s: Capture, t: Seq<char>) -> Capture
    decreases t.len(),
{
    if t.len() == 0 {
        s
    } else {
        after_print(after_prints(s, t.drop_last()), t.last())
    }
}

#[verifier::rlimit(60)]
proof fn lemma_prints_line(s: Capture, t: Seq<char>)
    requires
        capture_wf(s),
        s.x == 0,
        s.y == 0,
        s.height > 0,
        t.len() <= s.width,
    ensures
        capture_wf(after_prints(s, t)),
        after_prints(s, t).width == s.width,
        after_prints(s, t).height == s.height,
        after_prints(s, t).x == t.len(),
        after_prints(s, t).y == 0,
        after_prints(s, t).fg == s.fg,
        forall|i: int|
            0 <= i < t.len() ==> #[trigger] after_prints(s, t).cells[i] == (Cell {
                fg: s.fg,
                c: t[i],
            }),
        forall|i: int|
            t.len() <= i < s.cells.len() ==> #[trigger] after_prints(s, t).cells[i]
                == s.cells[i],
    decreases t.len(),
{
    if t.len() > 0 {
        let d = t.drop_last();
        lemma_prints_line(s, d);
        let r = after_prints(s, d);
        lemma_index_in_bounds(r.width, r.height, r.x, r.y);
        assert(r.width <= r.width * r.height) by (nonlinear_arith)
            requires
                r.height >= 1,
                r.width >= 0,
        ;
        assert(index_of(r.width, r.x, r.y) == d.len());
        let q = after_prints(s, t);
        assert(q == after_print(r, t.last()));
        lemma_print_inside(r, t.last());
        assert forall|i: int| 0 <= i < t.len() implies #[trigger] q.cells[i] == (Cell {
            fg: s.fg,
            c: t[i],
        }) by {
            let k = index_of(r.width, r.x, r.y);
            assert(k == d.len());
            if i < d.len() {
                assert(t[i] == d[i]);
                assert(r.cells[i] == (Cell { fg: s.fg, c: d[i] }));
                assert(q.cells[i] == r.cells[i]);
            } else {
                assert(i == k);
                assert(t[i] == t.last());
                assert(q.cells[k] == (Cell { fg: r.fg, c: t.last() }));
            }
        }
    }
}

/// A single line of plain text no longer than the grid is wide, fed to an interpreter
/// at the top-left corner in the default color, appears as it is on the first row in
/// the default color; the rest of the grid is untouched.
pub proof fn lemma_single_line_round_trip(s: Capture, t: Seq<char>)
    requires
        capture_wf(s),
        s.x == 0,
        s.y == 0,
        s.fg == DEFAULT_FG,
        s.height > 0,
        t.len() <= s.width,
    ensures
        forall|i: int|
            0 <= i < t.len() ==> #[trigger] after_prints(s, t).cells[index_of(
                s.width,
                i,
                0,
            )] == (Cell { fg: DEFAULT_FG, c: t[i] }),
        forall|i: int|
            t.len() <= i < s.cells.len() ==> #[trigger] after_prints(s, t).cells[i]
                == s.cells[i],
{
    lemma_prints_line(s, t);
}

impl Performer {
    pub open spec fn wf(&self) -> bool {
        self.grid.wf()
    }

    /// An interpreter at the top-left corner of `grid`, in the default color, with no
    /// colors recorded.
    pub fn new(grid: Grid) -> (p: Performer)
        requires
            grid.wf(),
        ensures
            p.wf(),
            p.grid == grid,
            p.x == 0,
            p.y == 0,
            p.fg == DEFAULT_FG,
            p.colors@ == Seq::<u32>::empty(),
    {
        Performer { grid, x: 0, y: 0, fg: DEFAULT_FG, colors: Vec::new() }
    }

    /// Handles a printable character.
    pub fn print(&mut self, c: char)
        requires
            old(self).wf(),
        ensures
            final(self).wf(),
            final(self).grid.config == old(self).grid.config,
            final(self)@ == after_print(old(self)@, c),
    {
        let x = self.x;
        let y = self.y;
        let fg = self.fg;
        if x < self.grid.width && y < self.grid.height {
            proof {
                lemma_index_in_bounds(self.grid.width as int, self.grid.height as int, x as int, y as int);
            }
            *self.grid.get_mut(x, y) = Cell { fg, c };
        }
        if x < usize::MAX {
            self.x = x + 1;
        }
    }

    /// Handles a control byte.
    pub fn execute(&mut self, byte: u8)
        requires
            old(self).wf(),
        ensures
            final(self).wf(),
            final(self).grid.config == old(self).grid.config,
            final(self)@ == after_control(old(self)@, byte),
    {
        if byte == 0x0a {
            if self.y < usize::MAX {
                self.y = self.y + 1;
            }
            self.x = 0;
        }
    }

    /// Adds `c` to the recorded colors unless it is there already.
    fn record(&mut self, c: u32)
        ensures
            final(self).colors@ == recorded(old(self).colors@, c),
            final(self).grid == old(self).grid,
            final(self).x == old(self).x,
            final(self).y == old(self).y,
            final(self).fg == old(self).fg,
    {
        let mut i: usize = 0;
        while i < self.colors.len()
            invariant
                i <= self.colors@.len(),
                forall|j: int| 0 <= j < i ==> self.colors@[j] != c,
            decreases self.colors@.len() - i,
        {
            if self.colors[i] == c {
                assert(self.colors@.contains(c));
                return;
            }
            i = i + 1;
        }
        self.colors.push(c);
    }

    /// Handles a control sequence given as its parameters and final byte.
    pub fn csi_dispatch_items(&mut self, items: &Vec<Vec<u16>>, c: u8)
        requires
            old(self).wf(),
        ensures
            final(self).wf(),
            final(self).grid.config == old(self).grid.config,
            final(self)@ == after_csi(old(self)@, items_view(items@), c),
    {
        match sgr_color(items, c) {
            Some(color) => {
                self.fg = color;
                self.record(color);
            },
            None => {},
        }
    }

    /// Handles a control sequence as the tokenizer reports it; intermediates and the
    /// ignore flag play no part.
    pub fn csi_dispatch(&mut self, params: &Params, intermediates: &[u8], ignore: bool, c: u8)
        requires
            old(self).wf(),
        ensures
            final(self).wf(),
            final(self).grid.config == old(self).grid.config,
            final(self)@ == after_csi(old(self)@, param_list(*params), c),
    {
        let items = params_to_vec(params);
        assert(items_view(items@) =~= param_list(*params));
        self.csi_dispatch_items(&items, c);
    }
}

} // verus!
