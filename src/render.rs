//! Turns the grid back into escape-coded text, one frame at a time.
use vstd::prelude::*;
use vstd::string::StrSliceExecFns;

use crossterm::cursor::{MoveTo, MoveToNextLine};
use crossterm::Command;

use crate::color::{color_code_of, decimal, push_decimal, write_color};
use crate::grid::{index_of, lemma_index_in_bounds, Cell, Grid, UNSET};

verus! {

/// `ESC [ n E`: the cursor goes `n` lines down, to the first column.
pub open spec fn next_line_seq(n: nat) -> Seq<char> {
    seq!['\x1b', '['] + decimal(n) + seq!['E']
}

/// `ESC [ row+1 ; column+1 H`: the cursor goes to a zero-based position.
pub open spec fn move_to_seq(column: nat, row: nat) -> Seq<char> {
    seq!['\x1b', '['] + decimal(row + 1) + seq![';'] + decimal(column + 1) + seq!['H']
}

/// Relies on crossterm's cursor::MoveToNextLine, whose ANSI form is `ESC [ n E`.
#[verifier::external_body]
fn next_line_code(n: u16) -> (r: Vec<char>)
    ensures
        r@ == next_line_seq(n as nat),
{
    let mut s = String::new();
    let _ = MoveToNextLine(n).write_ansi(&mut s);
    s.chars().collect()
}

/// Relies on crossterm's cursor::MoveTo, whose ANSI form is `ESC [ row+1 ; column+1 H`.
#[verifier::external_body]
fn move_to_code(column: u16, row: u16) -> (r: Vec<char>)
    requires
        column < u16::MAX,
        row < u16::MAX,
    ensures
        r@ == move_to_seq(column as nat, row as nat),
{
    let mut s = String::new();
    let _ = MoveTo(column, row).write_ansi(&mut s);
    s.chars().collect()
}

/// The output for row `y` from column `x` on, after color `fg` was last selected,
/// and the color last selected at its end. A color code comes before each cell whose
/// color differs from the last one; an unset cell ends the row early with a move to
/// the next line, except on the last row.
pub open spec fn row_out(s: Seq<Cell>, w: int, h: int, y: int, x: int, fg: u32) -> (Seq<
    char,
>, u32)
    decreases w - x,
{
    if x >= w {
        (Seq::empty(), fg)
    } else {
        let d = s[index_of(w, x, y)];
        let pre = if fg != d.fg {
            color_code_of(d.fg)
        } else {
            Seq::empty()
        };
        if d.c == UNSET && y < h - 1 {
            (pre + next_line_seq(1), d.fg)
        } else {
            let rest = row_out(s, w, h, y, x + 1, d.fg);
            (pre + seq![d.c] + rest.0, rest.1)
        }
    }
}

/// The output for rows `y..h`, after color `fg` was last selected.
pub open spec fn rows_out(s: Seq<Cell>, w: int, h: int, y: int, fg: u32) -> Seq<char>
    decreases h - y,
{
    if y >= h {
        Seq::empty()
    } else {
        let row = row_out(s, w, h, y, 0, fg);
        row.0 + rows_out(s, w, h, y + 1, row.1)
    }
}

/// A whole frame: every row, starting with no color selected but palette index 0,
/// then the cursor back to the top-left corner.
pub open spec fn frame(s: Seq<Cell>, w: int, h: int) -> Seq<char> {
    rows_out(s, w, h, 0, 0) + move_to_seq(0, 0)
}

fn push_all(out: &mut Vec<char>, v: &Vec<char>)
    ensures
        final(out)@ == old(out)@ + v@,
{
    let mut i: usize = 0;
    while i < v.len()
        invariant
            i <= v@.len(),
            out@ == old(out)@ + v@.subrange(0, i as int),
        decreases v@.len() - i,
    {
        out.push(v[i]);
        i = i + 1;
        assert(out@ =~= old(out)@ + v@.subrange(0, i as int));
    }
    assert(v@.subrange(0, v@.len() as int) =~= v@);
}

fn push_str(out: &mut Vec<char>, text: &str)
    ensures
        final(out)@ == old(out)@ + text@,
{
    let n = text.unicode_len();
    let mut i: usize = 0;
    while i < n
        invariant
            n == text@.len(),
            i <= n,
            out@ == old(out)@ + text@.subrange(0, i as int),
        decreases n - i,
    {
        out.push(text.get_char(i));
        i = i + 1;
        assert(out@ =~= old(out)@ + text@.subrange(0, i as int));
    }
    assert(text@.subrange(0, n as int) =~= text@);
}

/// One line of the color report: a swatch in the color, then its raw value.
pub open spec fn color_entry(c: u32) -> Seq<char> {
    color_code_of(c) + "  ***** "@ + decimal(c as nat) + "\n"@
}

pub open spec fn color_entries(colors: Seq<u32>) -> Seq<char>
    decreases colors.len(),
{
    if colors.len() == 0 {
        Seq::empty()
    } else {
        color_entries(colors.drop_last()) + color_entry(colors.last())
    }
}

/// The color report: a heading, one entry per color in order, then the default
/// foreground restored.
pub open spec fn color_report(colors: Seq<u32>) -> Seq<char> {
    "Colors detected in input:\n"@ + color_entries(colors) + "\x1b[39m\n"@
}

/// The text that lists the given colors, each with a swatch.
pub fn list_colors(colors: &Vec<u32>) -> (out: Vec<char>)
    ensures
        out@ == color_report(colors@),
{
    let mut out: Vec<char> = Vec::new();
    push_str(&mut out, "Colors detected in input:\n");
    let ghost head = out@;
    let mut i: usize = 0;
    while i < colors.len()
        invariant
            i <= colors@.len(),
            out@ == head + color_entries(colors@.subrange(0, i as int)),
        decreases colors@.len() - i,
    {
        let c = colors[i];
        let ghost before = out@;
        write_color(&mut out, c);
        push_str(&mut out, "  ***** ");
        push_decimal(&mut out, c);
        push_str(&mut out, "\n");
        i = i + 1;
        assert(colors@.subrange(0, i as int).drop_last() =~= colors@.subrange(0, i - 1));
        assert(out@ =~= before + color_entry(c));
    }
    assert(colors@.subrange(0, i as int) =~= colors@);
    push_str(&mut out, "\x1b[39m\n");
    assert(out@ =~= color_report(colors@));
    out
}

impl Grid {
    /// The escape-coded text of the grid's current state.
    pub fn render(&self) -> (out: Vec<char>)
        requires
            self.wf(),
        ensures
            out@ == frame(self.data@, self.width as int, self.height as int),
    {
        let w = self.width;
        let h = self.height;
        let ghost s = self.data@;
        let mut out: Vec<char> = Vec::new();
        let mut fg: u32 = 0;
        let mut y: usize = 0;
        while y < h
            invariant
                self.wf(),
                w == self.width,
                h == self.height,
                s == self.data@,
                y <= h,
                out@ + rows_out(s, w as int, h as int, y as int, fg) == rows_out(
                    s,
                    w as int,
                    h as int,
                    0,
                    0,
                ),
            decreases h - y,
        {
            let ghost out_y = out@;
            let ghost fg_y = fg;
            let mut x: usize = 0;
            while x < w
                invariant
                    self.wf(),
                    w == self.width,
                    h == self.height,
                    s == self.data@,
                    y < h,
                    x <= w,
                    out@ + row_out(s, w as int, h as int, y as int, x as int, fg).0 == out_y
                        + row_out(s, w as int, h as int, y as int, 0, fg_y).0,
                    row_out(s, w as int, h as int, y as int, x as int, fg).1 == row_out(
                        s,
                        w as int,
                        h as int,
                        y as int,
                        0,
                        fg_y,
                    ).1,
                decreases w - x,
            {
                proof {
                    lemma_index_in_bounds(w as int, h as int, x as int, y as int);
                }
                let ghost out_x = out@;
                let ghost fg_x = fg;
                let ghost r = row_out(s, w as int, h as int, y as int, x as int, fg);
                let d = self.data[y * w + x];
                let ghost pre = if fg_x != d.fg {
                    color_code_of(d.fg)
                } else {
                    Seq::<char>::empty()
                };
                if fg != d.fg {
                    fg = d.fg;
                    write_color(&mut out, fg);
                }
                assert(out@ =~= out_x + pre);
                if d.c == UNSET && y < h - 1 {
                    let nl = next_line_code(1);
                    push_all(&mut out, &nl);
                    x = w;
                    assert(r.0 == pre + next_line_seq(1));
                    assert(out@ + row_out(s, w as int, h as int, y as int, x as int, fg).0 =~= out_x
                        + r.0);
                } else {
                    out.push(d.c);
                    x = x + 1;
                    let ghost rest = row_out(s, w as int, h as int, y as int, x as int, fg);
                    assert(r.0 == pre + seq![d.c] + rest.0);
                    assert(out@ + rest.0 =~= out_x + r.0);
                }
            }
            y = y + 1;
        }
        let home = move_to_code(0, 0);
        push_all(&mut out, &home);
        assert(rows_out(s, w as int, h as int, y as int, fg) == Seq::<char>::empty());
        assert(out@ =~= frame(s, w as int, h as int));
        out
    }
}

} // verus!
