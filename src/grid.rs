//! The character grid: cells, their classification, and the swap primitive.
use vstd::prelude::*;

verus! {

/// The character of a cell that never received content.
pub const UNSET: char = '\0';

/// One position of the grid: a character and its foreground color.
#[derive(Clone, Copy, Debug, PartialEq, Eq, Structural)]
pub struct Cell {
    pub fg: u32,
    pub c: char,
}

/// Settings that decide which cells stay put, and which way sand falls.
pub struct Config {
    /// Box-drawing characters never move.
    pub borders: bool,
    /// Cells of these foreground colors never move.
    pub colors: Vec<u32>,
    /// Sand falls upward.
    pub antigravity: bool,
}

/// A fixed-size, row-major buffer of cells.
pub struct Grid {
    pub width: usize,
    pub height: usize,
    pub data: Vec<Cell>,
    pub config: Config,
}

pub open spec fn spec_is_box_char(c: char) -> bool {
    0x2500 <= (c as u32) <= 0x257F
}

pub open spec fn cell_empty(cell: Cell) -> bool {
    cell.c == UNSET || cell.c == ' '
}

pub open spec fn cell_static(cell: Cell, cfg: Config) -> bool {
    !cell_empty(cell) && ((cfg.borders && spec_is_box_char(cell.c)) || cfg.colors@.contains(
        cell.fg,
    ))
}

pub open spec fn cell_sand(cell: Cell, cfg: Config) -> bool {
    !cell_empty(cell) && !cell_static(cell, cfg)
}

/// A cell that sand may move into.
pub open spec fn cell_free(cell: Cell, cfg: Config) -> bool {
    cell_empty(cell) && !cell_static(cell, cfg)
}

pub open spec fn index_of(w: int, x: int, y: int) -> int {
    y * w + x
}

/// An unset cell becomes a space once a swap has touched it.
pub open spec fn normalized(cell: Cell) -> Cell {
    if cell.c == UNSET {
        Cell { fg: cell.fg, c: ' ' }
    } else {
        cell
    }
}

/// The cells after exchanging positions `i` and `j`, unset cells turned into spaces.
pub open spec fn swapped(s: Seq<Cell>, i: int, j: int) -> Seq<Cell> {
    s.update(i, normalized(s[j])).update(j, normalized(s[i]))
}

pub proof fn lemma_index_in_bounds(w: int, h: int, x: int, y: int)
    requires
        0 <= x < w,
        0 <= y < h,
    ensures
        0 <= y * w + x < w * h,
        y * w + x + 1 <= w * h,
{
    assert(0 <= y * w + x < w * h) by (nonlinear_arith)
        requires
            0 <= x < w,
            0 <= y < h,
    ;
}

/// Whether the character lies in the box-drawing block U+2500..U+257F.
pub fn is_box_char(data: &char) -> (r: bool)
    ensures
        r == spec_is_box_char(*data),
{
    let v = *data as u32;
    0x2500 <= v && v <= 0x257F
}

impl Grid {
    pub open spec fn wf(&self) -> bool {
        &&& self.data@.len() == self.width * self.height
        &&& self.width * self.height <= usize::MAX
    }

    pub open spec fn cell_at(&self, x: int, y: int) -> Cell {
        self.data@[index_of(self.width as int, x, y)]
    }

    /// A grid of `w` columns and `h` rows of unset cells.
    pub fn new(config: Config, w: usize, h: usize) -> (g: Grid)
        requires
            w * h <= usize::MAX,
        ensures
            g.wf(),
            g.width == w,
            g.height == h,
            g.config == config,
            forall|i: int| 0 <= i < g.data@.len() ==> g.data@[i] == (Cell { fg: 0, c: UNSET }),
    {
        let n = w * h;
        let mut data: Vec<Cell> = Vec::with_capacity(n);
        while data.len() < n
            invariant
                data@.len() <= n,
                forall|i: int| 0 <= i < data@.len() ==> data@[i] == (Cell { fg: 0, c: UNSET }),
            decreases n - data@.len(),
        {
            data.push(Cell { fg: 0, c: UNSET });
        }
        Grid { width: w, height: h, data, config }
    }

    /// The cell at column `x`, row `y`, for writing.
    pub fn get_mut(&mut self, x: usize, y: usize) -> (cell: &mut Cell)
        requires
            old(self).wf(),
            x < old(self).width,
            y < old(self).height,
        ensures
            *cell == old(self).cell_at(x as int, y as int),
            final(self).data@ == old(self).data@.update(
                index_of(old(self).width as int, x as int, y as int),
                *final(cell),
            ),
            final(self).width == old(self).width,
            final(self).height == old(self).height,
            final(self).config == old(self).config,
    {
        proof {
            lemma_index_in_bounds(self.width as int, self.height as int, x as int, y as int);
        }
        &mut self.data[y * self.width + x]
    }

    /// The cell at column `x`, row `y`.
    pub fn get(&self, x: usize, y: usize) -> (cell: Cell)
        requires
            self.wf(),
            x < self.width,
            y < self.height,
        ensures
            cell == self.cell_at(x as int, y as int),
    {
        proof {
            lemma_index_in_bounds(self.width as int, self.height as int, x as int, y as int);
        }
        self.data[y * self.width + x]
    }

    /// Exchanges two cells; a cell left holding the unset character becomes a space.
    pub fn swap(&mut self, x1: usize, y1: usize, x2: usize, y2: usize)
        requires
            old(self).wf(),
            x1 < old(self).width,
            y1 < old(self).height,
            x2 < old(self).width,
            y2 < old(self).height,
        ensures
            final(self).data@ == swapped(
                old(self).data@,
                index_of(old(self).width as int, x1 as int, y1 as int),
                index_of(old(self).width as int, x2 as int, y2 as int),
            ),
            final(self).wf(),
            final(self).width == old(self).width,
            final(self).height == old(self).height,
            final(self).config == old(self).config,
    {
        proof {
            lemma_index_in_bounds(self.width as int, self.height as int, x1 as int, y1 as int);
            lemma_index_in_bounds(self.width as int, self.height as int, x2 as int, y2 as int);
        }
        let idx1 = y1 * self.width + x1;
        let idx2 = y2 * self.width + x2;
        let a = self.data[idx1];
        let b = self.data[idx2];
        self.data.set(idx1, b);
        self.data.set(idx2, a);
        let cell_a = self.get_mut(x1, y1);
        if cell_a.c == UNSET {
            cell_a.c = ' ';
        }
        let cell_b = self.get_mut(x2, y2);
        if cell_b.c == UNSET {
            cell_b.c = ' ';
        }
        proof {
            let s = old(self).data@;
            assert(self.data@ =~= swapped(s, idx1 as int, idx2 as int));
        }
    }

    /// Whether the cell never moves: it is not empty, and it is a border (when borders
    /// are static) or its color is one of the static colors.
    pub fn is_static(&self, x: usize, y: usize) -> (r: bool)
        requires
            self.wf(),
            x < self.width,
            y < self.height,
        ensures
            r == cell_static(self.cell_at(x as int, y as int), self.config),
    {
        let cell = self.get(x, y);
        if self.is_empty(x, y) {
            return false;
        }
        if self.config.borders && is_box_char(&cell.c) {
            return true;
        }
        let mut i: usize = 0;
        while i < self.config.colors.len()
            invariant
                self.wf(),
                x < self.width,
                y < self.height,
                cell == self.cell_at(x as int, y as int),
                !cell_empty(cell),
                !(self.config.borders && spec_is_box_char(cell.c)),
                i <= self.config.colors@.len(),
                forall|j: int| 0 <= j < i ==> self.config.colors@[j] != cell.fg,
            decreases self.config.colors@.len() - i,
        {
            if self.config.colors[i] == cell.fg {
                assert(self.config.colors@.contains(cell.fg));
                return true;
            }
            i = i + 1;
        }
        false
    }

    /// Whether the cell is sand: not empty and not static.
    pub fn is_sand(&self, x: usize, y: usize) -> (r: bool)
        requires
            self.wf(),
            x < self.width,
            y < self.height,
        ensures
            r == cell_sand(self.cell_at(x as int, y as int), self.config),
    {
        !self.is_empty(x, y) && !self.is_static(x, y)
    }

    /// Whether the cell holds no content: the unset character or a space.
    pub fn is_empty(&self, x: usize, y: usize) -> (r: bool)
        requires
            self.wf(),
            x < self.width,
            y < self.height,
        ensures
            r == cell_empty(self.cell_at(x as int, y as int)),
    {
        let cell = self.get(x, y);
        cell.c == UNSET || cell.c == ' '
    }
}

} // verus!
