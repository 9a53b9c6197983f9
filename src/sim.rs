//! The falling-sand rule: one tick moves each sand cell one row along gravity.
use vstd::multiset::Multiset;
use vstd::prelude::*;

use crate::grid::{
    cell_empty, cell_free, cell_sand, index_of, lemma_index_in_bounds, normalized,
    swapped, Cell, Config, Grid,
};

verus! {

/// The cells after the sand at column `x` of row `src` tried to enter row `y`:
/// straight if that cell is free, else diagonally left when `coin` is set, else
/// diagonally right, each only when the target exists and is free.
pub open spec fn settle_cell(
    s: Seq<Cell>,
    w: int,
    cfg: Config,
    x: int,
    y: int,
    src: int,
    coin: bool,
) -> Seq<Cell> {
    let from = index_of(w, x, src);
    if cell_sand(s[from], cfg) {
        if cell_free(s[index_of(w, x, y)], cfg) {
            swapped(s, index_of(w, x, y), from)
        } else if coin && x > 0 && cell_free(s[index_of(w, x - 1, y)], cfg) {
            swapped(s, index_of(w, x - 1, y), from)
        } else if !coin && x + 1 < w && cell_free(s[index_of(w, x + 1, y)], cfg) {
            swapped(s, index_of(w, x + 1, y), from)
        } else {
            s
        }
    } else {
        s
    }
}

/// The cells after columns `0..n` of source row `src` were settled into row `y`.
pub open spec fn settle_row(
    s: Seq<Cell>,
    w: int,
    cfg: Config,
    y: int,
    src: int,
    coins: Seq<bool>,
    n: nat,
) -> Seq<Cell>
    decreases n,
{
    if n == 0 {
        s
    } else {
        let x = n - 1;
        settle_cell(
            settle_row(s, w, cfg, y, src, coins, x as nat),
            w,
            cfg,
            x,
            y,
            src,
            coins[index_of(w, x, src)],
        )
    }
}

/// The destination row of the `k`-th row pass: passes start at the row gravity pulls toward.
pub open spec fn dest_row(h: int, up: bool, k: int) -> int {
    if up {
        k
    } else {
        h - 1 - k
    }
}

/// The source row of the `k`-th row pass.
pub open spec fn source_row(h: int, up: bool, k: int) -> int {
    if up {
        k + 1
    } else {
        h - 2 - k
    }
}

/// The cells after the first `k` row passes of a tick.
pub open spec fn settle_rows(
    s: Seq<Cell>,
    w: int,
    h: int,
    cfg: Config,
    coins: Seq<bool>,
    k: nat,
) -> Seq<Cell>
    decreases k,
{
    if k == 0 {
        s
    } else {
        let j = k - 1;
        settle_row(
            settle_rows(s, w, h, cfg, coins, j as nat),
            w,
            cfg,
            dest_row(h, cfg.antigravity, j),
            source_row(h, cfg.antigravity, j),
            coins,
            w as nat,
        )
    }
}

/// The cells after one tick; `coins[i]` is the coin flipped for the sand at index `i`
/// (set: try left first).
pub open spec fn step_cells(s: Seq<Cell>, w: int, h: int, cfg: Config, coins: Seq<bool>) -> Seq<
    Cell,
> {
    if h == 0 {
        s
    } else {
        settle_rows(s, w, h, cfg, coins, (h - 1) as nat)
    }
}

/// Relies on rand::random::<bool>: a coin flip; nothing is known of its value.
#[verifier::external_body]
fn flip_coin() -> (r: bool) {
    rand::random::<bool>()
}

/// No cell can move: every cell is static or empty.
pub open spec fn all_still(s: Seq<Cell>, cfg: Config) -> bool {
    forall|i: int| 0 <= i < s.len() ==> !cell_sand(#[trigger] s[i], cfg)
}

proof fn lemma_row_still(
    s: Seq<Cell>,
    w: int,
    h: int,
    cfg: Config,
    y: int,
    src: int,
    coins: Seq<bool>,
    n: nat,
)
    requires
        s.len() == w * h,
        all_still(s, cfg),
        n <= w,
        0 <= src < h,
    ensures
        settle_row(s, w, cfg, y, src, coins, n) == s,
    decreases n,
{
    if n > 0 {
        lemma_row_still(s, w, h, cfg, y, src, coins, (n - 1) as nat);
        lemma_index_in_bounds(w, h, n - 1, src);
    }
}

proof fn lemma_rows_still(s: Seq<Cell>, w: int, h: int, cfg: Config, coins: Seq<bool>, k: nat)
    requires
        s.len() == w * h,
        w >= 0,
        all_still(s, cfg),
        k <= h - 1,
    ensures
        settle_rows(s, w, h, cfg, coins, k) == s,
    decreases k,
{
    if k > 0 {
        lemma_rows_still(s, w, h, cfg, coins, (k - 1) as nat);
        lemma_row_still(
            s,
            w,
            h,
            cfg,
            dest_row(h, cfg.antigravity, k - 1),
            source_row(h, cfg.antigravity, k - 1),
            coins,
            w as nat,
        );
    }
}

/// A grid whose cells are all static or empty is left unchanged by a tick, whichever
/// way gravity points and whatever the coins.
pub proof fn lemma_still_grid_is_fixed(
    s: Seq<Cell>,
    w: int,
    h: int,
    cfg: Config,
    coins: Seq<bool>,
)
    requires
        w >= 0,
        h >= 0,
        s.len() == w * h,
        all_still(s, cfg),
    ensures
        step_cells(s, w, h, cfg, coins) == s,
{
    if h > 0 {
        lemma_rows_still(s, w, h, cfg, coins, (h - 1) as nat);
    }
}

/// The contribution of one cell to the multiset of contents: nothing when empty.
pub open spec fn content(c: Cell) -> Multiset<Cell> {
    if cell_empty(c) {
        Multiset::empty()
    } else {
        Multiset::singleton(c)
    }
}

/// The multiset of the non-empty cells.
pub open spec fn contents(s: Seq<Cell>) -> Multiset<Cell>
    decreases s.len(),
{
    if s.len() == 0 {
        Multiset::empty()
    } else {
        contents(s.drop_last()).add(content(s.last()))
    }
}

proof fn lemma_contents_update(s: Seq<Cell>, i: int, v: Cell)
    requires
        0 <= i < s.len(),
    ensures
        contents(s.update(i, v)).add(content(s[i])) == contents(s).add(content(v)),
    decreases s.len(),
{
    let t = s.update(i, v);
    let lhs = contents(t).add(content(s[i]));
    let rhs = contents(s).add(content(v));
    if i == s.len() - 1 {
        assert(t.drop_last() =~= s.drop_last());
        assert(contents(t) == contents(s.drop_last()).add(content(v)));
        assert(contents(s) == contents(s.drop_last()).add(content(s[i])));
    } else {
        let d = s.drop_last();
        assert(t.drop_last() =~= d.update(i, v));
        lemma_contents_update(d, i, v);
        assert(contents(t) == contents(d.update(i, v)).add(content(s.last())));
        assert(contents(s) == contents(d).add(content(s.last())));
        assert forall|c: Cell| lhs.count(c) == rhs.count(c) by {
            assert(contents(d.update(i, v)).add(content(s[i])).count(c) == contents(d).add(
                content(v),
            ).count(c));
        }
    }
    assert(lhs =~= rhs);
}

proof fn lemma_contents_swapped(s: Seq<Cell>, i: int, j: int)
    requires
        0 <= i < s.len(),
        0 <= j < s.len(),
    ensures
        contents(swapped(s, i, j)) == contents(s),
{
    let t1 = s.update(i, normalized(s[j]));
    let t2 = t1.update(j, normalized(s[i]));
    lemma_contents_update(s, i, normalized(s[j]));
    lemma_contents_update(t1, j, normalized(s[i]));
    assert(content(normalized(s[j])) == content(s[j]));
    assert(content(normalized(s[i])) == content(s[i]));
    assert(content(t1[j]) == content(s[j]));
    let a = contents(t2);
    let b = contents(s);
    let x = content(s[j]);
    assert(a.add(x) == b.add(x));
    assert forall|c: Cell| a.count(c) == b.count(c) by {
        assert(a.add(x).count(c) == b.add(x).count(c));
    }
    assert(a =~= b);
}

proof fn lemma_contents_row(
    s: Seq<Cell>,
    w: int,
    h: int,
    cfg: Config,
    y: int,
    src: int,
    coins: Seq<bool>,
    n: nat,
)
    requires
        s.len() == w * h,
        n <= w,
        0 <= y < h,
        0 <= src < h,
    ensures
        contents(settle_row(s, w, cfg, y, src, coins, n)) == contents(s),
        settle_row(s, w, cfg, y, src, coins, n).len() == s.len(),
    decreases n,
{
    if n > 0 {
        let x = n - 1;
        lemma_contents_row(s, w, h, cfg, y, src, coins, x as nat);
        let r = settle_row(s, w, cfg, y, src, coins, x as nat);
        lemma_index_in_bounds(w, h, x, src);
        lemma_index_in_bounds(w, h, x, y);
        if x > 0 {
            lemma_index_in_bounds(w, h, x - 1, y);
        }
        if x + 1 < w {
            lemma_index_in_bounds(w, h, x + 1, y);
        }
        let from = index_of(w, x, src);
        if cell_sand(r[from], cfg) {
            if cell_free(r[index_of(w, x, y)], cfg) {
                lemma_contents_swapped(r, index_of(w, x, y), from);
            } else if coins[from] && x > 0 && cell_free(r[index_of(w, x - 1, y)], cfg) {
                lemma_contents_swapped(r, index_of(w, x - 1, y), from);
            } else if !coins[from] && x + 1 < w && cell_free(r[index_of(w, x + 1, y)], cfg) {
                lemma_contents_swapped(r, index_of(w, x + 1, y), from);
            }
        }
    }
}

proof fn lemma_contents_rows(s: Seq<Cell>, w: int, h: int, cfg: Config, coins: Seq<bool>, k: nat)
    requires
        s.len() == w * h,
        w >= 0,
        k <= h - 1,
    ensures
        contents(settle_rows(s, w, h, cfg, coins, k)) == contents(s),
        settle_rows(s, w, h, cfg, coins, k).len() == s.len(),
    decreases k,
{
    if k > 0 {
        lemma_contents_rows(s, w, h, cfg, coins, (k - 1) as nat);
        lemma_contents_row(
            settle_rows(s, w, h, cfg, coins, (k - 1) as nat),
            w,
            h,
            cfg,
            dest_row(h, cfg.antigravity, k - 1),
            source_row(h, cfg.antigravity, k - 1),
            coins,
            w as nat,
        );
    }
}

/// A tick only moves sand: the multiset of non-empty cells, character and color
/// together, is the same before and after.
pub proof fn lemma_step_conserves_contents(
    s: Seq<Cell>,
    w: int,
    h: int,
    cfg: Config,
    coins: Seq<bool>,
)
    requires
        w >= 0,
        h >= 0,
        s.len() == w * h,
    ensures
        contents(step_cells(s, w, h, cfg, coins)) == contents(s),
        step_cells(s, w, h, cfg, coins).len() == s.len(),
{
    if h > 0 {
        lemma_contents_rows(s, w, h, cfg, coins, (h - 1) as nat);
    }
}

/// Sand in the leftmost column whose coin says left, and which cannot fall straight,
/// stays where it is; likewise sand in the rightmost column whose coin says right.
pub proof fn lemma_edge_columns_hold(s: Seq<Cell>, w: int, cfg: Config, y: int, src: int)
    requires
        w > 0,
    ensures
        !cell_free(s[index_of(w, 0, y)], cfg) ==> settle_cell(s, w, cfg, 0, y, src, true) == s,
        !cell_free(s[index_of(w, w - 1, y)], cfg) ==> settle_cell(
            s,
            w,
            cfg,
            w - 1,
            y,
            src,
            false,
        ) == s,
{
}

impl Grid {
    /// Lets the sand at column `x` of row `src` move into row `y`.
    fn settle(&mut self, x: usize, y: usize, src: usize, coin: bool)
        requires
            old(self).wf(),
            x < old(self).width,
            y < old(self).height,
            src < old(self).height,
        ensures
            final(self).wf(),
            final(self).width == old(self).width,
            final(self).height == old(self).height,
            final(self).config == old(self).config,
            final(self).data@ == settle_cell(
                old(self).data@,
                old(self).width as int,
                old(self).config,
                x as int,
                y as int,
                src as int,
                coin,
            ),
    {
        if self.is_sand(x, src) {
            if self.is_empty(x, y) && !self.is_static(x, y) {
                self.swap(x, y, x, src);
            } else if coin && x > 0 && self.is_empty(x - 1, y) && !self.is_static(x - 1, y) {
                self.swap(x - 1, y, x, src);
            } else if !coin && x + 1 < self.width && self.is_empty(x + 1, y) && !self.is_static(
                x + 1,
                y,
            ) {
                self.swap(x + 1, y, x, src);
            }
        }
    }

    /// Advances the grid by one tick, with `coins[i]` deciding, for the sand at index `i`
    /// that cannot fall straight, whether it tries left (set) or right.
    pub fn step_with(&mut self, coins: &Vec<bool>)
        requires
            old(self).wf(),
            coins@.len() == old(self).width * old(self).height,
        ensures
            final(self).wf(),
            final(self).width == old(self).width,
            final(self).height == old(self).height,
            final(self).config == old(self).config,
            final(self).data@ == step_cells(
                old(self).data@,
                old(self).width as int,
                old(self).height as int,
                old(self).config,
                coins@,
            ),
    {
        if self.height == 0 {
            return ;
        }
        let ghost s0 = self.data@;
        let ghost g0 = *self;
        let w = self.width;
        let h = self.height;
        let rows = h - 1;
        let mut k: usize = 0;
        while k < rows
            invariant
                self.wf(),
                self.width == w,
                self.height == h,
                self.config == g0.config,
                w == g0.width,
                h == g0.height,
                h > 0,
                rows == h - 1,
                k <= rows,
                coins@.len() == w * h,
                self.data@ == settle_rows(s0, w as int, h as int, g0.config, coins@, k as nat),
            decreases rows - k,
        {
            let (y, src) = if self.config.antigravity {
                (k, k + 1)
            } else {
                (h - 1 - k, h - 2 - k)
            };
            let ghost before = self.data@;
            let mut x: usize = 0;
            while x < w
                invariant
                    self.wf(),
                    self.width == w,
                    self.height == h,
                    self.config == g0.config,
                    y < h,
                    src < h,
                    x <= w,
                    coins@.len() == w * h,
                    y == dest_row(h as int, g0.config.antigravity, k as int),
                    src == source_row(h as int, g0.config.antigravity, k as int),
                    self.data@ == settle_row(before, w as int, g0.config, y as int, src as int, coins@, x as nat),
                decreases w - x,
            {
                proof {
                    lemma_index_in_bounds(w as int, h as int, x as int, src as int);
                }
                let coin = coins[src * w + x];
                self.settle(x, y, src, coin);
                x = x + 1;
            }
            k = k + 1;
        }
    }

    /// Advances the grid by one tick, flipping a fresh coin for each cell.
    pub fn step(&mut self)
        requires
            old(self).wf(),
        ensures
            final(self).wf(),
            final(self).width == old(self).width,
            final(self).height == old(self).height,
            final(self).config == old(self).config,
            exists|coins: Seq<bool>|
                coins.len() == old(self).width * old(self).height && final(self).data@
                    == step_cells(
                    old(self).data@,
                    old(self).width as int,
                    old(self).height as int,
                    old(self).config,
                    coins,
                ),
    {
        let n = self.width * self.height;
        let mut coins: Vec<bool> = Vec::with_capacity(n);
        while coins.len() < n
            invariant
                coins@.len() <= n,
            decreases n - coins@.len(),
        {
            coins.push(flip_coin());
        }
        self.step_with(&coins);
    }
}

} // verus!
