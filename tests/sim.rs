use ansi_sand::grid::{is_box_char, Cell, Config, Grid, UNSET};

const SAND_FG: u32 = 7;

fn config(borders: bool, colors: Vec<u32>, antigravity: bool) -> Config {
    Config { borders, colors, antigravity }
}

/// Builds a grid from rows of text; '.' stands for an unset cell.
fn grid_of(rows: &[&str], cfg: Config) -> Grid {
    let w = rows[0].chars().count();
    let h = rows.len();
    let mut g = Grid::new(cfg, w, h);
    for (y, row) in rows.iter().enumerate() {
        for (x, ch) in row.chars().enumerate() {
            if ch != '.' {
                *g.get_mut(x, y) = Cell { fg: SAND_FG, c: ch };
            }
        }
    }
    g
}

fn chars_of(g: &Grid) -> Vec<String> {
    (0..g.height)
        .map(|y| {
            (0..g.width)
                .map(|x| match g.get(x, y).c {
                    UNSET => '.',
                    c => c,
                })
                .collect()
        })
        .collect()
}

fn sorted_contents(g: &Grid) -> Vec<(char, u32)> {
    let mut v: Vec<(char, u32)> = g
        .data
        .iter()
        .filter(|c| c.c != UNSET && c.c != ' ')
        .map(|c| (c.c, c.fg))
        .collect();
    v.sort();
    v
}

#[test]
fn new_grid_is_unset() {
    let g = Grid::new(config(false, vec![], false), 3, 2);
    assert_eq!(g.data.len(), 6);
    assert!(g.data.iter().all(|c| *c == Cell { fg: 0, c: UNSET }));
    assert!(g.is_empty(2, 1));
    assert!(!g.is_sand(2, 1));
    assert!(!g.is_static(2, 1));
}

#[test]
fn box_characters() {
    assert!(is_box_char(&'\u{2500}'));
    assert!(is_box_char(&'│'));
    assert!(is_box_char(&'\u{257F}'));
    assert!(!is_box_char(&'\u{24FF}'));
    assert!(!is_box_char(&'\u{2580}'));
    assert!(!is_box_char(&'a'));
}

#[test]
fn classification() {
    let mut g = grid_of(&["a│ b"], config(true, vec![3], false));
    *g.get_mut(3, 0) = Cell { fg: 3, c: 'b' };
    assert!(g.is_sand(0, 0));
    assert!(g.is_static(1, 0));
    assert!(!g.is_sand(1, 0));
    assert!(g.is_empty(2, 0));
    assert!(!g.is_static(2, 0));
    assert!(g.is_static(3, 0));
    let loose = grid_of(&["│"], config(false, vec![], false));
    assert!(loose.is_sand(0, 0));
    let mut space = grid_of(&[" "], config(false, vec![SAND_FG], false));
    assert!(!space.is_static(0, 0));
    space.get_mut(0, 0).c = UNSET;
    assert!(space.is_empty(0, 0));
}

#[test]
fn swap_turns_unset_into_space() {
    let mut g = grid_of(&["a.", ".."], config(false, vec![], false));
    g.swap(0, 1, 0, 0);
    assert_eq!(g.get(0, 1), Cell { fg: SAND_FG, c: 'a' });
    assert_eq!(g.get(0, 0), Cell { fg: 0, c: ' ' });
    assert_eq!(g.get(1, 1).c, UNSET);
    g.swap(1, 0, 1, 0);
    assert_eq!(g.get(1, 0).c, ' ');
}

#[test]
fn sand_falls_to_the_bottom_and_stays() {
    let mut g = grid_of(&[".a.", "...", "..."], config(false, vec![], false));
    g.step();
    assert_eq!(g.get(1, 1).c, 'a');
    assert!(g.is_empty(1, 0));
    g.step();
    assert_eq!(g.get(1, 2).c, 'a');
    for _ in 0..3 {
        g.step();
        assert_eq!(g.get(1, 2), Cell { fg: SAND_FG, c: 'a' });
    }
    assert_eq!(chars_of(&g), vec![". .", ". .", ".a."]);
}

#[test]
fn still_grid_is_fixed() {
    for anti in [false, true] {
        let rows = ["┌─┐", "│x│", "└ ┘"];
        let mut g = grid_of(&rows, config(true, vec![SAND_FG], anti));
        let before = g.data.clone();
        g.step_with(&vec![true; 9]);
        g.step_with(&vec![false; 9]);
        g.step();
        assert_eq!(g.data, before);
    }
}

#[test]
fn step_conserves_contents() {
    let rows = ["abc.d", ".e..f", "..│..", "....."];
    let mut g = grid_of(&rows, config(true, vec![], false));
    let before = sorted_contents(&g);
    for i in 0..6 {
        g.step_with(&vec![i % 2 == 0; 20]);
        assert_eq!(sorted_contents(&g), before);
    }
    g.step();
    assert_eq!(sorted_contents(&g), before);
}

#[test]
fn diagonal_falls_follow_the_coin() {
    let cfg = || config(false, vec![], false);
    let mut left = grid_of(&[".a.", ".b."], cfg());
    left.step_with(&vec![true; 6]);
    assert_eq!(chars_of(&left), vec![". .", "ab."]);
    let mut right = grid_of(&[".a.", ".b."], cfg());
    right.step_with(&vec![false; 6]);
    assert_eq!(chars_of(&right), vec![". .", ".ba"]);
}

#[test]
fn edge_columns_do_not_fall_outward() {
    let cfg = || config(false, vec![], false);
    let mut g = grid_of(&["a.b", "c.d"], cfg());
    g.step_with(&vec![true; 6]);
    assert_eq!(chars_of(&g), vec!["a. ", "cbd"]);
    let mut g = grid_of(&["a.b", "c.d"], cfg());
    g.step_with(&vec![false; 6]);
    assert_eq!(chars_of(&g), vec![" .b", "cad"]);
    let mut g = grid_of(&["a", "c"], cfg());
    g.step_with(&vec![true; 2]);
    g.step_with(&vec![false; 2]);
    assert_eq!(chars_of(&g), vec!["a", "c"]);
}

#[test]
fn antigravity_moves_sand_up() {
    let mut g = grid_of(&["...", "...", ".a."], config(false, vec![], true));
    g.step_with(&vec![true; 9]);
    assert_eq!(chars_of(&g), vec!["...", ".a.", ". ."]);
    g.step_with(&vec![true; 9]);
    assert_eq!(g.get(1, 0).c, 'a');
}

#[test]
fn static_cells_block_sand() {
    let mut g = grid_of(&[".a.", "xyz"], config(false, vec![SAND_FG], false));
    *g.get_mut(1, 0) = Cell { fg: 1, c: 'a' };
    g.step();
    assert_eq!(g.get(1, 0).c, 'a');
}

#[test]
fn zero_sized_grids_step() {
    let mut g = Grid::new(config(false, vec![], false), 0, 0);
    g.step();
    let mut g = Grid::new(config(false, vec![], true), 2, 1);
    g.step();
    assert_eq!(g.data.len(), 2);
}
