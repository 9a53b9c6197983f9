use ansi_sand::color::{push_decimal, true_color, write_color};
use ansi_sand::grid::{Cell, Config, Grid, UNSET};

fn text(v: Vec<char>) -> String {
    v.into_iter().collect()
}

#[test]
fn decimal_digits() {
    for (n, s) in [(0u32, "0"), (7, "7"), (10, "10"), (200, "200"), (4294967295, "4294967295")] {
        let mut out = vec!['x'];
        push_decimal(&mut out, n);
        assert_eq!(text(out), format!("x{}", s));
    }
}

#[test]
fn palette_color_code() {
    let mut out = Vec::new();
    write_color(&mut out, 200);
    assert_eq!(text(out), "\x1b[38;5;200m");
}

#[test]
fn true_color_code() {
    let mut out = Vec::new();
    write_color(&mut out, true_color(10, 20, 30));
    assert_eq!(text(out), "\x1b[38;2;10;20;30m");
}

#[test]
fn frame_ends_rows_at_unset_cells() {
    let cfg = Config { borders: false, colors: vec![], antigravity: false };
    let mut g = Grid::new(cfg, 3, 2);
    *g.get_mut(0, 0) = Cell { fg: 7, c: 'a' };
    *g.get_mut(1, 0) = Cell { fg: 7, c: 'b' };
    *g.get_mut(0, 1) = Cell { fg: 7, c: 'c' };
    assert_eq!(g.get(2, 0).c, UNSET);
    assert_eq!(
        text(g.render()),
        "\x1b[38;5;7mab\x1b[38;5;0m\x1b[1E\x1b[38;5;7mc\x1b[38;5;0m\0\0\x1b[1;1H"
    );
}

#[test]
fn frame_prints_spaces_and_skips_repeated_colors() {
    let cfg = Config { borders: false, colors: vec![], antigravity: false };
    let mut g = Grid::new(cfg, 2, 2);
    *g.get_mut(0, 0) = Cell { fg: 0, c: ' ' };
    *g.get_mut(1, 0) = Cell { fg: 0, c: 'z' };
    *g.get_mut(0, 1) = Cell { fg: 3, c: 'y' };
    *g.get_mut(1, 1) = Cell { fg: 3, c: ' ' };
    assert_eq!(text(g.render()), " z\x1b[38;5;3my \x1b[1;1H");
}

#[test]
fn empty_frame_only_moves_home() {
    let cfg = Config { borders: false, colors: vec![], antigravity: false };
    let g = Grid::new(cfg, 0, 0);
    assert_eq!(text(g.render()), "\x1b[1;1H");
}
