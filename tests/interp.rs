use ansi_sand::color::{blue, green, is_true_color, red, true_color, DEFAULT_FG};
use ansi_sand::grid::{Cell, Config, Grid, UNSET};
use ansi_sand::interp::Performer;
use ansi_sand::render::list_colors;
use anstyle_parse::{DefaultCharAccumulator, Params, Parser, Perform};

struct Feed(Performer);

impl Perform for Feed {
    fn print(&mut self, c: char) {
        self.0.print(c);
    }

    fn execute(&mut self, byte: u8) {
        self.0.execute(byte);
    }

    fn csi_dispatch(&mut self, params: &Params, intermediates: &[u8], ignore: bool, action: u8) {
        self.0.csi_dispatch(params, intermediates, ignore, action);
    }
}

fn plain_config() -> Config {
    Config { borders: false, colors: vec![], antigravity: false }
}

fn capture(input: &[u8], w: usize, h: usize) -> Performer {
    let mut parser = Parser::<DefaultCharAccumulator>::new();
    let mut feed = Feed(Performer::new(Grid::new(plain_config(), w, h)));
    for byte in input {
        parser.advance(&mut feed, *byte);
    }
    feed.0
}

fn fg_after(input: &[u8]) -> u32 {
    capture(input, 4, 2).fg
}

#[test]
fn basic_and_bright_colors() {
    assert_eq!(fg_after(b"\x1b[31m"), 1);
    assert_eq!(fg_after(b"\x1b[91m"), 9);
    assert_eq!(fg_after(b"\x1b[31m\x1b[0m"), 15);
    assert_eq!(fg_after(b"\x1b[30m"), 0);
    assert_eq!(fg_after(b"\x1b[97m"), 15);
    assert_eq!(fg_after(b"\x1b[34m\x1b[39m"), 15);
    assert_eq!(fg_after(b"\x1b[32m\x1b[m"), 15);
}

#[test]
fn palette_and_true_colors() {
    assert_eq!(fg_after(b"\x1b[38;5;200m"), 200);
    let fg = fg_after(b"\x1b[38;2;10;20;30m");
    assert!(is_true_color(fg));
    assert_eq!((red(fg), green(fg), blue(fg)), (10, 20, 30));
    assert_eq!(fg, true_color(10, 20, 30));
    assert_eq!(fg, 0x800A_141E);
}

#[test]
fn truncated_sequences_keep_color() {
    assert_eq!(fg_after(b"\x1b[32m\x1b[38;5m"), 2);
    assert_eq!(fg_after(b"\x1b[32m\x1b[38;2;1;2m"), 2);
    assert_eq!(fg_after(b"\x1b[32m\x1b[38m"), 2);
    assert_eq!(fg_after(b"\x1b[32m\x1b[38;5;300m"), 2);
    assert_eq!(fg_after(b"\x1b[32m\x1b[38;2;1;2;256m"), 2);
}

#[test]
fn other_final_bytes_are_ignored() {
    assert_eq!(fg_after(b"\x1b[31H"), DEFAULT_FG);
    assert_eq!(fg_after(b"\x1b[33m\x1b[2J"), 3);
    assert_eq!(fg_after(b"\x1b[1m"), DEFAULT_FG);
}

#[test]
fn items_dispatch_directly() {
    let mut p = Performer::new(Grid::new(plain_config(), 2, 2));
    p.csi_dispatch_items(&vec![vec![38], vec![5], vec![42]], b'm');
    assert_eq!(p.fg, 42);
    p.csi_dispatch_items(&vec![vec![38], vec![2]], b'm');
    assert_eq!(p.fg, 42);
    p.csi_dispatch_items(&vec![], b'm');
    assert_eq!(p.fg, 42);
    assert_eq!(p.colors, vec![42]);
}

#[test]
fn plain_text_keeps_default_color() {
    let p = capture(b"ab\ncd\x07e\x1b[2Jf", 4, 3);
    for y in 0..3 {
        for x in 0..4 {
            let cell = p.grid.get(x, y);
            if cell.c != UNSET {
                assert_eq!(cell.fg, DEFAULT_FG);
            }
        }
    }
    assert_eq!(p.grid.get(0, 1).c, 'c');
    assert_eq!(p.grid.get(2, 1).c, 'e');
    assert_eq!(p.grid.get(3, 1).c, 'f');
    assert!(p.colors.is_empty());
}

#[test]
fn single_line_round_trip() {
    let text = "hello";
    let p = capture(text.as_bytes(), 5, 2);
    for (i, ch) in text.chars().enumerate() {
        assert_eq!(p.grid.get(i, 0), Cell { fg: DEFAULT_FG, c: ch });
    }
    for x in 0..5 {
        assert_eq!(p.grid.get(x, 1).c, UNSET);
    }
    assert_eq!((p.x, p.y), (5, 0));
}

#[test]
fn writes_past_the_grid_are_dropped() {
    let p = capture(b"abcdef\nxy\nzz\nqq", 3, 2);
    assert_eq!(p.grid.get(2, 0).c, 'c');
    assert_eq!(p.grid.get(0, 1).c, 'x');
    assert_eq!(p.grid.get(2, 1).c, UNSET);
    assert_eq!((p.x, p.y), (2, 3));
}

#[test]
fn colored_cells_take_current_color() {
    let p = capture(b"\x1b[31mA\x1b[38;5;200mB\x1b[0mC", 4, 1);
    assert_eq!(p.grid.get(0, 0), Cell { fg: 1, c: 'A' });
    assert_eq!(p.grid.get(1, 0), Cell { fg: 200, c: 'B' });
    assert_eq!(p.grid.get(2, 0), Cell { fg: 15, c: 'C' });
}

#[test]
fn list_colors_scenario() {
    let p = capture(b"\x1b[31mA\x1b[38;5;200mB\x1b[0mC", 4, 1);
    assert_eq!(p.colors, vec![1, 200, 15]);
    let again = capture(b"\x1b[31mA\x1b[31mB\x1b[0m\x1b[39m", 4, 1);
    assert_eq!(again.colors, vec![1, 15]);
}

#[test]
fn color_report_text() {
    let text: String = list_colors(&vec![1, true_color(1, 2, 3)]).into_iter().collect();
    assert_eq!(
        text,
        "Colors detected in input:\n\x1b[38;5;1m  ***** 1\n\x1b[38;2;1;2;3m  ***** 2147549699\n\x1b[39m\n"
    );
}
