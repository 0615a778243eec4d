use termui::render::{Bg, Cell, Color, Draw, Extent, Fg, Grid, Pos, RenderBuffer};

#[test]
fn empty_buffer_renders_nothing() {
    let mut b = RenderBuffer::new((4, 2));
    assert_eq!(b.render_ansi(), "");
}

#[test]
fn text_draw_end_to_end() {
    // Draw::Text("Hi") at (0,0) on a fresh buffer: one cursor-goto to (1,1),
    // 'H', then 'i' with no intervening goto, and no color codes since the
    // attributes are still the defaults.
    let mut b = RenderBuffer::new((80, 24));
    b.draw((0, 0), Draw::Text("Hi"));
    assert_eq!(b.render_ansi(), "\x1b[1;1HHi");
}

#[test]
fn second_render_is_empty() {
    // Idempotence: with no intervening draw, a repeated render emits nothing.
    let mut b = RenderBuffer::new((10, 3));
    b.draw((2, 1), Draw::Text("abc"));
    let first = b.render_ansi();
    assert!(!first.is_empty());
    assert_eq!(b.render_ansi(), "");
}

#[test]
fn unchanged_cells_emit_nothing() {
    // Diff minimality: after a render, touching one cell re-emits that cell
    // alone, nothing referencing the unchanged neighbours.
    let mut b = RenderBuffer::new((3, 1));
    b.draw((0, 0), Draw::Text("abc"));
    b.render_ansi();
    b.set_cell(Pos { x: 1, y: 0 }, 'X');
    assert_eq!(b.render_ansi(), "\x1b[1;2HX");
}

#[test]
fn foreground_code_emitted_once_per_run() {
    let mut b = RenderBuffer::new((4, 1));
    b.set_fg(Color::Blue);
    b.draw((0, 0), Draw::Text("ab"));
    assert_eq!(b.render_ansi(), "\x1b[1;1H\x1b[38;5;4mab");
}

#[test]
fn background_code_emitted() {
    let mut b = RenderBuffer::new((2, 1));
    b.set_bg(Color::White);
    b.set_cell(Pos { x: 0, y: 0 }, ' ');
    assert_eq!(b.render_ansi(), "\x1b[1;1H\x1b[48;5;7m ");
}

#[test]
fn rect_fills_cells() {
    let mut b = RenderBuffer::new((4, 2));
    b.set_bg(Color::Blue);
    b.draw((1, 0), Draw::Rect(2, 2));
    assert_eq!(b.render_ansi(), "\x1b[1;2H\x1b[48;5;4m  \x1b[2;2H  ");
}

#[test]
fn gap_in_row_needs_new_goto() {
    let mut b = RenderBuffer::new((5, 1));
    b.draw((0, 0), Draw::Text("a"));
    b.draw((2, 0), Draw::Text("b"));
    assert_eq!(b.render_ansi(), "\x1b[1;1Ha\x1b[1;3Hb");
}

#[test]
fn row_wrap_needs_new_goto() {
    let mut b = RenderBuffer::new((2, 2));
    b.draw((0, 0), Draw::Text("ab"));
    b.draw((0, 1), Draw::Text("cd"));
    assert_eq!(b.render_ansi(), "\x1b[1;1Hab\x1b[2;1Hcd");
}

#[test]
fn text_past_the_edge_is_clipped() {
    let mut b = RenderBuffer::new((3, 1));
    b.draw((1, 0), Draw::Text("xyz"));
    assert_eq!(b.render_ansi(), "\x1b[1;2Hxy");
}

#[test]
fn grid_get_out_of_range_is_default() {
    let g = Grid::new(Extent { w: 2, h: 2 });
    let d = Cell(' ', Fg(Color::White), Bg(Color::Black));
    assert_eq!(g.get(Pos { x: 5, y: 0 }), d);
    assert_eq!(g.get(Pos { x: 0, y: 7 }), d);
    assert_eq!(g.get(Pos { x: 1, y: 1 }), d);
}

#[test]
fn grid_set_then_get() {
    let mut g = Grid::new(Extent { w: 3, h: 2 });
    let c = Cell('q', Fg(Color::Blue), Bg(Color::White));
    g.set(Pos { x: 2, y: 1 }, c);
    assert_eq!(g.get(Pos { x: 2, y: 1 }), c);
    assert_eq!(g.get(Pos { x: 1, y: 1 }), Cell(' ', Fg(Color::White), Bg(Color::Black)));
}

#[test]
fn grid_set_out_of_range_is_a_noop() {
    let mut g = Grid::new(Extent { w: 2, h: 2 });
    g.set(Pos { x: 9, y: 9 }, Cell('z', Fg(Color::Blue), Bg(Color::Blue)));
    for x in 0..2 {
        for y in 0..2 {
            assert_eq!(g.get(Pos { x, y }), Cell(' ', Fg(Color::White), Bg(Color::Black)));
        }
    }
}

#[test]
fn grid_get_mut_writes_through() {
    let mut g = Grid::new(Extent { w: 2, h: 2 });
    *g.get_mut(Pos { x: 1, y: 0 }) = Cell('m', Fg(Color::Black), Bg(Color::White));
    assert_eq!(g.get(Pos { x: 1, y: 0 }), Cell('m', Fg(Color::Black), Bg(Color::White)));
}

#[test]
fn grid_resize_truncates_and_pads() {
    let mut g = Grid::new(Extent { w: 2, h: 2 });
    let c = Cell('a', Fg(Color::White), Bg(Color::Black));
    g.set(Pos { x: 0, y: 0 }, c);
    g.resize(Extent { w: 3, h: 3 });
    assert_eq!(g.size(), Extent { w: 3, h: 3 });
    // The flat storage keeps its prefix: the old cell (0,0) is still first.
    assert_eq!(g.get(Pos { x: 0, y: 0 }), c);
    assert_eq!(g.get(Pos { x: 2, y: 2 }), Cell(' ', Fg(Color::White), Bg(Color::Black)));
}

#[test]
fn buffer_resize_keeps_dimensions_in_sync() {
    let mut b = RenderBuffer::new((4, 2));
    b.resize(Extent { w: 2, h: 2 });
    assert_eq!(b.size(), Extent { w: 2, h: 2 });
    b.draw((0, 0), Draw::Text("hi"));
    assert_eq!(b.render_ansi(), "\x1b[1;1Hhi");
}

#[test]
fn attribute_codes() {
    assert_eq!(Fg(Color::White).code(), "\x1b[38;5;7m");
    assert_eq!(Fg(Color::Black).code(), "\x1b[38;5;0m");
    assert_eq!(Fg(Color::LightWhite).code(), "\x1b[38;5;15m");
    assert_eq!(Fg(Color::Blue).code(), "\x1b[38;5;4m");
    assert_eq!(Bg(Color::White).code(), "\x1b[48;5;7m");
    assert_eq!(Bg(Color::Black).code(), "\x1b[48;5;0m");
    assert_eq!(Bg(Color::LightWhite).code(), "\x1b[48;5;15m");
    assert_eq!(Bg(Color::Blue).code(), "\x1b[48;5;4m");
}

#[test]
fn default_cell_is_space_white_on_black() {
    assert_eq!(Cell::default(), Cell(' ', Fg(Color::White), Bg(Color::Black)));
}

#[test]
fn zero_sized_buffer_renders_nothing() {
    let mut b = RenderBuffer::new((0, 0));
    b.draw((0, 0), Draw::Text("x"));
    assert_eq!(b.render_ansi(), "");
}

#[test]
fn set_fg_does_not_touch_written_cells() {
    let mut b = RenderBuffer::new((2, 1));
    b.draw((0, 0), Draw::Text("a"));
    b.set_fg(Color::Blue);
    // The cell written before the attribute change keeps its attributes.
    assert_eq!(b.render_ansi(), "\x1b[1;1Ha");
}

#[test]
fn first_emitted_cell_always_gets_a_goto() {
    // Even a lone change in the middle of the grid opens with an absolute
    // cursor position: there is no previously written cell to follow.
    let mut b = RenderBuffer::new((4, 2));
    b.set_cell(Pos { x: 2, y: 1 }, 'z');
    assert_eq!(b.render_ansi(), "\x1b[2;3Hz");
}
