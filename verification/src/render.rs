//! The cell model, the grid, and the double-buffered renderer that turns the
//! difference between the front grid (what the terminal shows) and the back
//! grid (the desired state) into a minimal stream of ANSI control codes.

use vstd::prelude::*;
use vstd::string::StringExecFns;
use vstd::string::StrSliceExecFns;

use crate::ansi;

verus! {

/// The fixed four-entry palette the renderer emits.
#[derive(Debug, Copy, Clone, PartialEq, Eq, Structural)]
pub enum Color {
    White,
    Black,
    LightWhite,
    Blue,
}

/// A foreground attribute.
#[derive(Debug, Copy, Clone, PartialEq, Eq, Structural)]
pub struct Fg(pub Color);

/// A background attribute.
#[derive(Debug, Copy, Clone, PartialEq, Eq, Structural)]
pub struct Bg(pub Color);

/// One character position's glyph plus foreground and background attribute.
#[derive(Debug, Copy, Clone, PartialEq, Eq, Structural)]
pub struct Cell(pub char, pub Fg, pub Bg);

/// The foreground a fresh buffer starts with.
pub open spec fn default_fg() -> Fg {
    Fg(Color::White)
}

/// The background a fresh buffer starts with.
pub open spec fn default_bg() -> Bg {
    Bg(Color::Black)
}

/// The cell every grid position starts as: a space in the default attributes.
pub open spec fn default_cell() -> Cell {
    Cell(' ', default_fg(), default_bg())
}

impl Default for Cell {
    fn default() -> (r: Cell)
        ensures
            r == default_cell(),
    {
        Cell(' ', Fg(Color::White), Bg(Color::Black))
    }
}

/// A width and height in character cells.
#[derive(Debug, Copy, Clone, PartialEq, Eq, Structural)]
pub struct Extent {
    pub w: usize,
    pub h: usize,
}

/// A column and row, zero-indexed from the top-left corner.
#[derive(Debug, Copy, Clone, PartialEq, Eq, Structural)]
pub struct Pos {
    pub x: usize,
    pub y: usize,
}

/// A fixed-size two-dimensional array of cells stored row-major.
pub struct Grid {
    size: Extent,
    cells: Vec<Cell>,
}

impl Grid {
    /// The storage always holds exactly one cell per position.
    pub closed spec fn wf(self) -> bool {
        self.cells@.len() == self.size.w * self.size.h && self.size.w * self.size.h <= usize::MAX
    }

    pub closed spec fn spec_size(self) -> Extent {
        self.size
    }

    /// The row-major contents.
    pub closed spec fn view(self) -> Seq<Cell> {
        self.cells@
    }

    /// The cell at a position; the default cell for any out-of-range position.
    pub open spec fn spec_get(self, x: int, y: int) -> Cell {
        if 0 <= x < self.spec_size().w && 0 <= y < self.spec_size().h {
            self@[y * self.spec_size().w + x]
        } else {
            default_cell()
        }
    }

    /// Allocate `size.w * size.h` default cells.
    pub fn new(size: Extent) -> (g: Grid)
        requires
            size.w * size.h <= usize::MAX,
        ensures
            g.wf(),
            g.spec_size() == size,
            g@ == Seq::new((size.w * size.h) as nat, |i: int| default_cell()),
    {
        let n = size.w * size.h;
        let mut cells: Vec<Cell> = Vec::new();
        while cells.len() < n
            invariant
                cells@.len() <= n,
                cells@ =~= Seq::new(cells@.len(), |i: int| default_cell()),
            decreases n - cells@.len(),
        {
            cells.push(Cell::default());
        }
        proof {
            assert(cells@ =~= Seq::new((size.w * size.h) as nat, |i: int| default_cell()));
        }
        Grid { size, cells }
    }

    pub fn size(&self) -> (r: Extent)
        ensures
            r == self.spec_size(),
    {
        self.size
    }

    /// Reallocate to the new size, truncating or padding with default cells.
    pub fn resize(&mut self, new_size: Extent)
        requires
            old(self).wf(),
            new_size.w * new_size.h <= usize::MAX,
        ensures
            final(self).wf(),
            final(self).spec_size() == new_size,
            final(self)@.len() == new_size.w * new_size.h,
            forall|i: int|
                0 <= i < final(self)@.len() ==> final(self)@[i] == (if i < old(self)@.len() {
                    old(self)@[i]
                } else {
                    default_cell()
                }),
    {
        let n = new_size.w * new_size.h;
        self.cells.truncate(n);
        while self.cells.len() < n
            invariant
                self.cells@.len() <= n,
                self.cells@.len() < n ==> self.cells@.len() >= old(self)@.len(),
                self.size == old(self).size,
                forall|i: int|
                    0 <= i < self.cells@.len() ==> self.cells@[i] == (if i < old(self)@.len() {
                        old(self)@[i]
                    } else {
                        default_cell()
                    }),
            decreases n - self.cells@.len(),
        {
            self.cells.push(Cell::default());
        }
        self.size = new_size;
    }

    /// The flat index of an in-range position.
    fn idx_of(&self, pos: Pos) -> (r: Option<usize>)
        requires
            self.wf(),
        ensures
            match r {
                Some(i) => pos.x < self.spec_size().w && pos.y < self.spec_size().h && i
                    == pos.y * self.spec_size().w + pos.x,
                None => pos.x >= self.spec_size().w || pos.y >= self.spec_size().h,
            },
    {
        if pos.x < self.size.w && pos.y < self.size.h {
            proof {
                assert(pos.y * self.size.w + pos.x < self.size.w * self.size.h && self.size.w
                    * pos.y == pos.y * self.size.w) by (nonlinear_arith)
                    requires
                        pos.x < self.size.w,
                        pos.y < self.size.h,
                ;
            }
            Some(self.size.w * pos.y + pos.x)
        } else {
            None
        }
    }

    /// The cell at `pos`, or the default cell when `pos` is out of range.
    pub fn get(&self, pos: Pos) -> (r: Cell)
        requires
            self.wf(),
        ensures
            r == self.spec_get(pos.x as int, pos.y as int),
    {
        match self.idx_of(pos) {
            Some(idx) => {
                proof {
                    lemma_row_major_unique(self.size.w as int, self.size.h as int);
                }
                self.cells[idx]
            },
            None => Cell::default(),
        }
    }

    /// Mutable access to the cell at `pos`, which must be in range: unlike
    /// `get`, out-of-range mutable access is rejected up front rather than
    /// masked.
    pub fn get_mut(&mut self, pos: Pos) -> (r: &mut Cell)
        requires
            old(self).wf(),
            pos.x < old(self).spec_size().w,
            pos.y < old(self).spec_size().h,
        ensures
            *r == old(self).spec_get(pos.x as int, pos.y as int),
            final(self).wf(),
            final(self).spec_size() == old(self).spec_size(),
            final(self)@.len() == old(self)@.len(),
            forall|x: int, y: int|
                final(self).spec_get(x, y) == (if x == pos.x as int && y == pos.y as int {
                    *final(r)
                } else {
                    old(self).spec_get(x, y)
                }),
    {
        proof {
            lemma_row_major_unique(self.size.w as int, self.size.h as int);
        }
        let idx = self.size.w * pos.y + pos.x;
        &mut self.cells[idx]
    }

    /// Write the cell at `pos`; silently a no-op when `pos` is out of range.
    pub fn set(&mut self, pos: Pos, cell: Cell)
        requires
            old(self).wf(),
        ensures
            final(self).wf(),
            final(self).spec_size() == old(self).spec_size(),
            final(self)@.len() == old(self)@.len(),
            forall|x: int, y: int|
                final(self).spec_get(x, y) == (if x == pos.x as int && y == pos.y as int
                    && x < old(self).spec_size().w && y < old(self).spec_size().h {
                    cell
                } else {
                    old(self).spec_get(x, y)
                }),
    {
        match self.idx_of(pos) {
            Some(idx) => {
                proof {
                    lemma_row_major_unique(self.size.w as int, self.size.h as int);
                }
                self.cells[idx] = cell;
            },
            None => {},
        }
    }
}

impl Fg {
    /// The control code that selects this foreground.
    pub fn code(&self) -> (r: &'static str)
        ensures
            r@ == ansi::fg_seq(self.0),
    {
        ansi::fg_code(self.0)
    }
}

impl Bg {
    /// The control code that selects this background.
    pub fn code(&self) -> (r: &'static str)
        ensures
            r@ == ansi::bg_seq(self.0),
    {
        ansi::bg_code(self.0)
    }
}

/// The flat indices, in ascending order from `i`, at which the two
/// row-major contents disagree.  These are exactly the cells a render emits.
pub open spec fn diff_idxs(f: Seq<Cell>, b: Seq<Cell>, i: int) -> Seq<int>
    decreases f.len() - i,
{
    if i < 0 || i >= f.len() {
        Seq::empty()
    } else if f[i] != b[i] {
        seq![i] + diff_idxs(f, b, i + 1)
    } else {
        diff_idxs(f, b, i + 1)
    }
}

/// Whether an absolute cursor-position code must be emitted before writing at
/// column `x`, row `y` (zero-indexed): only when the cell written before, if
/// any, was not the one immediately to the left on the same row.
pub open spec fn needs_goto(last: Option<(int, int)>, x: int, y: int) -> bool {
    match last {
        None => true,
        Some(p) => !(p.1 == y && p.0 == x - 1),
    }
}

/// What one changed cell contributes to the code stream: a cursor-position
/// code when needed, a foreground and a background selection only when they
/// differ from the attributes last emitted, then the glyph itself.
pub open spec fn cell_emit(
    c: Cell,
    x: int,
    y: int,
    last: Option<(int, int)>,
    fg: Fg,
    bg: Bg,
) -> Seq<char> {
    (if needs_goto(last, x, y) {
        ansi::goto_seq((x + 1) as nat, (y + 1) as nat)
    } else {
        Seq::empty()
    }) + (if c.1 != fg {
        ansi::fg_seq(c.1.0)
    } else {
        Seq::empty()
    }) + (if c.2 != bg {
        ansi::bg_seq(c.2.0)
    } else {
        Seq::empty()
    }) + seq![c.0]
}

/// The code stream for the changed cells at the flat indices `idxs`, starting
/// from the cursor and attribute state `last`, `fg`, `bg`.
pub open spec fn encode_diff(
    b: Seq<Cell>,
    w: int,
    idxs: Seq<int>,
    last: Option<(int, int)>,
    fg: Fg,
    bg: Bg,
) -> Seq<char>
    decreases idxs.len(),
{
    if idxs.len() == 0 {
        Seq::empty()
    } else {
        let i = idxs[0];
        let x = i % w;
        let y = i / w;
        cell_emit(b[i], x, y, last, fg, bg) + encode_diff(
            b,
            w,
            idxs.drop_first(),
            Some((x, y)),
            b[i].1,
            b[i].2,
        )
    }
}

/// The complete code stream a render of width-`w` contents emits: the changed
/// cells in row-major order, starting with no cursor position written yet and
/// with the terminal assumed to be in the default attributes.
pub open spec fn render_spec(f: Seq<Cell>, b: Seq<Cell>, w: int) -> Seq<char> {
    encode_diff(b, w, diff_idxs(f, b, 0), None, default_fg(), default_bg())
}

/// Idempotence of rendering: where the front and back contents agree the
/// rendered code stream is empty.  Since a render leaves the front grid equal
/// to the back grid, an immediately repeated render emits nothing.
pub proof fn lemma_render_unchanged_is_empty(f: Seq<Cell>, b: Seq<Cell>, w: int)
    requires
        f == b,
    ensures
        render_spec(f, b, w) == Seq::<char>::empty(),
{
    lemma_diff_idxs_equal_empty(f, b, 0);
}

proof fn lemma_diff_idxs_equal_empty(f: Seq<Cell>, b: Seq<Cell>, i: int)
    requires
        f == b,
    ensures
        diff_idxs(f, b, i) == Seq::<int>::empty(),
    decreases f.len() - i,
{
    if 0 <= i < f.len() {
        lemma_diff_idxs_equal_empty(f, b, i + 1);
    }
}

/// Diff minimality: the rendered stream is built from `diff_idxs`, one glyph
/// (with its cursor and attribute codes) per listed index and nothing else,
/// and every index it lists is a position whose front and back cells
/// disagree.  No emitted byte refers to a position where they agree.
pub proof fn lemma_diff_only_changed(f: Seq<Cell>, b: Seq<Cell>, i: int)
    ensures
        forall|k: int|
            0 <= k < diff_idxs(f, b, i).len() ==> i <= #[trigger] diff_idxs(f, b, i)[k] < f.len()
                && f[diff_idxs(f, b, i)[k]] != b[diff_idxs(f, b, i)[k]],
    decreases f.len() - i,
{
    if i < 0 || i >= f.len() {
    } else {
        lemma_diff_only_changed(f, b, i + 1);
        if f[i] != b[i] {
            assert forall|k: int| 0 <= k < diff_idxs(f, b, i).len() implies i <= #[trigger] diff_idxs(
                f,
                b,
                i,
            )[k] < f.len() && f[diff_idxs(f, b, i)[k]] != b[diff_idxs(f, b, i)[k]] by {
                if k > 0 {
                    assert(diff_idxs(f, b, i)[k] == diff_idxs(f, b, i + 1)[k - 1]);
                }
            }
        }
    }
}

/// Distinct in-range positions have distinct row-major indices.
proof fn lemma_row_major_unique(w: int, h: int)
    ensures
        forall|x1: int, y1: int, x2: int, y2: int|
            0 <= x1 < w && 0 <= y1 < h && 0 <= x2 < w && 0 <= y2 < h && (x1 != x2 || y1 != y2)
                ==> #[trigger] (y1 * w + x1) != #[trigger] (y2 * w + x2),
        forall|x: int, y: int| 0 <= x < w && 0 <= y < h ==> 0 <= #[trigger] (y * w + x) < w * h,
{
    assert forall|x1: int, y1: int, x2: int, y2: int|
        0 <= x1 < w && 0 <= y1 < h && 0 <= x2 < w && 0 <= y2 < h && (x1 != x2 || y1 != y2)
            implies #[trigger] (y1 * w + x1) != #[trigger] (y2 * w + x2) by {
        assert(y1 * w + x1 != y2 * w + x2) by (nonlinear_arith)
            requires
                0 <= x1 < w,
                0 <= y1 < h,
                0 <= x2 < w,
                0 <= y2 < h,
                x1 != x2 || y1 != y2,
        ;
    }
    assert forall|x: int, y: int| 0 <= x < w && 0 <= y < h implies 0 <= #[trigger] (y * w + x) < w * h by {
        assert(0 <= y * w + x < w * h) by (nonlinear_arith)
            requires
                0 <= x < w,
                0 <= y < h,
        ;
    }
}

/// Different drawing modes for stamping shapes and text into the back grid.
pub enum Draw<'a> {
    Text(&'a str),
    Rect(usize, usize),
}

/// Whether the primitive `d`, anchored at (`ox`, `oy`), writes to the
/// position (`x`, `y`).
pub open spec fn draw_covers(d: Draw, ox: int, oy: int, x: int, y: int) -> bool {
    match d {
        Draw::Text(s) => y == oy && ox <= x < ox + s@.len(),
        Draw::Rect(w, h) => ox <= x < ox + w && oy <= y < oy + h,
    }
}

/// The glyph the primitive `d`, anchored at column `ox`, writes to column `x`.
pub open spec fn draw_glyph(d: Draw, ox: int, x: int) -> char {
    match d {
        Draw::Text(s) => s@[x - ox],
        Draw::Rect(w, h) => ' ',
    }
}

/// The double buffer: the front grid holds what the last render emitted, the
/// back grid the desired state being accumulated by drawing calls, and the
/// cached attributes apply to subsequently written cells.
pub struct RenderBuffer {
    size: Extent,
    front: Grid,
    back: Grid,
    fg: Fg,
    bg: Bg,
}

impl RenderBuffer {
    /// Both grids always exist at exactly the buffer's size, and the size
    /// stays within what the 1-indexed cursor codes can address.
    pub closed spec fn wf(self) -> bool {
        &&& self.front.wf()
        &&& self.back.wf()
        &&& self.front.spec_size() == self.size
        &&& self.back.spec_size() == self.size
        &&& self.size.w <= 0xFFFF
        &&& self.size.h <= 0xFFFF
    }

    pub closed spec fn spec_size(self) -> Extent {
        self.size
    }

    /// The row-major contents of the front grid: what the terminal shows.
    pub closed spec fn front_cells(self) -> Seq<Cell> {
        self.front@
    }

    /// The row-major contents of the back grid: the desired next state.
    pub closed spec fn back_cells(self) -> Seq<Cell> {
        self.back@
    }

    pub closed spec fn spec_fg(self) -> Fg {
        self.fg
    }

    pub closed spec fn spec_bg(self) -> Bg {
        self.bg
    }

    /// The back-grid cell at a position; the default cell out of range.
    pub open spec fn back_at(self, x: int, y: int) -> Cell {
        if 0 <= x < self.spec_size().w && 0 <= y < self.spec_size().h {
            self.back_cells()[y * self.spec_size().w + x]
        } else {
            default_cell()
        }
    }

    /// The front-grid cell at a position; the default cell out of range.
    pub open spec fn front_at(self, x: int, y: int) -> Cell {
        if 0 <= x < self.spec_size().w && 0 <= y < self.spec_size().h {
            self.front_cells()[y * self.spec_size().w + x]
        } else {
            default_cell()
        }
    }

    /// Two independently allocated grids of the given size, every cell the
    /// default, in the default attributes.
    pub fn new(size: (usize, usize)) -> (r: RenderBuffer)
        requires
            size.0 * size.1 <= usize::MAX,
            size.0 <= 0xFFFF,
            size.1 <= 0xFFFF,
        ensures
            r.wf(),
            r.spec_size() == (Extent { w: size.0, h: size.1 }),
            r.front_cells() == Seq::new((size.0 * size.1) as nat, |i: int| default_cell()),
            r.back_cells() == Seq::new((size.0 * size.1) as nat, |i: int| default_cell()),
            r.spec_fg() == default_fg(),
            r.spec_bg() == default_bg(),
    {
        let size = Extent { w: size.0, h: size.1 };
        let front = Grid::new(size);
        let back = Grid::new(size);
        RenderBuffer { size, front, back, fg: Fg(Color::White), bg: Bg(Color::Black) }
    }

    pub fn size(&self) -> (r: Extent)
        ensures
            r == self.spec_size(),
    {
        self.size
    }

    /// Truncate or pad both grids to the new size.
    pub fn resize(&mut self, new_size: Extent)
        requires
            old(self).wf(),
            new_size.w * new_size.h <= usize::MAX,
            new_size.w <= 0xFFFF,
            new_size.h <= 0xFFFF,
        ensures
            final(self).wf(),
            final(self).spec_size() == new_size,
            final(self).spec_fg() == old(self).spec_fg(),
            final(self).spec_bg() == old(self).spec_bg(),
            final(self).front_cells().len() == new_size.w * new_size.h,
            final(self).back_cells().len() == new_size.w * new_size.h,
            forall|i: int|
                0 <= i < final(self).front_cells().len() ==> final(self).front_cells()[i] == (
                if i < old(self).front_cells().len() {
                    old(self).front_cells()[i]
                } else {
                    default_cell()
                }),
            forall|i: int|
                0 <= i < final(self).back_cells().len() ==> final(self).back_cells()[i] == (
                if i < old(self).back_cells().len() {
                    old(self).back_cells()[i]
                } else {
                    default_cell()
                }),
    {
        self.front.resize(new_size);
        self.back.resize(new_size);
        self.size = new_size;
    }

    /// Set the foreground applied by subsequent writes; no cell changes.
    pub fn set_fg(&mut self, fg: Color)
        ensures
            final(self).spec_fg() == Fg(fg),
            final(self).spec_bg() == old(self).spec_bg(),
            final(self).spec_size() == old(self).spec_size(),
            final(self).front_cells() == old(self).front_cells(),
            final(self).back_cells() == old(self).back_cells(),
            final(self).wf() == old(self).wf(),
    {
        self.fg = Fg(fg);
    }

    /// Set the background applied by subsequent writes; no cell changes.
    pub fn set_bg(&mut self, bg: Color)
        ensures
            final(self).spec_bg() == Bg(bg),
            final(self).spec_fg() == old(self).spec_fg(),
            final(self).spec_size() == old(self).spec_size(),
            final(self).front_cells() == old(self).front_cells(),
            final(self).back_cells() == old(self).back_cells(),
            final(self).wf() == old(self).wf(),
    {
        self.bg = Bg(bg);
    }

    /// Write a cell built from `ch` and the current attributes into the back
    /// grid; a no-op when `pos` is out of range.
    pub fn set_cell(&mut self, pos: Pos, ch: char)
        requires
            old(self).wf(),
        ensures
            final(self).wf(),
            final(self).spec_size() == old(self).spec_size(),
            final(self).spec_fg() == old(self).spec_fg(),
            final(self).spec_bg() == old(self).spec_bg(),
            final(self).front_cells() == old(self).front_cells(),
            final(self).back_cells().len() == old(self).back_cells().len(),
            forall|x: int, y: int|
                final(self).back_at(x, y) == (if x == pos.x as int && y == pos.y as int && x < old(
                    self,
                ).spec_size().w && y < old(self).spec_size().h {
                    Cell(ch, old(self).spec_fg(), old(self).spec_bg())
                } else {
                    old(self).back_at(x, y)
                }),
    {
        let cell = Cell(ch, self.fg, self.bg);
        self.back.set(pos, cell);
        proof {
            assert forall|x: int, y: int|
                self.back_at(x, y) == (if x == pos.x as int && y == pos.y as int && x < old(
                    self,
                ).spec_size().w && y < old(self).spec_size().h {
                    Cell(ch, old(self).spec_fg(), old(self).spec_bg())
                } else {
                    old(self).back_at(x, y)
                }) by {
                assert(self.back.spec_get(x, y) == (if x == pos.x as int && y == pos.y as int && x
                    < old(self).back.spec_size().w && y < old(self).back.spec_size().h {
                    cell
                } else {
                    old(self).back.spec_get(x, y)
                }));
            }
        }
    }

    /// Stamp a primitive into the back grid at `origin`: a text run written
    /// left-to-right, one column per character and no wrapping, or a filled
    /// rectangle of spaces; parts that fall outside the grid are ignored.
    pub fn draw(&mut self, origin: (usize, usize), d: Draw)
        requires
            old(self).wf(),
            match d {
                Draw::Text(s) => origin.0 + s@.len() <= usize::MAX,
                Draw::Rect(w, h) => origin.0 + w <= usize::MAX && origin.1 + h <= usize::MAX,
            },
        ensures
            final(self).wf(),
            final(self).spec_size() == old(self).spec_size(),
            final(self).spec_fg() == old(self).spec_fg(),
            final(self).spec_bg() == old(self).spec_bg(),
            final(self).front_cells() == old(self).front_cells(),
            final(self).back_cells().len() == old(self).back_cells().len(),
            forall|x: int, y: int|
                final(self).back_at(x, y) == (if draw_covers(
                    d,
                    origin.0 as int,
                    origin.1 as int,
                    x,
                    y,
                ) && 0 <= x < old(self).spec_size().w && 0 <= y < old(self).spec_size().h {
                    Cell(
                        draw_glyph(d, origin.0 as int, x),
                        old(self).spec_fg(),
                        old(self).spec_bg(),
                    )
                } else {
                    old(self).back_at(x, y)
                }),
    {
        match d {
            Draw::Text(s) => {
                let n = s.unicode_len();
                let mut i: usize = 0;
                while i < n
                    invariant
                        self.wf(),
                        i <= n,
                        n == s@.len(),
                        origin.0 + n <= usize::MAX,
                        self.spec_size() == old(self).spec_size(),
                        self.spec_fg() == old(self).spec_fg(),
                        self.spec_bg() == old(self).spec_bg(),
                        self.front_cells() == old(self).front_cells(),
                        self.back_cells().len() == old(self).back_cells().len(),
                        forall|x: int, y: int|
                            self.back_at(x, y) == (if y == origin.1 as int && origin.0 <= x
                                < origin.0 + i && 0 <= x < old(self).spec_size().w && 0 <= y < old(
                                self,
                            ).spec_size().h {
                                Cell(
                                    s@[x - origin.0],
                                    old(self).spec_fg(),
                                    old(self).spec_bg(),
                                )
                            } else {
                                old(self).back_at(x, y)
                            }),
                    decreases n - i,
                {
                    let c = s.get_char(i);
                    self.set_cell(Pos { x: origin.0 + i, y: origin.1 }, c);
                    i += 1;
                }
            },
            Draw::Rect(w, h) => {
                let mut dx: usize = 0;
                while dx < w
                    invariant
                        self.wf(),
                        dx <= w,
                        origin.0 + w <= usize::MAX,
                        origin.1 + h <= usize::MAX,
                        self.spec_size() == old(self).spec_size(),
                        self.spec_fg() == old(self).spec_fg(),
                        self.spec_bg() == old(self).spec_bg(),
                        self.front_cells() == old(self).front_cells(),
                        self.back_cells().len() == old(self).back_cells().len(),
                        forall|x: int, y: int|
                            self.back_at(x, y) == (if origin.0 <= x < origin.0 + dx && origin.1
                                <= y < origin.1 + h && 0 <= x < old(self).spec_size().w && 0 <= y
                                < old(self).spec_size().h {
                                Cell(' ', old(self).spec_fg(), old(self).spec_bg())
                            } else {
                                old(self).back_at(x, y)
                            }),
                    decreases w - dx,
                {
                    let mut dy: usize = 0;
                    while dy < h
                        invariant
                            self.wf(),
                            dx < w,
                            dy <= h,
                            origin.0 + w <= usize::MAX,
                            origin.1 + h <= usize::MAX,
                            self.spec_size() == old(self).spec_size(),
                            self.spec_fg() == old(self).spec_fg(),
                            self.spec_bg() == old(self).spec_bg(),
                            self.front_cells() == old(self).front_cells(),
                            self.back_cells().len() == old(self).back_cells().len(),
                            forall|x: int, y: int|
                                self.back_at(x, y) == (if ((origin.0 <= x < origin.0 + dx
                                    && origin.1 <= y < origin.1 + h) || (x == origin.0 + dx
                                    && origin.1 <= y < origin.1 + dy)) && 0 <= x < old(
                                    self,
                                ).spec_size().w && 0 <= y < old(self).spec_size().h {
                                    Cell(' ', old(self).spec_fg(), old(self).spec_bg())
                                } else {
                                    old(self).back_at(x, y)
                                }),
                        decreases h - dy,
                    {
                        self.set_cell(Pos { x: origin.0 + dx, y: origin.1 + dy }, ' ');
                        dy += 1;
                    }
                    dx += 1;
                }
            },
        }
    }

    /// Compute the minimal code stream that transforms what the terminal
    /// shows (the front grid) into the back grid's content, and commit: every
    /// emitted cell is copied from back to front, so that afterwards the
    /// front grid equals the back grid at every position.
    #[verifier::rlimit(100)]
    pub fn render_ansi(&mut self) -> (out: String)
        requires
            old(self).wf(),
        ensures
            final(self).wf(),
            final(self).spec_size() == old(self).spec_size(),
            final(self).spec_fg() == old(self).spec_fg(),
            final(self).spec_bg() == old(self).spec_bg(),
            final(self).back_cells() == old(self).back_cells(),
            final(self).front_cells() == old(self).back_cells(),
            out@ == render_spec(
                old(self).front_cells(),
                old(self).back_cells(),
                old(self).spec_size().w as int,
            ),
    {
        let w = self.size.w;
        let h = self.size.h;
        let ghost f0 = self.front@;
        let ghost b = self.back@;
        let ghost wi = w as int;
        let mut out = String::new();
        let mut has_last: bool = false;
        let mut last_x: usize = 0;
        let mut last_y: usize = 0;
        let mut last_fg: Fg = Fg(Color::White);
        let mut last_bg: Bg = Bg(Color::Black);
        let n = self.front.cells.len();
        let mut i: usize = 0;
        while i < n
            invariant
                self.wf(),
                w == self.size.w,
                h == self.size.h,
                n == w * h,
                i <= n,
                self.size == old(self).size,
                self.fg == old(self).fg,
                self.bg == old(self).bg,
                self.back == old(self).back,
                b == self.back@,
                f0 == old(self).front@,
                wi == w as int,
                self.front@.len() == n,
                f0.len() == n,
                b.len() == n,
                forall|j: int| 0 <= j < i ==> self.front@[j] == b[j],
                forall|j: int| i <= j < n ==> self.front@[j] == f0[j],
                render_spec(f0, b, wi) == out@ + encode_diff(
                    b,
                    wi,
                    diff_idxs(f0, b, i as int),
                    (if has_last {
                        Some((last_x as int, last_y as int))
                    } else {
                        None
                    }),
                    last_fg,
                    last_bg,
                ),
            decreases n - i,
        {
            proof {
                assert(w != 0) by (nonlinear_arith)
                    requires
                        i < n,
                        n == w * h,
                ;
            }
            let x = i % w;
            let y = i / w;
            proof {
                assert(x == i as int % wi && y == i as int / wi && x < w && y < h && i as int == y
                    * wi + x) by (nonlinear_arith)
                    requires
                        wi == w as int,
                        w != 0,
                        i < n,
                        n == w * h,
                        x == i % w,
                        y == i / w,
                ;
            }
            let fc = self.front.cells[i];
            let bc = self.back.cells[i];
            let ghost last0: Option<(int, int)> = if has_last {
                Some((last_x as int, last_y as int))
            } else {
                None
            };
            let ghost out0 = out@;
            let ghost fg0 = last_fg;
            let ghost bg0 = last_bg;
            if fc != bc {
                proof {
                    assert(diff_idxs(f0, b, i as int) == seq![i as int] + diff_idxs(
                        f0,
                        b,
                        i as int + 1,
                    ));
                    assert((seq![i as int] + diff_idxs(f0, b, i as int + 1)).drop_first()
                        =~= diff_idxs(f0, b, i as int + 1));
                }
                let adjacent = has_last && last_y == y && x > 0 && last_x == x - 1;
                if !adjacent {
                    let g = ansi::goto_code((x + 1) as u16, (y + 1) as u16);
                    out.append(g.as_str());
                } else {
                    proof {
                        assert(!needs_goto(last0, x as int, y as int));
                    }
                }
                if !(last_fg == bc.1) {
                    out.append(ansi::fg_code(bc.1.0));
                    last_fg = bc.1;
                }
                if !(last_bg == bc.2) {
                    out.append(ansi::bg_code(bc.2.0));
                    last_bg = bc.2;
                }
                ansi::push_char(&mut out, bc.0);
                self.front.cells[i] = bc;
                has_last = true;
                last_x = x;
                last_y = y;
                proof {
                    assert(out@ =~= out0 + cell_emit(bc, x as int, y as int, last0, fg0, bg0));
                    assert(out0 + (cell_emit(bc, x as int, y as int, last0, fg0, bg0) + encode_diff(
                        b,
                        wi,
                        diff_idxs(f0, b, i as int + 1),
                        Some((x as int, y as int)),
                        bc.1,
                        bc.2,
                    )) =~= (out0 + cell_emit(bc, x as int, y as int, last0, fg0, bg0))
                        + encode_diff(
                        b,
                        wi,
                        diff_idxs(f0, b, i as int + 1),
                        Some((x as int, y as int)),
                        bc.1,
                        bc.2,
                    ));
                }
            } else {
                proof {
                    assert(diff_idxs(f0, b, i as int) == diff_idxs(f0, b, i as int + 1));
                }
            }
            i += 1;
        }
        proof {
            assert(diff_idxs(f0, b, n as int) == Seq::<int>::empty());
            assert(out@ + Seq::<char>::empty() =~= out@);
            assert(self.front@ =~= self.back@);
        }
        out
    }
}

} // verus!
