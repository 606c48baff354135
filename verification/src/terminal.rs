//! The terminal emulator's screen: a grid of character cells, a drawing
//! cursor with colours and weight, scrolling, a viewport over the grid, the
//! range of rows that needs redrawing, and the dispatch of control bytes and
//! escape sequences. Colours are RGBA values packed as `0xRRGGBBAA`; a weight
//! is a font weight such as 400 (normal) or 700 (bold).
use vstd::prelude::*;

verus! {

/// The transparent colour.
pub const NONE: u32 = 0;
/// Opaque white, the default foreground.
pub const WHITE_COLOR: u32 = 0xffff_ffff;
/// The normal font weight.
pub const NORMAL_WEIGHT: u16 = 400;
/// The bold font weight.
pub const BOLD_WEIGHT: u16 = 700;

/// The palette of the sixteen ANSI colours, dark then bright.
pub const BLACK: u32 = 0x2828_28ff;
pub const BRIGHT_BLACK: u32 = 0x9283_74ff;
pub const WHITE: u32 = 0xa899_84ff;
pub const BRIGHT_WHITE: u32 = 0xebdb_b2ff;
pub const RED: u32 = 0xcc24_1dff;
pub const BRIGHT_RED: u32 = 0xfb49_34ff;
pub const GREEN: u32 = 0x9897_1aff;
pub const BRIGHT_GREEN: u32 = 0xb8bb_26ff;
pub const BLUE: u32 = 0x4585_88ff;
pub const BRIGHT_BLUE: u32 = 0x83a5_98ff;
pub const YELLOW: u32 = 0xd799_21ff;
pub const BRIGHT_YELLOW: u32 = 0xfabd_2fff;
pub const CYAN: u32 = 0x689d_6aff;
pub const BRIGHT_CYAN: u32 = 0x8ec0_7cff;
pub const MAGENTA: u32 = 0xb162_86ff;
pub const BRIGHT_MAGENTA: u32 = 0xd386_9bff;

/// An opaque colour from its red, green and blue parts.
pub open spec fn rgb_spec(r: u8, g: u8, b: u8) -> u32 {
    (r as int * 0x100_0000 + g as int * 0x1_0000 + b as int * 0x100 + 0xff) as u32
}

/// An opaque colour from its red, green and blue parts.
pub fn rgb(r: u8, g: u8, b: u8) -> (c: u32)
    ensures
        c == rgb_spec(r, g, b),
{
    (r as u32) * 0x100_0000 + (g as u32) * 0x1_0000 + (b as u32) * 0x100 + 0xff
}

/// One character cell of the screen.
#[derive(Clone, Copy, Debug, PartialEq, Eq, Structural)]
pub struct Cell {
    pub c: char,
    pub bg: u32,
    pub fg: u32,
    pub weight: u16,
    /// Bit 0: the glyph need not be drawn (a blank).
    pub attr: u16,
}

/// A blank cell: a space, transparent, normal weight, not drawn.
pub open spec fn blank_cell() -> Cell {
    Cell { c: ' ', bg: NONE, fg: NONE, weight: NORMAL_WEIGHT, attr: 1 }
}

impl Cell {
    /// Whether the glyph of this cell need not be drawn.
    pub fn should_skip(&self) -> (r: bool)
        ensures
            r == (self.attr & 1 == 1),
    {
        (self.attr & 1) == 1
    }

    /// A blank cell.
    pub fn blank() -> (r: Cell)
        ensures
            r == blank_cell(),
    {
        Cell { c: ' ', bg: NONE, fg: NONE, weight: NORMAL_WEIGHT, attr: 1 }
    }
}

/// The attributes that travel with a laid-out glyph: bit 0 of the flags
/// says that the glyph need not be drawn, and a background colour other
/// than 0 is painted behind it.
#[derive(Clone, Copy, Debug, PartialEq, Eq, Structural)]
pub struct ExtraAttributes {
    pub extra_flags: u32,
    pub background_color: u32,
}

impl ExtraAttributes {
    /// Whether the glyph need not be drawn.
    pub fn should_skip(&self) -> (r: bool)
        ensures
            r == (self.extra_flags & 1 == 1),
    {
        (self.extra_flags & 1) == 1
    }

    /// These attributes with the skip flag set from `t`: setting keeps bit 0
    /// alone (`flags & 1`), clearing drops it (`flags & !1`).
    pub fn with_should_skip(self, t: bool) -> (r: Self)
        ensures
            r.background_color == self.background_color,
            r.extra_flags == (if t { self.extra_flags & 1 } else { self.extra_flags & !1u32 }),
    {
        let mut this = self;
        if t {
            this.extra_flags = this.extra_flags & 1;
        } else {
            this.extra_flags = this.extra_flags & !1u32;
        }
        this
    }

    /// The background colour, or `None` when it is transparent.
    pub fn bg(&self) -> (r: Option<u32>)
        ensures
            r == (if self.background_color != 0 { Some(self.background_color) } else { None::<u32> }),
    {
        if self.background_color != 0 {
            Some(self.background_color)
        } else {
            None
        }
    }

    /// These attributes with the background colour `bg`.
    pub fn with_bg(self, bg: u32) -> (r: Self)
        ensures
            r == (ExtraAttributes { background_color: bg, ..self }),
    {
        ExtraAttributes { extra_flags: self.extra_flags, background_color: bg }
    }
}

/// The cell that a character written with the given colours, weight and
/// attributes becomes: a space is never drawn.
pub open spec fn written_cell(c: char, fg: u32, bg: u32, weight: u16, attr: u16) -> Cell {
    Cell { c, fg, bg, weight, attr: if c == ' ' { attr | 1 } else { attr } }
}

/// A row of the screen, as a value.
#[verifier::ext_equal]
pub struct RowView {
    pub cells: Seq<Cell>,
    /// Its text changed since it was last laid out.
    pub dirty: bool,
    /// It holds nothing but blanks, as far as is known.
    pub empty: bool,
}

/// A row of the screen.
pub struct Row {
    pub cells: Vec<Cell>,
    pub dirty: bool,
    pub empty: bool,
}

impl View for Row {
    type V = RowView;

    open spec fn view(&self) -> RowView {
        RowView { cells: self.cells@, dirty: self.dirty, empty: self.empty }
    }
}

/// A row of `len` blank cells.
pub open spec fn empty_row(len: u32) -> RowView {
    RowView { cells: Seq::new(len as nat, |i: int| blank_cell()), dirty: false, empty: true }
}

/// The row `r` with the cells from `start` up to the end blanked; it is
/// empty when that was all of it.
pub open spec fn cleared_row(r: RowView, start: int, end: int) -> RowView {
    RowView {
        cells: Seq::new(r.cells.len(), |j: int| if start <= j < end { blank_cell() } else { r.cells[j] }),
        dirty: true,
        empty: if start == 0 && end == r.cells.len() { true } else { r.empty },
    }
}

/// The row `r` with `cell` written at `at`.
pub open spec fn put_row(r: RowView, at: int, cell: Cell) -> RowView {
    RowView {
        cells: r.cells.update(at, cell),
        dirty: r.dirty || r.cells[at] != cell,
        empty: r.empty && cell == blank_cell(),
    }
}

/// Whether two cells are drawn alike: same attributes, colours and weight.
pub open spec fn same_style(a: Cell, b: Cell) -> bool {
    a.attr == b.attr && a.bg == b.bg && a.fg == b.fg && a.weight == b.weight
}

/// Where the runs of alike-drawn cells among the first `n` of `cells` start,
/// in order.
pub open spec fn run_starts(cells: Seq<Cell>, n: int) -> Seq<usize>
    decreases n,
{
    if n <= 0 {
        Seq::empty()
    } else if n == 1 || !same_style(cells[n - 2], cells[n - 1]) {
        run_starts(cells, n - 1).push((n - 1) as usize)
    } else {
        run_starts(cells, n - 1)
    }
}

impl Row {
    /// A row of `len` blank cells.
    pub fn empty(len: u32) -> (r: Row)
        ensures
            r@ == empty_row(len),
    {
        let mut cells: Vec<Cell> = Vec::new();
        let mut i: u32 = 0;
        while i < len
            invariant
                i <= len,
                cells@ == Seq::new(i as nat, |j: int| blank_cell()),
            decreases len - i,
        {
            cells.push(Cell::blank());
            i = i + 1;
        }
        Row { cells, dirty: false, empty: true }
    }

    /// Blanks the cells from `start` up to `end`.
    pub fn clear(&mut self, start: usize, end: usize)
        requires
            start <= end <= old(self).cells.len(),
        ensures
            final(self)@ == cleared_row(old(self)@, start as int, end as int),
    {
        let mut i = start;
        while i < end
            invariant
                start <= i <= end <= self.cells.len(),
                self.cells.len() == old(self).cells.len(),
                self.dirty == old(self).dirty,
                self.empty == old(self).empty,
                forall|j: int|
                    0 <= j < self.cells.len() ==> #[trigger] self.cells@[j] == (if start <= j < i {
                        blank_cell()
                    } else {
                        old(self).cells@[j]
                    }),
            decreases end - i,
        {
            self.cells.set(i, Cell::blank());
            i = i + 1;
        }
        self.dirty = true;
        if start == 0 && end == self.cells.len() {
            self.empty = true;
        }
        assert(self.cells@ =~= cleared_row(old(self)@, start as int, end as int).cells);
    }

    /// Writes `c` at `at` with the given colours, weight and attributes.
    pub fn put(&mut self, at: usize, c: char, fg: u32, bg: u32, weight: u16, attr: u16)
        requires
            at < old(self).cells.len(),
        ensures
            final(self)@ == put_row(old(self)@, at as int, written_cell(c, fg, bg, weight, attr)),
    {
        let attr = if c == ' ' { attr | 1 } else { attr };
        let new_cell = Cell { c, fg, bg, weight, attr };
        let old_cell = self.cells[at];
        self.cells.set(at, new_cell);
        if old_cell != new_cell {
            self.dirty = true;
        }
        if new_cell != Cell::blank() {
            self.empty = false;
        }
    }

    /// Lays the row out when its text changed: `None` when it did not;
    /// otherwise where the runs of alike-drawn cells start (none for an
    /// empty row), and the row is then up to date.
    pub fn prepare_data(&mut self) -> (r: Option<Vec<usize>>)
        ensures
            final(self)@.cells == old(self)@.cells,
            final(self)@.empty == old(self)@.empty,
            !final(self)@.dirty,
            match r {
                None => !old(self)@.dirty,
                Some(starts) => old(self)@.dirty && starts@ == (if old(self)@.empty {
                    Seq::empty()
                } else {
                    run_starts(old(self)@.cells, old(self)@.cells.len() as int)
                }),
            },
    {
        if !self.dirty {
            return None;
        }
        let mut starts: Vec<usize> = Vec::new();
        if !self.empty {
            let n = self.cells.len();
            let mut i: usize = 0;
            while i < n
                invariant
                    i <= n == self.cells.len(),
                    starts@ == run_starts(self.cells@, i as int),
                decreases n - i,
            {
                if i == 0 {
                    starts.push(i);
                } else {
                    let a = self.cells[i - 1];
                    let b = self.cells[i];
                    if a.attr != b.attr || a.bg != b.bg || a.fg != b.fg || a.weight != b.weight {
                        starts.push(i);
                    }
                }
                i = i + 1;
            }
        }
        self.dirty = false;
        Some(starts)
    }
}

/// The rows after one scroll: the first leaves and a blank row of `width`
/// cells comes in at the bottom.
pub open spec fn scrolled(rows: Seq<RowView>, width: u32) -> Seq<RowView> {
    (if rows.len() == 0 { rows } else { rows.drop_first() }).push(empty_row(width))
}

/// The rows after `n` scrolls.
pub open spec fn scrolled_by(rows: Seq<RowView>, n: nat, width: u32) -> Seq<RowView>
    decreases n,
{
    if n == 0 {
        rows
    } else {
        scrolled(scrolled_by(rows, (n - 1) as nat, width), width)
    }
}

/// The rows of the screen, oldest on top.
pub struct Grid {
    pub rows: Vec<Row>,
    pub width: u32,
}

/// The values of the rows `rows`.
pub open spec fn row_views(rows: Seq<Row>) -> Seq<RowView> {
    rows.map_values(|r: Row| r@)
}

impl View for Grid {
    type V = Seq<RowView>;

    open spec fn view(&self) -> Seq<RowView> {
        row_views(self.rows@)
    }
}

impl Grid {
    /// `height` blank rows of `width` cells.
    pub fn new(width: u32, height: u32) -> (r: Grid)
        ensures
            r.width == width,
            r@ == Seq::new(height as nat, |i: int| empty_row(width)),
    {
        let mut rows: Vec<Row> = Vec::new();
        let mut i: u32 = 0;
        while i < height
            invariant
                i <= height,
                rows.len() == i,
                forall|j: int| 0 <= j < i ==> #[trigger] rows@[j]@ == empty_row(width),
            decreases height - i,
        {
            let row = Row::empty(width);
            rows.push(row);
            i = i + 1;
        }
        assert(row_views(rows@) =~= Seq::new(height as nat, |j: int| empty_row(width)));
        Grid { rows, width }
    }

    /// Scrolls up by one row: the top row leaves and a blank one comes in
    /// at the bottom.
    pub fn shift_up(&mut self)
        ensures
            final(self).width == old(self).width,
            final(self).rows.len() == (if old(self).rows.len() == 0 { 1 } else { old(self).rows.len() }),
            final(self)@ == scrolled(old(self)@, old(self).width),
    {
        if self.rows.len() > 0 {
            self.rows.remove(0);
        }
        let row = Row::empty(self.width);
        self.rows.push(row);
        assert(self@ =~= scrolled(old(self)@, old(self).width));
    }

    /// The number of cells in a row.
    pub fn width(&self) -> (r: u32)
        ensures
            r == self.width,
    {
        self.width
    }

    /// The number of rows.
    pub fn height(&self) -> (r: u32)
        requires
            self.rows.len() <= u32::MAX,
        ensures
            r == self.rows.len(),
    {
        self.rows.len() as u32
    }
}

/// The drawing cursor: where the next character goes, and the colours,
/// weight and attributes it is drawn with.
#[derive(Clone, Copy, Debug, PartialEq, Eq, Structural)]
pub struct DrawCursor {
    pub x: u32,
    pub y: u32,
    pub curr_fg: u32,
    pub curr_bg: u32,
    pub curr_weight: u16,
    pub curr_attr: u16,
}

/// What the terminal asks of the program that drives it.
#[derive(Clone, Copy, Debug, PartialEq, Eq)]
pub enum TermRequest {
    /// Report the cursor's position, column then row.
    CursorRequest((u32, u32)),
}

/// The screen as a value.
#[verifier::ext_equal]
pub struct TermView {
    pub rows: Seq<RowView>,
    pub width: u32,
    pub requests: Seq<TermRequest>,
    /// The first and last rows that need redrawing.
    pub damage_min: Option<u32>,
    pub damage_max: Option<u32>,
    /// The first row shown, and how many rows are shown.
    pub viewport_index: u32,
    pub viewport_lines: u32,
    pub cursor: DrawCursor,
    pub saved_cursor: DrawCursor,
    pub default_fg: u32,
}

/// The screen of the terminal emulator.
pub struct TermDisplay {
    pub grid: Grid,
    pub requests: Vec<TermRequest>,
    pub damage_min: Option<u32>,
    pub damage_max: Option<u32>,
    pub viewport_index: u32,
    pub viewport_lines: u32,
    pub cursor: DrawCursor,
    pub saved_cursor: DrawCursor,
    pub default_fg: u32,
}

impl View for TermDisplay {
    type V = TermView;

    open spec fn view(&self) -> TermView {
        TermView {
            rows: self.grid@,
            width: self.grid.width,
            requests: self.requests@,
            damage_min: self.damage_min,
            damage_max: self.damage_max,
            viewport_index: self.viewport_index,
            viewport_lines: self.viewport_lines,
            cursor: self.cursor,
            saved_cursor: self.saved_cursor,
            default_fg: self.default_fg,
        }
    }
}

/// A well-formed screen: at least one row and one column, every row as
/// wide as the screen, the viewport starting on a row, the cursor inside a
/// row and at most a viewport below the last row, and room in a `u32` for
/// the rows and the viewport together.
pub open spec fn term_wf(v: TermView) -> bool {
    &&& v.width >= 1
    &&& v.rows.len() >= 1
    &&& v.viewport_lines >= 1
    &&& v.rows.len() + v.viewport_lines <= u32::MAX
    &&& forall|i: int| 0 <= i < v.rows.len() ==> #[trigger] v.rows[i].cells.len() == v.width
    &&& v.viewport_index < v.rows.len()
    &&& v.cursor.x < v.width
    &&& v.cursor.y < v.rows.len() + v.viewport_lines
}

/// The cursor of a new screen, and after a reset of its attributes.
pub open spec fn start_cursor() -> DrawCursor {
    DrawCursor { x: 0, y: 0, curr_fg: WHITE_COLOR, curr_bg: NONE, curr_weight: NORMAL_WEIGHT, curr_attr: 0 }
}

/// `a` held between `lo` and `hi`.
pub open spec fn clamp(a: int, lo: int, hi: int) -> int {
    if a < lo {
        lo
    } else if a > hi {
        hi
    } else {
        a
    }
}

/// `a` held between 0 and `u32::MAX`.
pub open spec fn saturate(a: int) -> int {
    clamp(a, 0, u32::MAX as int)
}

/// The screen after the cursor's row is added to the rows that need
/// redrawing, or, when the viewport changed, after all of the viewport is.
pub open spec fn refreshed(v: TermView, viewport_changed: bool) -> TermView {
    if viewport_changed {
        TermView {
            damage_min: Some(v.viewport_index),
            damage_max: Some((v.viewport_lines + v.viewport_index) as u32),
            ..v
        }
    } else {
        let y = v.cursor.y;
        TermView {
            damage_min: Some(
                match v.damage_min {
                    Some(d) => if d < y { d } else { y },
                    None => y,
                },
            ),
            damage_max: Some(
                match v.damage_max {
                    Some(d) => if d > y { d } else { y },
                    None => y,
                },
            ),
            ..v
        }
    }
}

/// The screen after the cursor moves to column `x` of row `y`: past the
/// last column it goes to the next row, below the last row the screen
/// scrolls, and the viewport follows the cursor.
pub open spec fn moved(v: TermView, x: int, y: int) -> TermView {
    let v1 = refreshed(v, false);
    let h = v.rows.len() as int;
    let x2 = if x >= v.width { x % (v.width as int) } else { x };
    let y2 = if x >= v.width { y + 1 } else { y };
    let to_scroll = y2 >= h;
    let y3 = if to_scroll { h - 1 } else { y2 };
    let vi = if y3 + 1 >= v.viewport_lines { y3 + 1 - v.viewport_lines } else { 0 };
    let v2 = TermView {
        rows: scrolled_by(v1.rows, if to_scroll { (y2 - h + 1) as nat } else { 0 }, v.width),
        viewport_index: vi as u32,
        cursor: DrawCursor { x: x2 as u32, y: y3 as u32, ..v1.cursor },
        ..v1
    };
    refreshed(v2, v.viewport_index != vi || to_scroll)
}

/// The screen after the cursor moves to column `x` of row `y`, held inside
/// the row and the viewport.
pub open spec fn viewport_moved(v: TermView, x: int, y: int) -> TermView {
    let v1 = refreshed(v, false);
    let x2 = clamp(x, 0, v.width - 1);
    let y2 = clamp(y, v.viewport_index as int, v.viewport_index + v.viewport_lines - 1);
    refreshed(TermView { cursor: DrawCursor { x: x2 as u32, y: y2 as u32, ..v1.cursor }, ..v1 }, false)
}

/// The screen after the character `c` is written at the cursor: a newline
/// goes to the start of the next row, a backspace one cell back (to the end
/// of the row above from the first column), and any other character takes
/// the cell under the cursor, which then moves on.
pub open spec fn printed(v: TermView, c: char) -> TermView {
    let x = v.cursor.x as int;
    let y = v.cursor.y as int;
    if c == '\n' {
        moved(v, 0, y + 1)
    } else if c == '\x08' {
        if x == 0 && y == 0 {
            v
        } else if x > 0 {
            moved(v, x - 1, y)
        } else {
            moved(v, v.width - 1, y - 1)
        }
    } else {
        let cell = written_cell(c, v.cursor.curr_fg, v.cursor.curr_bg, v.cursor.curr_weight, v.cursor.curr_attr);
        moved(TermView { rows: v.rows.update(y, put_row(v.rows[y], x, cell)), ..v }, x + 1, y)
    }
}

/// The screen after the rows from `y_start` up to `y_end` are blanked, the
/// first of them from column `x` on, the others whole; the cursor then goes
/// home when `scrollback` is set.
pub open spec fn cleared(v: TermView, x: int, y_start: int, y_end: int, scrollback: bool) -> TermView {
    let rows = Seq::new(
        v.rows.len(),
        |i: int|
            if y_start <= i < y_end {
                cleared_row(v.rows[i], if i == y_start { x } else { 0 }, v.rows[i].cells.len() as int)
            } else {
                v.rows[i]
            },
    );
    let v1 = TermView { rows, ..v };
    if scrollback {
        moved(v1, 0, 0)
    } else {
        v1
    }
}

/// The screen after the viewport moves by `lines` rows, held above the last
/// row; all of the new viewport needs redrawing.
pub open spec fn view_moved(v: TermView, lines: int) -> TermView {
    let vi = clamp(saturate(v.viewport_index + lines), 0, v.rows.len() - 1);
    TermView {
        viewport_index: vi as u32,
        damage_min: Some(vi as u32),
        damage_max: Some((v.viewport_lines + vi) as u32),
        ..v
    }
}

/// The screen after the cursor returns to the saved cursor `c`: its place,
/// held inside the viewport, and its colours and attributes.
pub open spec fn restored(v: TermView, c: DrawCursor) -> TermView {
    let v1 = viewport_moved(v, c.x as int, c.y as int);
    TermView { cursor: DrawCursor { x: v1.cursor.x, y: v1.cursor.y, ..c }, ..v1 }
}

/// The cursor with its colours, weight and attributes reset.
pub open spec fn reset_cursor(c: DrawCursor, default_fg: u32) -> DrawCursor {
    DrawCursor { curr_fg: default_fg, curr_bg: NONE, curr_weight: NORMAL_WEIGHT, curr_attr: 0, ..c }
}

/// The palette colour `generic` (0 to 7), dark or bright.
pub open spec fn palette(generic: int, bright: bool) -> u32 {
    if generic == 0 {
        if bright { BRIGHT_BLACK } else { BLACK }
    } else if generic == 1 {
        if bright { BRIGHT_RED } else { RED }
    } else if generic == 2 {
        if bright { BRIGHT_GREEN } else { GREEN }
    } else if generic == 3 {
        if bright { BRIGHT_YELLOW } else { YELLOW }
    } else if generic == 4 {
        if bright { BRIGHT_BLUE } else { BLUE }
    } else if generic == 5 {
        if bright { BRIGHT_MAGENTA } else { MAGENTA }
    } else if generic == 6 {
        if bright { BRIGHT_CYAN } else { CYAN }
    } else {
        if bright { BRIGHT_WHITE } else { WHITE }
    }
}

/// Whether `p` selects a palette or default colour: 30-37 and 90-97 for
/// the foreground, 40-47 and 100-107 for the background, 39 and 49 for the
/// defaults.
pub open spec fn is_color_param(p: int) -> bool {
    ||| 30 <= p <= 37
    ||| 40 <= p <= 47
    ||| 90 <= p <= 97
    ||| 100 <= p <= 107
    ||| p == 39
    ||| p == 49
}

/// Whether the colour parameter `p` sets the background.
pub open spec fn is_bg_param(p: int) -> bool {
    p > 39 && (p < 90 || p >= 100)
}

/// The cursor after the colour parameter `p`.
pub open spec fn color_applied(c: DrawCursor, default_fg: u32, p: int) -> DrawCursor {
    let bright = p >= 90;
    let bg = is_bg_param(p);
    let generic = if bg && bright {
        p - 100
    } else if bg {
        p - 40
    } else if bright {
        p - 90
    } else {
        p - 30
    };
    let pix = if generic == 9 {
        if bg { NONE } else { default_fg }
    } else {
        palette(generic, bright)
    };
    if bg {
        DrawCursor { curr_bg: pix, ..c }
    } else {
        DrawCursor { curr_fg: pix, ..c }
    }
}

/// The parameter at `i`, 0 past the end.
pub open spec fn param_or_zero(s: Seq<u16>, i: int) -> u16 {
    if 0 <= i < s.len() { s[i] } else { 0 }
}

/// `i + k`, but at most the length of `s`.
pub open spec fn skip_to(s: Seq<u16>, i: int, k: int) -> int {
    if i + k < s.len() { i + k } else { s.len() as int }
}

/// The cursor after the graphic-rendition parameters of `s` from `i` on:
/// 0 resets, 1 is bold, 22 is normal weight, the colour parameters set a
/// palette or default colour, and 38 or 48 followed by 2 and three parts set
/// the foreground or background to that colour; others are ignored.
pub open spec fn sgr_applied(c: DrawCursor, default_fg: u32, s: Seq<u16>, i: int) -> DrawCursor
    decreases s.len() - i,
{
    if i < 0 || i >= s.len() {
        c
    } else {
        let p = s[i] as int;
        if p == 0 {
            sgr_applied(reset_cursor(c, default_fg), default_fg, s, i + 1)
        } else if p == 1 {
            sgr_applied(DrawCursor { curr_weight: BOLD_WEIGHT, ..c }, default_fg, s, i + 1)
        } else if p == 22 {
            sgr_applied(DrawCursor { curr_weight: NORMAL_WEIGHT, ..c }, default_fg, s, i + 1)
        } else if is_color_param(p) {
            sgr_applied(color_applied(c, default_fg, p), default_fg, s, i + 1)
        } else if p == 38 || p == 48 {
            if i + 1 < s.len() && s[i + 1] == 2 {
                let pix = rgb_spec(
                    param_or_zero(s, i + 2) as u8,
                    param_or_zero(s, i + 3) as u8,
                    param_or_zero(s, i + 4) as u8,
                );
                let c2 = if p == 48 { DrawCursor { curr_bg: pix, ..c } } else { DrawCursor { curr_fg: pix, ..c } };
                sgr_applied(c2, default_fg, s, skip_to(s, i, 5))
            } else {
                sgr_applied(c, default_fg, s, skip_to(s, i, 2))
            }
        } else {
            sgr_applied(c, default_fg, s, i + 1)
        }
    }
}

/// The first value of each parameter, 0 for an empty one.
pub open spec fn first_values(params: Seq<Seq<u16>>) -> Seq<u16> {
    Seq::new(params.len(), |i: int| if params[i].len() > 0 { params[i][0] } else { 0 })
}

/// The first value of parameter `i`, or `default` when there are fewer
/// parameters.
pub open spec fn param_or(params: Seq<Seq<u16>>, i: int, default: int) -> int {
    if i < params.len() { params[i][0] as int } else { default }
}

/// The screen after the control sequence `c` with the parameters `params`:
/// `J` erases (0: from the cursor to the end, 1: from the start to the
/// cursor's row, 2: everything, 3: everything and the cursor goes home), `H`
/// moves the cursor to a row and a column counted from 1, `A`, `B`, `C` and `D`
/// move it up, down, right and left (1 by default), `m` sets the graphic
/// rendition, and `n` with the single value 6 asks for the cursor's position.
pub open spec fn csi_applied(v: TermView, params: Seq<Seq<u16>>, c: char) -> TermView {
    let x = v.cursor.x as int;
    let y = v.cursor.y as int;
    let h = v.rows.len() as int;
    if c == 'J' {
        let mode = param_or(params, 0, 0);
        if mode == 0 {
            cleared(v, x, y, h, false)
        } else if mode == 1 {
            cleared(v, 0, 0, y + 1, false)
        } else if mode == 2 {
            cleared(v, 0, 0, h, false)
        } else if mode == 3 {
            cleared(v, 0, 0, h, true)
        } else {
            v
        }
    } else if c == 'H' {
        let row = param_or(params, 0, 1);
        let col = param_or(params, 1, 1);
        viewport_moved(v, (if col > 1 { col } else { 1 }) - 1, (if row > 1 { row } else { 1 }) - 1)
    } else if c == 'A' {
        viewport_moved(v, x, saturate(y - param_or(params, 0, 1)))
    } else if c == 'B' {
        viewport_moved(v, x, saturate(y + param_or(params, 0, 1)))
    } else if c == 'C' {
        viewport_moved(v, saturate(x + param_or(params, 0, 1)), y)
    } else if c == 'D' {
        viewport_moved(v, saturate(x - param_or(params, 0, 1)), y)
    } else if c == 'm' {
        TermView { cursor: sgr_applied(v.cursor, v.default_fg, first_values(params), 0), ..v }
    } else if c == 'n' && params.len() > 0 && params[0].len() == 1 && params[0][0] == 6 {
        TermView { requests: v.requests.push(TermRequest::CursorRequest((v.cursor.x, v.cursor.y))), ..v }
    } else {
        v
    }
}

/// The screen after the escape sequence ending in `byte`: `7` saves the
/// cursor and `8` restores it.
pub open spec fn esc_applied(v: TermView, byte: u8) -> TermView {
    if byte == 0x37 {
        TermView { saved_cursor: v.cursor, ..v }
    } else if byte == 0x38 {
        restored(v, v.saved_cursor)
    } else {
        v
    }
}

/// The screen after the control byte `byte`: a line feed, a backspace and
/// a tab are written as characters, a carriage return goes to the first
/// column of the cursor's row; the others (among them the bell) leave it.
pub open spec fn executed(v: TermView, byte: u8) -> TermView {
    if byte == 0x0a {
        printed(v, '\n')
    } else if byte == 0x08 {
        printed(v, '\x08')
    } else if byte == 0x0d {
        viewport_moved(v, 0, v.cursor.y as int)
    } else if byte == 0x09 {
        printed(v, '\t')
    } else {
        v
    }
}

/// `a` plus `b`, held between 0 and `u32::MAX`.
fn saturating_add_signed(a: u32, b: i32) -> (r: u32)
    ensures
        r == saturate(a + b),
{
    let t: i64 = a as i64 + b as i64;
    if t < 0 {
        0
    } else if t > 0xffff_ffff {
        0xffff_ffff
    } else {
        t as u32
    }
}

/// `a` held between `lo` and `hi`.
fn clamp_u32(a: u32, lo: u32, hi: u32) -> (r: u32)
    ensures
        r == clamp(a as int, lo as int, hi as int),
{
    if a < lo {
        lo
    } else if a > hi {
        hi
    } else {
        a
    }
}

/// Scrolling keeps the number of rows, when there is one, and the width of
/// every row.
pub proof fn lemma_scrolled_by(rows: Seq<RowView>, n: nat, width: u32)
    requires
        rows.len() >= 1,
        forall|i: int| 0 <= i < rows.len() ==> #[trigger] rows[i].cells.len() == width,
    ensures
        scrolled_by(rows, n, width).len() == rows.len(),
        forall|i: int|
            0 <= i < rows.len() ==> #[trigger] scrolled_by(rows, n, width)[i].cells.len() == width,
    decreases n,
{
    if n > 0 {
        lemma_scrolled_by(rows, (n - 1) as nat, width);
        let prev = scrolled_by(rows, (n - 1) as nat, width);
        assert forall|i: int| 0 <= i < rows.len() implies #[trigger] scrolled_by(rows, n, width)[i].cells.len()
            == width by {
            if i < rows.len() - 1 {
                assert(prev[i + 1].cells.len() == width);
            }
        }
    }
}

impl TermDisplay {
    /// Whether the screen is well formed.
    pub open spec fn wf(&self) -> bool {
        term_wf(self@)
    }

    /// A blank screen of `width` columns and `height` rows, all shown, with
    /// the cursor home.
    pub fn new(width: u32, height: u32) -> (r: TermDisplay)
        requires
            width >= 1,
            height >= 1,
            height + height <= u32::MAX,
        ensures
            r.wf(),
            r@ == (TermView {
                rows: Seq::new(height as nat, |i: int| empty_row(width)),
                width,
                requests: Seq::empty(),
                damage_min: None,
                damage_max: None,
                viewport_index: 0,
                viewport_lines: height,
                cursor: start_cursor(),
                saved_cursor: start_cursor(),
                default_fg: WHITE_COLOR,
            }),
    {
        let draw = DrawCursor {
            x: 0,
            y: 0,
            curr_fg: WHITE_COLOR,
            curr_bg: NONE,
            curr_weight: NORMAL_WEIGHT,
            curr_attr: 0,
        };
        TermDisplay {
            saved_cursor: draw,
            grid: Grid::new(width, height),
            damage_min: None,
            damage_max: None,
            viewport_index: 0,
            viewport_lines: height,
            cursor: draw,
            default_fg: WHITE_COLOR,
            requests: Vec::new(),
        }
    }

    /// The cursor's column and row.
    pub fn cursor(&self) -> (r: (u32, u32))
        ensures
            r == (self.cursor.x, self.cursor.y),
    {
        (self.cursor.x, self.cursor.y)
    }

    /// Hands out the requests made so far, oldest first, and forgets them.
    pub fn collect_requests(&mut self) -> (r: Vec<TermRequest>)
        ensures
            r@ == old(self)@.requests,
            final(self)@ == (TermView { requests: Seq::empty(), ..old(self)@ }),
    {
        let mut r: Vec<TermRequest> = Vec::new();
        core::mem::swap(&mut r, &mut self.requests);
        r
    }

    /// Hands out the first and last rows that need redrawing, if both are
    /// known, and forgets them.
    pub fn collect_damage(&mut self) -> (r: Option<(u32, u32)>)
        ensures
            r == (match (old(self)@.damage_min, old(self)@.damage_max) {
                (Some(a), Some(b)) => Some((a, b)),
                _ => None,
            }),
            final(self)@ == (TermView { damage_min: None, damage_max: None, ..old(self)@ }),
    {
        let min = self.damage_min;
        let max = self.damage_max;
        self.damage_min = None;
        self.damage_max = None;
        match (min, max) {
            (Some(a), Some(b)) => Some((a, b)),
            _ => None,
        }
    }

    /// Sets how many rows the viewport shows.
    pub fn set_viewport_lines(&mut self, lines: u32)
        requires
            old(self).wf(),
            lines >= 1,
            old(self)@.rows.len() + lines <= u32::MAX,
            old(self)@.cursor.y < old(self)@.rows.len() + lines,
        ensures
            final(self).wf(),
            final(self)@ == (TermView { viewport_lines: lines, ..old(self)@ }),
    {
        self.viewport_lines = lines;
    }

    /// Resets the colours, weight and attributes of the cursor.
    fn reset(&mut self)
        ensures
            final(self)@ == (TermView { cursor: reset_cursor(old(self)@.cursor, old(self)@.default_fg), ..old(self)@ }),
    {
        self.cursor.curr_fg = self.default_fg;
        self.cursor.curr_bg = NONE;
        self.cursor.curr_weight = NORMAL_WEIGHT;
        self.cursor.curr_attr = 0;
    }

    /// Adds the cursor's row to the rows that need redrawing, or all of the
    /// viewport when it changed.
    fn refresh_damage(&mut self, viewport_changed: bool)
        requires
            old(self).viewport_lines + old(self).viewport_index <= u32::MAX,
        ensures
            final(self)@ == refreshed(old(self)@, viewport_changed),
    {
        if viewport_changed {
            self.damage_min = Some(self.viewport_index);
            self.damage_max = Some(self.viewport_lines + self.viewport_index);
            return;
        }
        let y = self.cursor.y;
        self.damage_min = match self.damage_min {
            Some(d) => Some(if d < y { d } else { y }),
            None => Some(y),
        };
        self.damage_max = match self.damage_max {
            Some(d) => Some(if d > y { d } else { y }),
            None => Some(y),
        };
    }
}

impl TermDisplay {
    /// Moves the cursor to column `x` of row `y`; past the last column it
    /// goes to the next row, below the last row the screen scrolls, and the
    /// viewport follows the cursor.
    fn move_cursor(&mut self, x: u32, y: u32)
        requires
            old(self).wf(),
            x <= old(self).grid.width,
            y <= old(self)@.rows.len() + old(self).viewport_lines,
            x == old(self).grid.width ==> y < old(self)@.rows.len() + old(self).viewport_lines,
        ensures
            final(self).wf(),
            final(self)@ == moved(old(self)@, x as int, y as int),
    {
        let ghost x0 = x as int;
        let ghost y0 = y as int;
        self.refresh_damage(false);
        let ghost v1 = self@;
        let w = self.grid.width();
        let mut x = x;
        let mut y = y;
        if x >= w {
            y = y + 1;
            x = x % w;
        }
        let h = self.grid.height();
        let to_scroll = y >= h;
        let ghost y2 = y;
        while y >= h
            invariant
                h == self.grid.rows.len(),
                h >= 1,
                self.grid.width == w,
                y <= y2,
                to_scroll == (y2 >= h),
                to_scroll ==> y >= h - 1,
                !to_scroll ==> y == y2,
                self@ == (TermView { rows: scrolled_by(v1.rows, (y2 - y) as nat, w), ..v1 }),
            decreases y,
        {
            let ghost before = self@;
            self.grid.shift_up();
            y = y - 1;
            assert(self@ =~= (TermView { rows: scrolled_by(v1.rows, (y2 - y) as nat, w), ..v1 }));
        }
        proof {
            lemma_scrolled_by(v1.rows, (y2 - y) as nat, w);
        }
        let old_v = self.viewport_index;
        self.viewport_index = if y + 1 >= self.viewport_lines { y + 1 - self.viewport_lines } else { 0 };
        self.cursor.x = x;
        self.cursor.y = y;
        self.refresh_damage(old_v != self.viewport_index || to_scroll);
        assert(self@ =~= moved(old(self)@, x0, y0));
    }

    /// Moves the cursor to column `x` of row `y`, held inside the row and
    /// the viewport.
    fn move_cursor_viewport(&mut self, x: u32, y: u32)
        requires
            old(self).wf(),
        ensures
            final(self).wf(),
            final(self)@ == viewport_moved(old(self)@, x as int, y as int),
    {
        self.refresh_damage(false);
        let max_x = self.grid.width() - 1;
        let max_y = self.viewport_index + self.viewport_lines - 1;
        let min_y = self.viewport_index;
        self.cursor.x = clamp_u32(x, 0, max_x);
        self.cursor.y = clamp_u32(y, min_y, max_y);
        self.refresh_damage(false);
    }

    /// Writes the character `c` at the cursor: a newline goes to the start
    /// of the next row, a backspace one cell back (to the end of the row
    /// above from the first column), and any other character takes the cell
    /// under the cursor, which then moves on.
    pub fn insert_char(&mut self, c: char)
        requires
            old(self).wf(),
            c != '\n' && c != '\x08' ==> old(self)@.cursor.y < old(self)@.rows.len(),
        ensures
            final(self).wf(),
            final(self)@ == printed(old(self)@, c),
    {
        let (x, y) = self.cursor();
        if c == '\n' {
            return self.move_cursor(0, y + 1);
        }
        if c == '\x08' {
            match (x.checked_sub(1), y.checked_sub(1)) {
                (None, None) => return ,
                (Some(x), _) => {
                    return self.move_cursor(x, y);
                },
                (None, Some(y)) => {
                    let w = self.grid.width();
                    return self.move_cursor(w - 1, y);
                },
            }
        }
        let cur = self.cursor;
        let ghost v0 = self@;
        let ghost rows0 = self.grid.rows@;
        self.grid.rows[y as usize].put(
            x as usize,
            c,
            cur.curr_fg,
            cur.curr_bg,
            cur.curr_weight,
            cur.curr_attr,
        );
        proof {
            let cell = written_cell(c, cur.curr_fg, cur.curr_bg, cur.curr_weight, cur.curr_attr);
            assert(self.grid@ =~= v0.rows.update(y as int, put_row(v0.rows[y as int], x as int, cell)));
            assert(self@ =~= (TermView {
                rows: v0.rows.update(y as int, put_row(v0.rows[y as int], x as int, cell)),
                ..v0
            }));
        }
        self.move_cursor(x + 1, y);
    }

    /// Blanks the rows from `y_start` up to `y_end`, the first of them from
    /// column `x` on and the others whole, and sends the cursor home when
    /// `scrollback` is set. The rows are blanked to their end: the last row
    /// of the range is `y_end - 1`, never `y_end`, so `end_x` never cuts one
    /// short.
    fn clear(&mut self, x: u32, end_x: u32, y_start: u32, y_end: u32, scrollback: bool)
        requires
            old(self).wf(),
            x <= old(self).grid.width,
        ensures
            final(self).wf(),
            final(self)@ == cleared(old(self)@, x as int, y_start as int, y_end as int, scrollback),
    {
        let ghost v0 = self@;
        let mut y = y_start;
        while y < y_end && (y as usize) < self.grid.rows.len()
            invariant
                y_start <= y,
                y_start <= y_end ==> y <= y_end,
                y_start > y_end ==> y == y_start,
                self.grid.rows.len() == v0.rows.len(),
                self.grid.width == v0.width,
                x <= v0.width,
                term_wf(v0),
                self@ == (TermView {
                    rows: Seq::new(
                        v0.rows.len(),
                        |i: int|
                            if y_start <= i < y {
                                cleared_row(v0.rows[i], if i == y_start { x as int } else { 0 }, v0.rows[i].cells.len() as int)
                            } else {
                                v0.rows[i]
                            },
                    ),
                    ..v0
                }),
            decreases y_end - y,
        {
            proof {
                assert(self.grid@[y as int] == v0.rows[y as int]);
                assert(self.grid.rows@[y as int]@ == v0.rows[y as int]);
            }
            let ghost before = self.grid@;
            let ghost yy = y as int;
            let len = self.grid.rows[y as usize].cells.len();
            let mut start: usize = 0;
            let mut end: usize = len;
            if y == y_start {
                start = x as usize;
            }
            if y == y_end {
                end = end_x as usize;
            }
            proof {
                assert(v0.rows[y as int].cells.len() == v0.width);
            }
            self.grid.rows[y as usize].clear(start, end);
            proof {
                assert(self.grid@ =~= before.update(yy, cleared_row(v0.rows[yy], start as int, end as int)));
            }
            y = y + 1;
            assert(self.grid@ =~= Seq::new(
                v0.rows.len(),
                |i: int|
                    if y_start <= i < y {
                        cleared_row(v0.rows[i], if i == y_start { x as int } else { 0 }, v0.rows[i].cells.len() as int)
                    } else {
                        v0.rows[i]
                    },
            ));
        }
        let ghost rows = Seq::new(
            v0.rows.len(),
            |i: int|
                if y_start <= i < y_end {
                    cleared_row(v0.rows[i], if i == y_start { x as int } else { 0 }, v0.rows[i].cells.len() as int)
                } else {
                    v0.rows[i]
                },
        );
        proof {
            assert forall|i: int| 0 <= i < v0.rows.len() implies #[trigger] self.grid@[i] == rows[i] by {
                assert((y_start <= i < y) == (y_start <= i < y_end));
            }
            assert(self.grid@ =~= rows);
        }
        assert(self@ =~= (TermView { rows, ..v0 }));
        proof {
            assert forall|i: int| 0 <= i < rows.len() implies #[trigger] rows[i].cells.len() == v0.width by {
                assert(v0.rows[i].cells.len() == v0.width);
            }
        }
        if scrollback {
            self.move_cursor(0, 0);
        }
    }

    /// Moves the viewport by `lines` rows, held above the last row; all of
    /// the new viewport needs redrawing.
    pub fn move_view_by(&mut self, lines: i32)
        requires
            old(self).wf(),
        ensures
            final(self).wf(),
            final(self)@ == view_moved(old(self)@, lines as int),
    {
        let vi = saturating_add_signed(self.viewport_index, lines);
        let last = self.grid.height() - 1;
        self.viewport_index = if vi < last { vi } else { last };
        self.damage_min = Some(self.viewport_index);
        self.damage_max = Some(self.viewport_lines + self.viewport_index);
    }

    /// Returns the cursor to the saved cursor `c`: its place, held inside
    /// the viewport, and its colours and attributes.
    fn restore_viewport(&mut self, c: DrawCursor)
        requires
            old(self).wf(),
        ensures
            final(self).wf(),
            final(self)@ == restored(old(self)@, c),
    {
        self.move_cursor_viewport(c.x, c.y);
        self.cursor = DrawCursor {
            x: self.cursor.x,
            y: self.cursor.y,
            curr_fg: c.curr_fg,
            curr_bg: c.curr_bg,
            curr_weight: c.curr_weight,
            curr_attr: c.curr_attr,
        };
    }

    /// Moves the cursor by `amount` rows inside the viewport.
    fn move_cursor_lines(&mut self, amount: i32)
        requires
            old(self).wf(),
        ensures
            final(self).wf(),
            final(self)@ == viewport_moved(
                old(self)@,
                old(self)@.cursor.x as int,
                saturate(old(self)@.cursor.y + amount),
            ),
    {
        let (x, y) = self.cursor();
        self.move_cursor_viewport(x, saturating_add_signed(y, amount));
    }

    /// Moves the cursor by `amount` columns inside the row.
    fn move_cursor_chars(&mut self, amount: i32)
        requires
            old(self).wf(),
        ensures
            final(self).wf(),
            final(self)@ == viewport_moved(
                old(self)@,
                saturate(old(self)@.cursor.x + amount),
                old(self)@.cursor.y as int,
            ),
    {
        let (x, y) = self.cursor();
        self.move_cursor_viewport(saturating_add_signed(x, amount), y);
    }

    /// Applies the graphic-rendition parameters `params` to the cursor.
    fn set_graphic_rendition(&mut self, params: &Vec<Vec<u16>>)
        requires
            old(self).wf(),
        ensures
            final(self).wf(),
            final(self)@ == (TermView {
                cursor: sgr_applied(old(self)@.cursor, old(self)@.default_fg, first_values(param_views(params@)), 0),
                ..old(self)@
            }),
    {
        let ghost s = first_values(param_views(params@));
        let ghost v0 = self@;
        let n = params.len();
        let mut i: usize = 0;
        while i < n
            invariant
                0 <= i <= n == s.len(),
                s == first_values(param_views(params@)),
                self@ == (TermView { cursor: self.cursor, ..v0 }),
                self.cursor.x == v0.cursor.x && self.cursor.y == v0.cursor.y,
                sgr_applied(self.cursor, v0.default_fg, s, i as int) == sgr_applied(v0.cursor, v0.default_fg, s, 0),
                term_wf(v0),
            decreases n - i,
        {
            let param = first_value(params, i);
            if param == 0 {
                self.reset();
                i = i + 1;
            } else if param == 1 {
                self.cursor.curr_weight = BOLD_WEIGHT;
                i = i + 1;
            } else if param == 22 {
                self.cursor.curr_weight = NORMAL_WEIGHT;
                i = i + 1;
            } else if (30 <= param && param <= 37) || (40 <= param && param <= 47) || (90 <= param && param <= 97) || (
            100 <= param && param <= 107) || param == 39 || param == 49 {
                let is_bright = param >= 90;
                let is_bg = param > 39 && (param < 90 || param >= 100);
                let generic = if is_bg && is_bright {
                    param - 100
                } else if is_bg {
                    param - 40
                } else if is_bright {
                    param - 90
                } else {
                    param - 30
                };
                let pix = if generic == 9 {
                    if is_bg { NONE } else { self.default_fg }
                } else {
                    palette_color(generic, is_bright)
                };
                if !is_bg {
                    self.cursor.curr_fg = pix;
                } else {
                    self.cursor.curr_bg = pix;
                }
                i = i + 1;
            } else if param == 38 || param == 48 {
                if i + 1 < n && first_value(params, i + 1) == 2 {
                    let is_bg = param == 48;
                    let r = value_or_zero(params, i, 2) as u8;
                    let g = value_or_zero(params, i, 3) as u8;
                    let b = value_or_zero(params, i, 4) as u8;
                    let pix = rgb(r, g, b);
                    if !is_bg {
                        self.cursor.curr_fg = pix;
                    } else {
                        self.cursor.curr_bg = pix;
                    }
                    i = if n - i > 5 { i + 5 } else { n };
                } else {
                    i = if n - i > 2 { i + 2 } else { n };
                }
            } else {
                i = i + 1;
            }
        }
        assert(self@ =~= (TermView {
            cursor: sgr_applied(v0.cursor, v0.default_fg, s, 0),
            ..v0
        }));
    }

    /// Performs the control sequence `c` with the parameters `params`: `J`
    /// erases, `H` moves the cursor to a row and column counted from 1,
    /// `A`, `B`, `C` and `D` move it up, down, right and left, `m` sets the
    /// graphic rendition and `n` with the single value 6 asks for the cursor's
    /// position; other sequences are ignored.
    pub fn csi_dispatch(&mut self, params: &Vec<Vec<u16>>, c: char)
        requires
            old(self).wf(),
            forall|i: int| 0 <= i < params.len() ==> #[trigger] params@[i].len() > 0,
        ensures
            final(self).wf(),
            final(self)@ == csi_applied(old(self)@, param_views(params@), c),
    {
        let ghost pv = param_views(params@);
        proof {
            assert forall|i: int| 0 <= i < params.len() implies #[trigger] pv[i].len() > 0 by {
                assert(params@[i].len() > 0);
            }
        }
        if c == 'J' {
            let mode = if params.len() > 0 { params[0][0] } else { 0 };
            if mode == 0 {
                let (x, y) = self.cursor();
                let w = self.grid.width();
                let h = self.grid.height();
                self.clear(x, w, y, h, false);
            } else if mode == 1 {
                let (x, y) = self.cursor();
                self.clear(0, x + 1, 0, y + 1, false);
            } else if mode == 2 {
                let w = self.grid.width();
                let h = self.grid.height();
                self.clear(0, w, 0, h, false);
            } else if mode == 3 {
                let w = self.grid.width();
                let h = self.grid.height();
                self.clear(0, w, 0, h, true);
            }
        } else if c == 'H' {
            let row = if params.len() > 0 { params[0][0] } else { 1 };
            let col = if params.len() > 1 { params[1][0] } else { 1 };
            let y = (if row > 1 { row } else { 1 }) - 1;
            let x = (if col > 1 { col } else { 1 }) - 1;
            self.move_cursor_viewport(x as u32, y as u32);
        } else if c == 'A' || c == 'B' || c == 'D' || c == 'C' {
            let amount = if params.len() > 0 { params[0][0] as usize } else { 1 };
            if c == 'A' {
                self.move_cursor_lines(-(amount as i32));
            } else if c == 'B' {
                self.move_cursor_lines(amount as i32);
            } else if c == 'C' {
                self.move_cursor_chars(amount as i32);
            } else {
                self.move_cursor_chars(-(amount as i32));
            }
        } else if c == 'm' {
            self.set_graphic_rendition(params);
        } else if c == 'n' {
            if params.len() > 0 && params[0].len() == 1 && params[0][0] == 6 {
                let at = self.cursor();
                self.requests.push(TermRequest::CursorRequest(at));
            }
        }
    }

    /// Performs the escape sequence ending in `byte`: `7` saves the cursor
    /// and `8` restores it; others are ignored.
    pub fn esc_dispatch(&mut self, byte: u8)
        requires
            old(self).wf(),
        ensures
            final(self).wf(),
            final(self)@ == esc_applied(old(self)@, byte),
    {
        if byte == 0x37 {
            self.saved_cursor = self.cursor;
        } else if byte == 0x38 {
            let saved = self.saved_cursor;
            self.restore_viewport(saved);
        }
    }

    /// Performs the control byte `byte`: a line feed, a backspace and a tab
    /// are written as characters and a carriage return goes to the first
    /// column; `true` when the byte is the bell, which the caller rings.
    pub fn execute(&mut self, byte: u8) -> (beep: bool)
        requires
            old(self).wf(),
            byte == 0x09 ==> old(self)@.cursor.y < old(self)@.rows.len(),
        ensures
            final(self).wf(),
            final(self)@ == executed(old(self)@, byte),
            beep == (byte == 0x07),
    {
        if byte == 0x0a {
            self.insert_char('\n');
        } else if byte == 0x08 {
            self.insert_char('\x08');
        } else if byte == 0x0d {
            let (_, y) = self.cursor();
            self.move_cursor_viewport(0, y);
        } else if byte == 0x09 {
            self.insert_char('\t');
        } else if byte == 0x07 {
            return true;
        }
        false
    }
}

/// The values of the parameters `p`.
pub open spec fn param_views(p: Seq<Vec<u16>>) -> Seq<Seq<u16>> {
    p.map_values(|v: Vec<u16>| v@)
}

/// The first value of parameter `i`, 0 for an empty one.
fn first_value(params: &Vec<Vec<u16>>, i: usize) -> (r: u16)
    requires
        i < params.len(),
    ensures
        r == first_values(param_views(params@))[i as int],
{
    if params[i].len() > 0 {
        params[i][0]
    } else {
        0
    }
}

/// The first value of parameter `i + k`, 0 for an empty one or past the end.
fn value_or_zero(params: &Vec<Vec<u16>>, i: usize, k: usize) -> (r: u16)
    requires
        i < params.len(),
    ensures
        r == param_or_zero(first_values(param_views(params@)), i + k),
{
    if params.len() - i > k {
        first_value(params, i + k)
    } else {
        0
    }
}

/// The palette colour `generic` (0 to 7), dark or bright.
fn palette_color(generic: u16, bright: bool) -> (r: u32)
    ensures
        r == palette(generic as int, bright),
{
    if generic == 0 {
        if bright { BRIGHT_BLACK } else { BLACK }
    } else if generic == 1 {
        if bright { BRIGHT_RED } else { RED }
    } else if generic == 2 {
        if bright { BRIGHT_GREEN } else { GREEN }
    } else if generic == 3 {
        if bright { BRIGHT_YELLOW } else { YELLOW }
    } else if generic == 4 {
        if bright { BRIGHT_BLUE } else { BLUE }
    } else if generic == 5 {
        if bright { BRIGHT_MAGENTA } else { MAGENTA }
    } else if generic == 6 {
        if bright { BRIGHT_CYAN } else { CYAN }
    } else {
        if bright { BRIGHT_WHITE } else { WHITE }
    }
}

/// Saving the cursor (ESC 7) and restoring it at once (ESC 8) gives back
/// the same cursor, when it lies inside the viewport.
pub proof fn law_save_restore_cursor(v: TermView)
    requires
        term_wf(v),
        v.viewport_index <= v.cursor.y < v.viewport_index + v.viewport_lines,
    ensures
        esc_applied(esc_applied(v, 0x37), 0x38).cursor == v.cursor,
{
}

/// Writing a character other than a newline or a backspace puts it, drawn
/// as the cursor draws, in the cell under the cursor, and moves the cursor
/// one column right when that stays in the row.
pub proof fn law_print_writes_cell(v: TermView, c: char)
    requires
        term_wf(v),
        c != '\n',
        c != '\x08',
        v.cursor.y < v.rows.len(),
        v.cursor.x + 1 < v.width,
    ensures
        printed(v, c).rows[v.cursor.y as int].cells[v.cursor.x as int] == written_cell(
            c,
            v.cursor.curr_fg,
            v.cursor.curr_bg,
            v.cursor.curr_weight,
            v.cursor.curr_attr,
        ),
        printed(v, c).cursor.x == v.cursor.x + 1,
        printed(v, c).cursor.y == v.cursor.y,
{
}

/// A backspace right after a character that stayed in its row brings the
/// cursor back to where the character went.
pub proof fn law_backspace_returns(v: TermView, c: char)
    requires
        term_wf(v),
        c != '\n',
        c != '\x08',
        v.cursor.y < v.rows.len(),
        v.cursor.x + 1 < v.width,
    ensures
        printed(printed(v, c), '\x08').cursor.x == v.cursor.x,
        printed(printed(v, c), '\x08').cursor.y == v.cursor.y,
{
}

/// A newline on the last row scrolls the screen by one row: the top row
/// leaves, a blank row comes in at the bottom, and the cursor stays on the
/// last row, at its start.
pub proof fn law_newline_scrolls(v: TermView)
    requires
        term_wf(v),
        v.cursor.y == v.rows.len() - 1,
    ensures
        printed(v, '\n').rows == scrolled(v.rows, v.width),
        printed(v, '\n').cursor.x == 0,
        printed(v, '\n').cursor.y == v.rows.len() - 1,
{
    assert(scrolled_by(v.rows, 1, v.width) == scrolled(scrolled_by(v.rows, 0, v.width), v.width));
}

/// Erasing the whole display (CSI 2 J) leaves every cell blank and keeps
/// the cursor.
pub proof fn law_erase_display_blanks(v: TermView, params: Seq<Seq<u16>>)
    requires
        term_wf(v),
        params.len() >= 1,
        params[0].len() >= 1,
        params[0][0] == 2,
    ensures
        forall|i: int, j: int|
            0 <= i < v.rows.len() && 0 <= j < v.width ==> #[trigger] csi_applied(v, params, 'J').rows[i].cells[j]
                == blank_cell(),
        csi_applied(v, params, 'J').cursor == v.cursor,
{
    assert forall|i: int, j: int| 0 <= i < v.rows.len() && 0 <= j < v.width implies #[trigger] csi_applied(
        v,
        params,
        'J',
    ).rows[i].cells[j] == blank_cell() by {
        assert(v.rows[i].cells.len() == v.width);
    }
}


/// A graphic-rendition sequence `ESC [ n m` with a single colour parameter
/// selects the ANSI colour `g` of the standard order black, red, green,
/// yellow, blue, magenta, cyan, white: `30 + g` sets the foreground to the
/// dark colour, `40 + g` the background, `90 + g` and `100 + g` the bright
/// foreground and background; nothing else of the cursor or the screen
/// changes.
pub proof fn law_sgr_selects_ansi_colours(v: TermView, g: int)
    requires
        0 <= g < 8,
    ensures
        ({
            let dark = seq![BLACK, RED, GREEN, YELLOW, BLUE, MAGENTA, CYAN, WHITE];
            let bright = seq![
                BRIGHT_BLACK,
                BRIGHT_RED,
                BRIGHT_GREEN,
                BRIGHT_YELLOW,
                BRIGHT_BLUE,
                BRIGHT_MAGENTA,
                BRIGHT_CYAN,
                BRIGHT_WHITE,
            ];
            &&& csi_applied(v, seq![seq![(30 + g) as u16]], 'm') == TermView {
                cursor: DrawCursor { curr_fg: dark[g], ..v.cursor },
                ..v
            }
            &&& csi_applied(v, seq![seq![(40 + g) as u16]], 'm') == TermView {
                cursor: DrawCursor { curr_bg: dark[g], ..v.cursor },
                ..v
            }
            &&& csi_applied(v, seq![seq![(90 + g) as u16]], 'm') == TermView {
                cursor: DrawCursor { curr_fg: bright[g], ..v.cursor },
                ..v
            }
            &&& csi_applied(v, seq![seq![(100 + g) as u16]], 'm') == TermView {
                cursor: DrawCursor { curr_bg: bright[g], ..v.cursor },
                ..v
            }
            &&& csi_applied(v, seq![seq![39u16]], 'm') == TermView {
                cursor: DrawCursor { curr_fg: v.default_fg, ..v.cursor },
                ..v
            }
            &&& csi_applied(v, seq![seq![49u16]], 'm') == TermView { cursor: DrawCursor { curr_bg: NONE, ..v.cursor }, ..v }
        }),
{
    reveal_with_fuel(sgr_applied, 2);
    let ps = seq![30 + g, 40 + g, 90 + g, 100 + g, 39, 49];
    assert forall|k: int| 0 <= k < 6 implies first_values(seq![seq![(#[trigger] ps[k]) as u16]]) =~= seq![
        ps[k] as u16,
    ] by {}
    assert(ps[0] == 30 + g && ps[1] == 40 + g && ps[2] == 90 + g && ps[3] == 100 + g && ps[4] == 39 && ps[5] == 49);
}
} // verus!
