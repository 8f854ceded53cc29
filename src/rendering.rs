use vstd::prelude::*;
use vstd::string::*;

use crate::raster::{dot_grid, rasterize_polyline, Point};

verus! {

/// A rectangle of terminal cells.
#[derive(Clone, Copy, Debug, PartialEq, Eq)]
pub struct Rect {
    pub x: u16,
    pub y: u16,
    pub width: u16,
    pub height: u16,
}

impl Rect {
    /// Every cell of the rectangle has a cursor position that fits in `u16`.
    pub open spec fn fits(&self) -> bool {
        &&& self.x as int + self.width as int <= 0x1_0000
        &&& self.y as int + self.height as int <= 0x1_0000
    }
}

/// One instruction for the render surface.
#[derive(Clone, Debug, PartialEq, Eq)]
pub enum DrawOp {
    /// Move the cursor to `(column, row)`.
    MoveTo(u16, u16),
    /// Write a string at the cursor.
    Text(String),
    /// Write the character with this code point at the cursor.
    Glyph(u32),
    /// Draw what follows in this colour (red, green, blue).
    SetColor(u8, u8, u8),
}

/// What a `DrawOp` means, with the text as characters.
pub enum Command {
    MoveTo(u16, u16),
    Text(Seq<char>),
    Glyph(u32),
    SetColor(u8, u8, u8),
}

impl View for DrawOp {
    type V = Command;

    open spec fn view(&self) -> Command {
        match self {
            DrawOp::MoveTo(x, y) => Command::MoveTo(*x, *y),
            DrawOp::Text(s) => Command::Text(s@),
            DrawOp::Glyph(g) => Command::Glyph(*g),
            DrawOp::SetColor(r, g, b) => Command::SetColor(*r, *g, *b),
        }
    }
}

/// The code point of the empty dot pattern; a pattern's bits are added to it.
pub const BRAILLE_BASE: u32 = 0x2800;

pub open spec fn bit_if(b: bool, v: int) -> int {
    if b {
        v
    } else {
        0
    }
}

/// Dot pattern of cell `(cx, cy)` in a column-major dot grid `bh` dots high:
/// dots 1, 2, 3 down the left column, 4, 5, 6 down the right, 7 and 8 the bottom row.
pub open spec fn cell_pattern(grid: Seq<bool>, bh: int, cx: int, cy: int) -> int {
    let l = 2 * cx * bh + 4 * cy;
    let r = (2 * cx + 1) * bh + 4 * cy;
    bit_if(grid[l], 0x01) + bit_if(grid[l + 1], 0x02) + bit_if(grid[l + 2], 0x04) + bit_if(
        grid[r],
        0x08,
    ) + bit_if(grid[r + 1], 0x10) + bit_if(grid[r + 2], 0x20) + bit_if(grid[l + 3], 0x40)
        + bit_if(grid[r + 3], 0x80)
}

/// Commands for the first `n` cells of row `cy` of `rect`.
pub open spec fn row_cmds(grid: Seq<bool>, rect: Rect, cy: int, n: int) -> Seq<Command>
    decreases n,
{
    if n <= 0 {
        Seq::empty()
    } else {
        row_cmds(grid, rect, cy, n - 1) + seq![
            Command::MoveTo((rect.x + n - 1) as u16, (rect.y + cy) as u16),
            Command::Glyph((BRAILLE_BASE + cell_pattern(grid, 4 * rect.height, n - 1, cy)) as u32),
        ]
    }
}

/// Commands for the first `m` rows of `rect`.
pub open spec fn grid_cmds(grid: Seq<bool>, rect: Rect, m: int) -> Seq<Command>
    decreases m,
{
    if m <= 0 {
        Seq::empty()
    } else {
        grid_cmds(grid, rect, m - 1) + row_cmds(grid, rect, m - 1, rect.width as int)
    }
}

/// What drawing a polyline into `rect` emits: nothing for fewer than two points,
/// else one positioned glyph per cell, row by row.
pub open spec fn braille_cmds(pts: Seq<Point>, rect: Rect) -> Seq<Command> {
    if pts.len() < 2 {
        Seq::empty()
    } else {
        grid_cmds(dot_grid(pts, 2 * rect.width, 4 * rect.height), rect, rect.height as int)
    }
}

pub open spec fn strip_cr(line: Seq<char>) -> Seq<char> {
    if line.len() > 0 && line.last() == '\r' {
        line.drop_last()
    } else {
        line
    }
}

/// Scan of `s` from the left: the lines ended by a newline, and the text after the last one.
pub open spec fn line_scan(s: Seq<char>) -> (Seq<Seq<char>>, Seq<char>)
    decreases s.len(),
{
    if s.len() == 0 {
        (Seq::empty(), Seq::empty())
    } else {
        let prev = line_scan(s.drop_last());
        if s.last() == '\n' {
            (prev.0.push(strip_cr(prev.1)), Seq::empty())
        } else {
            (prev.0, prev.1.push(s.last()))
        }
    }
}

/// The lines of `s`: split at each `\n`, a `\r` before it dropped, no empty line after a
/// final `\n`.
pub open spec fn lines_of(s: Seq<char>) -> Seq<Seq<char>> {
    let scan = line_scan(s);
    if scan.1.len() > 0 {
        scan.0.push(scan.1)
    } else {
        scan.0
    }
}

pub open spec fn spaces(n: int) -> Seq<char> {
    Seq::new(n as nat, |i: int| ' ')
}

/// Bytes that `c` takes in UTF-8.
pub open spec fn utf8_width(c: char) -> int {
    if (c as u32) < 0x80 {
        1
    } else if (c as u32) < 0x800 {
        2
    } else if (c as u32) < 0x1_0000 {
        3
    } else {
        4
    }
}

/// Bytes that `s` takes in UTF-8.
pub open spec fn utf8_len(s: Seq<char>) -> int
    decreases s.len(),
{
    if s.len() == 0 {
        0
    } else {
        utf8_len(s.drop_last()) + utf8_width(s.last())
    }
}

/// Commands for line `i` of a text drawn into `rect` from row offset `off`: the line,
/// then spaces up to the width of the rectangle counted in bytes of UTF-8.
pub open spec fn line_cmds(line: Seq<char>, rect: Rect, off: int, i: int) -> Seq<Command> {
    let head = seq![
        Command::MoveTo(rect.x, (rect.y + off + i) as u16),
        Command::Text(line),
    ];
    if utf8_len(line) < rect.width {
        head.push(Command::Text(spaces(rect.width - utf8_len(line))))
    } else {
        head
    }
}

/// Commands for `lines` drawn into `rect` from row offset `off`; lines past the
/// bottom of the rectangle are left out.
pub open spec fn text_cmds(lines: Seq<Seq<char>>, rect: Rect, off: int) -> Seq<Command>
    decreases lines.len(),
{
    if lines.len() == 0 {
        Seq::empty()
    } else {
        let prev = text_cmds(lines.drop_last(), rect, off);
        if off + lines.len() - 1 < rect.height {
            prev + line_cmds(lines.last(), rect, off, lines.len() - 1)
        } else {
            prev
        }
    }
}

/// A render surface that records, in order, what is drawn on it; the records are
/// handed out with `take_ops` and carried out by the terminal driver.
pub struct AdvancedCanvas {
    ops: Vec<DrawOp>,
}

impl View for AdvancedCanvas {
    type V = Seq<Command>;

    closed spec fn view(&self) -> Seq<Command> {
        self.ops@.map_values(|o: DrawOp| o@)
    }
}

impl AdvancedCanvas {
    pub fn new() -> (r: Self)
        ensures
            r@ == Seq::<Command>::empty(),
    {
        let r = AdvancedCanvas { ops: Vec::new() };
        assert(r@ =~= Seq::<Command>::empty());
        r
    }

    fn emit(&mut self, op: DrawOp)
        ensures
            final(self)@ == old(self)@.push(op@),
    {
        self.ops.push(op);
        assert(self@ =~= old(self)@.push(op@));
    }

    /// Hands out everything drawn so far and empties the record.
    pub fn take_ops(&mut self) -> (r: Vec<DrawOp>)
        ensures
            r@.map_values(|o: DrawOp| o@) == old(self)@,
            final(self)@ == Seq::<Command>::empty(),
    {
        let mut r: Vec<DrawOp> = Vec::new();
        std::mem::swap(&mut r, &mut self.ops);
        assert(self@ =~= Seq::<Command>::empty());
        r
    }

    pub fn set_cursor(&mut self, x: u16, y: u16)
        ensures
            final(self)@ == old(self)@.push(Command::MoveTo(x, y)),
    {
        self.emit(DrawOp::MoveTo(x, y));
    }

    pub fn set_color(&mut self, r: u8, g: u8, b: u8)
        ensures
            final(self)@ == old(self)@.push(Command::SetColor(r, g, b)),
    {
        self.emit(DrawOp::SetColor(r, g, b));
    }

    pub fn draw_str(&mut self, s: &str)
        ensures
            final(self)@ == old(self)@.push(Command::Text(s@)),
    {
        self.emit(DrawOp::Text(s.to_owned()));
    }

    fn draw_spaces(&mut self, n: usize)
        ensures
            final(self)@ == old(self)@.push(Command::Text(spaces(n as int))),
    {
        let mut pad = String::new();
        let mut i: usize = 0;
        proof {
            reveal_strlit(" ");
        }
        while i < n
            invariant
                i <= n,
                pad@ =~= spaces(i as int),
                " "@ == seq![' '],
            decreases n - i,
        {
            pad.append(" ");
            i = i + 1;
            assert(pad@ =~= spaces(i as int));
        }
        self.emit(DrawOp::Text(pad));
    }

    /// Writes line `i` (the characters `from..to` of `text`) into `rect`.
    fn draw_line(&mut self, text: &str, from: usize, to: usize, rect: &Rect, off: u16, i: usize)
        requires
            from <= to <= text@.len(),
            rect.y as int + rect.height as int <= 0x1_0000,
            off + i < rect.height,
        ensures
            final(self)@ == old(self)@ + line_cmds(
                text@.subrange(from as int, to as int),
                *rect,
                off as int,
                i as int,
            ),
    {
        let row: u16 = rect.y + off + i as u16;
        self.set_cursor(rect.x, row);
        let line = text.substring_char(from, to);
        self.draw_str(line);
        let len = utf8_len_of(text, from, to);
        if len < rect.width as u128 {
            self.draw_spaces((rect.width as u128 - len) as usize);
        }
        assert(self@ =~= old(self)@ + line_cmds(
            text@.subrange(from as int, to as int),
            *rect,
            off as int,
            i as int,
        ));
    }

    /// Writes the lines of `text` into `rect`, one per row from row `start_y_offset`,
    /// each padded with spaces to the width of the rectangle; lines past its bottom
    /// are left out.
    pub fn draw_text_in_rect(&mut self, text: &str, rect: &Rect, start_y_offset: u16)
        requires
            rect.y as int + rect.height as int <= 0x1_0000,
        ensures
            final(self)@ == old(self)@ + text_cmds(
                lines_of(text@),
                *rect,
                start_y_offset as int,
            ),
    {
        let n: usize = text.unicode_len();
        let off: usize = start_y_offset as usize;
        let height: usize = rect.height as usize;
        let mut start: usize = 0;
        let mut i: usize = 0;
        let mut count: usize = 0;
        while i < n
            invariant
                n == text@.len(),
                off == start_y_offset,
                height == rect.height,
                rect.y as int + rect.height as int <= 0x1_0000,
                start <= i <= n,
                line_scan(text@.subrange(0, i as int)).1 == text@.subrange(start as int, i as int),
                line_scan(text@.subrange(0, i as int)).0.len() == count,
                count <= i,
                self@ == old(self)@ + text_cmds(
                    line_scan(text@.subrange(0, i as int)).0,
                    *rect,
                    off as int,
                ),
            decreases n - i,
        {
            let ghost pre = text@.subrange(0, i as int);
            let ghost next = text@.subrange(0, i + 1);
            assert(next.drop_last() =~= pre);
            let c = text.get_char(i);
            if c == '\n' {
                let mut end: usize = i;
                if end > start && text.get_char(end - 1) == '\r' {
                    end = end - 1;
                }
                assert(text@.subrange(start as int, end as int) =~= strip_cr(
                    text@.subrange(start as int, i as int),
                ));
                let ghost lines = line_scan(next).0;
                assert(lines.drop_last() =~= line_scan(pre).0);
                if off < height && count < height - off {
                    self.draw_line(text, start, end, rect, start_y_offset, count);
                }
                count = count + 1;
                start = i + 1;
            } else {
                assert(line_scan(next).1 =~= text@.subrange(start as int, i + 1));
            }
            i = i + 1;
        }
        assert(text@.subrange(0, n as int) =~= text@);
        if start < n {
            let ghost lines = lines_of(text@);
            assert(lines.drop_last() =~= line_scan(text@).0);
            if off < height && count < height - off {
                self.draw_line(text, start, n, rect, start_y_offset, count);
            }
        }
    }

    /// Draws `points` as a line of dots into `rect`, two dots across and four down per
    /// cell, writing one dot-pattern glyph per cell; fewer than two points draw nothing.
    pub fn draw_braille_line(&mut self, points: &[Point], rect: &Rect)
        requires
            rect.fits(),
            (2 * rect.width) * (4 * rect.height) <= usize::MAX,
        ensures
            final(self)@ == old(self)@ + braille_cmds(points@, *rect),
    {
        if points.len() < 2 {
            assert(old(self)@ + braille_cmds(points@, *rect) =~= old(self)@);
            return ;
        }
        let w: usize = rect.width as usize;
        let h: usize = rect.height as usize;
        let bw: usize = 2 * w;
        let bh: usize = 4 * h;
        let grid = rasterize_polyline(points, bw, bh);
        let ghost g = grid@;
        let mut cy: usize = 0;
        while cy < h
            invariant
                cy <= h,
                h == rect.height,
                w == rect.width,
                bh == 4 * h,
                bw == 2 * w,
                rect.fits(),
                grid@ == g,
                g == dot_grid(points@, bw as int, bh as int),
                g.len() == bw * bh,
                self@ == old(self)@ + grid_cmds(g, *rect, cy as int),
            decreases h - cy,
        {
            let mut cx: usize = 0;
            while cx < w
                invariant
                    cx <= w,
                    cy < h,
                    h == rect.height,
                    w == rect.width,
                    bh == 4 * h,
                    bw == 2 * w,
                    rect.fits(),
                    grid@ == g,
                    g.len() == bw * bh,
                    self@ == old(self)@ + grid_cmds(g, *rect, cy as int) + row_cmds(
                        g,
                        *rect,
                        cy as int,
                        cx as int,
                    ),
                decreases w - cx,
            {
                assert((2 * cx + 2) * bh <= bw * bh) by (nonlinear_arith)
                    requires
                        cx < w,
                        bw == 2 * w,
                ;
                let code = cell_code(&grid, bh, cx, cy);
                self.set_cursor(rect.x + cx as u16, rect.y + cy as u16);
                self.emit(DrawOp::Glyph(BRAILLE_BASE + code));
                assert(self@ =~= old(self)@ + grid_cmds(g, *rect, cy as int) + row_cmds(
                    g,
                    *rect,
                    cy as int,
                    cx + 1,
                ));
                cx = cx + 1;
            }
            assert(self@ =~= old(self)@ + grid_cmds(g, *rect, cy + 1));
            cy = cy + 1;
        }
    }
}

/// Bytes that the characters `from..to` of `text` take in UTF-8.
fn utf8_len_of(text: &str, from: usize, to: usize) -> (r: u128)
    requires
        from <= to <= text@.len(),
    ensures
        r == utf8_len(text@.subrange(from as int, to as int)),
{
    let mut r: u128 = 0;
    let mut k: usize = from;
    while k < to
        invariant
            from <= k <= to <= text@.len(),
            r == utf8_len(text@.subrange(from as int, k as int)),
            r <= 4 * (k - from),
        decreases to - k,
    {
        assert(text@.subrange(from as int, k + 1).drop_last() =~= text@.subrange(
            from as int,
            k as int,
        ));
        let c = text.get_char(k);
        let w: u128 = if (c as u32) < 0x80 {
            1
        } else if (c as u32) < 0x800 {
            2
        } else if (c as u32) < 0x1_0000 {
            3
        } else {
            4
        };
        r = r + w;
        k = k + 1;
    }
    r
}

/// Reads the eight dots of cell `(cx, cy)` and composes its pattern.
fn cell_code(grid: &Vec<bool>, bh: usize, cx: usize, cy: usize) -> (r: u32)
    requires
        bh % 4 == 0,
        4 * cy + 4 <= bh,
        (2 * cx + 2) * bh <= grid.len(),
    ensures
        r == cell_pattern(grid@, bh as int, cx as int, cy as int),
        r < 0x100,
{
    assert((2 * cx + 1) * bh + 4 * cy + 3 < grid.len()) by (nonlinear_arith)
        requires
            4 * cy + 4 <= bh,
            (2 * cx + 2) * bh <= grid.len(),
    ;
    assert(2 * cx * bh + 4 * cy + 3 < (2 * cx + 1) * bh) by (nonlinear_arith)
        requires
            4 * cy + 4 <= bh,
    ;
    assert(2 * cx * bh <= (2 * cx + 1) * bh && 2 * cx <= (2 * cx + 2) * bh) by (nonlinear_arith)
        requires
            4 * cy + 4 <= bh,
    ;
    let l: usize = 2 * cx * bh + 4 * cy;
    let r: usize = (2 * cx + 1) * bh + 4 * cy;
    let mut v: u32 = 0;
    if grid[l] {
        v = v + 0x01;
    }
    if grid[l + 1] {
        v = v + 0x02;
    }
    if grid[l + 2] {
        v = v + 0x04;
    }
    if grid[r] {
        v = v + 0x08;
    }
    if grid[r + 1] {
        v = v + 0x10;
    }
    if grid[r + 2] {
        v = v + 0x20;
    }
    if grid[l + 3] {
        v = v + 0x40;
    }
    if grid[r + 3] {
        v = v + 0x80;
    }
    v
}

} // verus!
