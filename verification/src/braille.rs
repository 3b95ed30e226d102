//! Unicode-braille sub-character canvas.
//!
//! Each glyph (base U+2800) is a 2-wide x 4-tall dot grid (8 dots). Setting a
//! pixel ORs its dot's bit into the cell's byte; `render()` walks the grid and
//! emits one braille char per cell, rows separated by `\n`.
//!
//! Dot -> bit map for cell-local `(col, row)`, col in {0,1}, row in {0,1,2,3}:
//! ```text
//!   (0,0)=0x01  (1,0)=0x08
//!   (0,1)=0x02  (1,1)=0x10
//!   (0,2)=0x04  (1,2)=0x20
//!   (0,3)=0x40  (1,3)=0x80
//! ```

use crate::grid;
use crate::text;
use vstd::prelude::*;
use vstd::string::StringExecFns;

verus! {

/// Base braille codepoint; the 8 dot bits are added on top of this.
pub const BRAILLE_BASE: u32 = 0x2800;

/// The bit of the dot at cell-local `(col, row)`; zero outside the 2x4 cell.
pub open spec fn bit_of(col: int, row: int) -> u8 {
    if col == 0 && row == 0 {
        0x01
    } else if col == 0 && row == 1 {
        0x02
    } else if col == 0 && row == 2 {
        0x04
    } else if col == 1 && row == 0 {
        0x08
    } else if col == 1 && row == 1 {
        0x10
    } else if col == 1 && row == 2 {
        0x20
    } else if col == 0 && row == 3 {
        0x40
    } else if col == 1 && row == 3 {
        0x80
    } else {
        0
    }
}

/// Bit value for a pixel at cell-local `(col, row)`.
pub fn dot_bit(col: usize, row: usize) -> (b: u8)
    ensures
        b == bit_of(col as int, row as int),
{
    match (col, row) {
        (0, 0) => 0x01,
        (0, 1) => 0x02,
        (0, 2) => 0x04,
        (1, 0) => 0x08,
        (1, 1) => 0x10,
        (1, 2) => 0x20,
        (0, 3) => 0x40,
        (1, 3) => 0x80,
        _ => 0,
    }
}

/// Different dots of a cell have different bits, and every dot of a cell has one.
proof fn bits_are_distinct(c1: int, r1: int, c2: int, r2: int)
    requires
        0 <= c1 < 2,
        0 <= c2 < 2,
        0 <= r1 < 4,
        0 <= r2 < 4,
    ensures
        (bit_of(c1, r1) & bit_of(c2, r2) != 0) <==> (c1 == c2 && r1 == r2),
{
    let i: u8 = (if r1 == 3 {
        6 + c1
    } else {
        3 * c1 + r1
    }) as u8;
    let j: u8 = (if r2 == 3 {
        6 + c2
    } else {
        3 * c2 + r2
    }) as u8;
    assert(1u8 << 0u8 == 1u8 && 1u8 << 1u8 == 2u8 && 1u8 << 2u8 == 4u8 && 1u8 << 3u8 == 8u8
        && 1u8 << 4u8 == 16u8 && 1u8 << 5u8 == 32u8 && 1u8 << 6u8 == 64u8 && 1u8 << 7u8 == 128u8)
        by (bit_vector);
    assert(bit_of(c1, r1) == 1u8 << i);
    assert(bit_of(c2, r2) == 1u8 << j);
    assert(i < 8 && j < 8 ==> (((1u8 << i) & (1u8 << j) != 0) <==> i == j)) by (bit_vector);
}

/// The braille character whose dots are `bits`.
pub open spec fn glyph(bits: u8) -> char {
    (BRAILLE_BASE + bits) as char
}

/// `ch` in the colour `color` of the 256-colour palette, as a terminal reads it.
pub open spec fn sgr(color: u8, ch: char) -> Seq<char> {
    "\x1b[38;5;"@ + text::dec(color as nat) + "m"@ + seq![ch] + "\x1b[0m"@
}

/// Appends `ch` in the colour `color` of the 256-colour palette.
pub fn push_sgr(out: &mut String, color: u8, ch: char)
    ensures
        final(out)@ == old(out)@ + sgr(color, ch),
{
    out.append("\x1b[38;5;");
    text::push_dec(out, color as u128);
    out.append("m");
    out.push(ch);
    out.append("\x1b[0m");
    assert(out@ =~= old(out)@ + sgr(color, ch));
}

/// A grid of `wc` x `hc` braille cells, i.e. `2*wc` x `4*hc` plottable pixels.
pub struct Canvas {
    pub wc: usize,
    pub hc: usize,
    /// Row-major, `wc` per row.
    pub cells: Vec<u8>,
}

impl Clone for Canvas {
    fn clone(&self) -> (r: Self)
        ensures
            r.wc == self.wc,
            r.hc == self.hc,
            r.cells@ == self.cells@,
    {
        let cells = self.cells.clone();
        assert(cells@ =~= self.cells@);
        Canvas { wc: self.wc, hc: self.hc, cells }
    }
}

/// The cell bytes of a `w` x `h` canvas once the pixel `(px, py)` is set: unchanged
/// where the pixel is not on the canvas.
pub open spec fn dotted(cells: Seq<u8>, w: int, h: int, px: int, py: int) -> Seq<u8> {
    if 0 <= px < 2 * w && 0 <= py < 4 * h {
        let i = grid::slot(px / 2, py / 4, w);
        cells.update(i, cells[i] | bit_of(px % 2, py % 4))
    } else {
        cells
    }
}

/// Whether the dot of the pixel `(px, py)` is set in the cell bytes of a canvas `w`
/// cells wide.
pub open spec fn lit_in(cells: Seq<u8>, w: int, px: int, py: int) -> bool {
    cells[grid::slot(px / 2, py / 4, w)] & bit_of(px % 2, py % 4) != 0
}

/// What a label layer holds over the cell in slot `i`: a character and its colour.
pub open spec fn label_at(labels: Seq<Option<(char, u8)>>, i: int) -> Option<(char, u8)> {
    if 0 <= i < labels.len() {
        labels[i]
    } else {
        None
    }
}

/// The cell in slot `i` of a coloured canvas: its label where it has one, else its
/// glyph, in colour unless the cell's colour is 0.
pub open spec fn colored_cell(
    cells: Seq<u8>,
    colors: Seq<u8>,
    labels: Seq<Option<(char, u8)>>,
    i: int,
) -> Seq<char> {
    match label_at(labels, i) {
        Some((ch, color)) => sgr(color, ch),
        None => if colors[i] != 0 {
            sgr(colors[i], glyph(cells[i]))
        } else {
            seq![glyph(cells[i])]
        },
    }
}

impl Canvas {
    /// One byte for every cell.
    pub open spec fn wf(self) -> bool {
        self.cells.len() == self.wc * self.hc
    }

    /// The pixel sizes can be counted.
    pub open spec fn countable(self) -> bool {
        2 * self.wc <= usize::MAX && 4 * self.hc <= usize::MAX
    }

    /// Whether `(px, py)` is a pixel of the canvas.
    pub open spec fn has(self, px: int, py: int) -> bool {
        0 <= px < 2 * self.wc && 0 <= py < 4 * self.hc
    }

    /// Whether the dot of the pixel `(px, py)` is set.
    pub open spec fn lit(self, px: int, py: int) -> bool {
        lit_in(self.cells@, self.wc as int, px, py)
    }

    /// The rows of the canvas as text, top row first.
    pub open spec fn rows(self) -> Seq<Seq<char>> {
        Seq::new(
            self.hc as nat,
            |y: int|
                Seq::new(
                    self.wc as nat,
                    |x: int| glyph(self.cells@[grid::slot(x, y, self.wc as int)]),
                ),
        )
    }

    /// The rows of the canvas in colour, with a label layer over them.
    pub open spec fn colored_rows(
        self,
        colors: Seq<u8>,
        labels: Seq<Option<(char, u8)>>,
    ) -> Seq<Seq<char>> {
        Seq::new(
            self.hc as nat,
            |y: int|
                text::concat(
                    Seq::new(
                        self.wc as nat,
                        |x: int|
                            colored_cell(
                                self.cells@,
                                colors,
                                labels,
                                grid::slot(x, y, self.wc as int),
                            ),
                    ),
                ),
        )
    }

    /// A canvas with no dot set.
    pub fn new(wc: usize, hc: usize) -> (r: Self)
        requires
            wc * hc <= usize::MAX,
        ensures
            r.wc == wc,
            r.hc == hc,
            r.wf(),
            r.cells@ == Seq::new((wc * hc) as nat, |i: int| 0u8),
    {
        let cells: Vec<u8> = vec![0u8; wc * hc];
        assert(cells@ =~= Seq::new((wc * hc) as nat, |i: int| 0u8));
        Canvas { wc, hc, cells }
    }

    /// Pixel width (2 per cell).
    pub fn width_px(&self) -> (w: usize)
        requires
            2 * self.wc <= usize::MAX,
        ensures
            w == 2 * self.wc,
    {
        self.wc * 2
    }

    /// Pixel height (4 per cell).
    pub fn height_px(&self) -> (h: usize)
        requires
            4 * self.hc <= usize::MAX,
        ensures
            h == 4 * self.hc,
    {
        self.hc * 4
    }

    /// Set the pixel at `(px, py)`. Out-of-bounds pixels are silently ignored
    /// so callers can clamp-or-drop without bounds bookkeeping.
    pub fn set(&mut self, px: usize, py: usize)
        requires
            old(self).wf(),
            old(self).countable(),
        ensures
            final(self).wf(),
            final(self).wc == old(self).wc,
            final(self).hc == old(self).hc,
            final(self).cells@ == dotted(
                old(self).cells@,
                old(self).wc as int,
                old(self).hc as int,
                px as int,
                py as int,
            ),
            forall|x: int, y: int|
                old(self).has(x, y) ==> (#[trigger] final(self).lit(x, y) <==> (old(self).lit(x, y)
                    || (x == px && y == py))),
    {
        if px >= self.width_px() || py >= self.height_px() {
            return ;
        }
        let cx: usize = px / 2;
        let cy: usize = py / 4;
        let col: usize = px % 2;
        let row: usize = py % 4;
        let i: usize = grid::slot_of(cx, cy, self.wc, self.hc);
        let bit: u8 = dot_bit(col, row);
        let before: u8 = self.cells[i];
        self.cells.set(i, before | bit);
        proof {
            let w = self.wc as int;
            let h = self.hc as int;
            assert forall|x: int, y: int| old(self).has(x, y) implies (#[trigger] self.lit(x, y)
                <==> (old(self).lit(x, y) || (x == px && y == py))) by {
                law_a_dot_lights_its_pixel(old(self).cells@, w, h, px as int, py as int, x, y);
            }
        }
    }

    /// The dot bits of the given cell.
    pub fn cell(&self, cx: usize, cy: usize) -> (b: u8)
        requires
            grid::slot(cx as int, cy as int, self.wc as int) < self.cells.len(),
        ensures
            b == self.cells@[grid::slot(cx as int, cy as int, self.wc as int)],
    {
        assert(0 <= cy * self.wc) by (nonlinear_arith);
        self.cells[cy * self.wc + cx]
    }

    /// Render to a string: one braille glyph per cell, rows joined by `\n`.
    /// A fully-empty cell renders as the blank braille pattern U+2800 (not a
    /// space) so the canvas keeps a fixed visual width in monospaced clients.
    pub fn render(&self) -> (r: String)
        requires
            self.wf(),
        ensures
            r@ == text::joined(self.rows(), "\n"@),
    {
        let mut out = String::new();
        let mut cy: usize = 0;
        assert(self.rows().take(0) =~= Seq::<Seq<char>>::empty());
        while cy < self.hc
            invariant
                self.wf(),
                cy <= self.hc,
                out@ == text::joined(self.rows().take(cy as int), "\n"@),
            decreases self.hc - cy,
        {
            let mut line = String::new();
            let mut cx: usize = 0;
            while cx < self.wc
                invariant
                    self.wf(),
                    cy < self.hc,
                    cx <= self.wc,
                    line@ == self.rows()[cy as int].take(cx as int),
                decreases self.wc - cx,
            {
                proof {
                    grid::slot_in_range(cx as int, cy as int, self.wc as int, self.hc as int);
                }
                let bits: u8 = self.cells[cy * self.wc + cx];
                let code: u32 = BRAILLE_BASE + bits as u32;
                match char::from_u32(code) {
                    Some(c) => {
                        line.push(c);
                    },
                    None => {
                        line.push('?');
                    },
                }
                cx = cx + 1;
                assert(line@ =~= self.rows()[cy as int].take(cx as int));
            }
            assert(line@ =~= self.rows()[cy as int]);
            text::push_joined(&mut out, line.as_str(), "\n", Ghost(self.rows()), cy);
            cy = cy + 1;
        }
        assert(self.rows().take(cy as int) =~= self.rows());
        out
    }

    /// As [`Canvas::render`], in colour and with a label layer over the plot: a
    /// labelled cell shows its label, any other cell its glyph, in the cell's
    /// colour unless that is 0. The label layer may be empty.
    pub fn render_colored(&self, colors: &Vec<u8>, labels: &Vec<Option<(char, u8)>>) -> (r: String)
        requires
            self.wf(),
            colors@.len() == self.cells@.len(),
        ensures
            r@ == text::joined(self.colored_rows(colors@, labels@), "\n"@),
    {
        let mut out = String::new();
        let mut cy: usize = 0;
        let ghost rows = self.colored_rows(colors@, labels@);
        assert(rows.take(0) =~= Seq::<Seq<char>>::empty());
        while cy < self.hc
            invariant
                self.wf(),
                colors@.len() == self.cells@.len(),
                rows == self.colored_rows(colors@, labels@),
                cy <= self.hc,
                out@ == text::joined(rows.take(cy as int), "\n"@),
            decreases self.hc - cy,
        {
            let mut line = String::new();
            let mut cx: usize = 0;
            let ghost parts = Seq::new(
                self.wc as nat,
                |x: int|
                    colored_cell(
                        self.cells@,
                        colors@,
                        labels@,
                        grid::slot(x, cy as int, self.wc as int),
                    ),
            );
            assert(parts.take(0) =~= Seq::<Seq<char>>::empty());
            while cx < self.wc
                invariant
                    self.wf(),
                    colors@.len() == self.cells@.len(),
                    cy < self.hc,
                    cx <= self.wc,
                    parts == Seq::new(
                        self.wc as nat,
                        |x: int|
                            colored_cell(
                                self.cells@,
                                colors@,
                                labels@,
                                grid::slot(x, cy as int, self.wc as int),
                            ),
                    ),
                    line@ == text::concat(parts.take(cx as int)),
                decreases self.wc - cx,
            {
                proof {
                    grid::slot_in_range(cx as int, cy as int, self.wc as int, self.hc as int);
                    assert(parts.take(cx + 1).drop_last() =~= parts.take(cx as int));
                }
                let i: usize = cy * self.wc + cx;
                let label: Option<(char, u8)> = if i < labels.len() {
                    labels[i]
                } else {
                    None
                };
                match label {
                    Some((ch, color)) => {
                        push_sgr(&mut line, color, ch);
                    },
                    None => {
                        let code: u32 = BRAILLE_BASE + self.cells[i] as u32;
                        let ch: char = match char::from_u32(code) {
                            Some(c) => c,
                            None => '?',
                        };
                        if colors[i] != 0 {
                            push_sgr(&mut line, colors[i], ch);
                        } else {
                            let ghost l0 = line@;
                            line.push(ch);
                            assert(line@ =~= l0 + seq![ch]);
                        }
                    },
                }
                cx = cx + 1;
            }
            assert(parts.take(cx as int) =~= parts);
            text::push_joined(&mut out, line.as_str(), "\n", Ghost(rows), cy);
            cy = cy + 1;
        }
        assert(rows.take(cy as int) =~= rows);
        out
    }
}

// ---------- laws of the canvas ----------

/// Setting a pixel lights its dot and changes no other dot; a pixel that is not on
/// the canvas changes nothing.
pub proof fn law_a_dot_lights_its_pixel(
    cells: Seq<u8>,
    w: int,
    h: int,
    px: int,
    py: int,
    x: int,
    y: int,
)
    requires
        cells.len() == w * h,
        0 <= x < 2 * w,
        0 <= y < 4 * h,
    ensures
        dotted(cells, w, h, px, py).len() == cells.len(),
        lit_in(dotted(cells, w, h, px, py), w, x, y) <==> (lit_in(cells, w, x, y) || (x == px && y
            == py)),
{
    grid::slot_in_range(x / 2, y / 4, w, h);
    if 0 <= px < 2 * w && 0 <= py < 4 * h {
        let i = grid::slot(px / 2, py / 4, w);
        grid::slot_in_range(px / 2, py / 4, w, h);
        if grid::slot(x / 2, y / 4, w) == i {
            grid::slot_injective(x / 2, y / 4, px / 2, py / 4, w);
            bits_are_distinct(x % 2, y % 4, px % 2, py % 4);
            let before = cells[i];
            let bit = bit_of(px % 2, py % 4);
            let c = bit_of(x % 2, y % 4);
            assert(((before | bit) & c != 0) <==> (before & c != 0 || bit & c != 0))
                by (bit_vector);
            assert(bit & c == c & bit) by (bit_vector);
        }
    }
}

/// Dots only ever add up: the order in which two pixels are set does not matter,
/// and setting one twice is setting it once.
pub proof fn law_dots_add_up(
    cells: Seq<u8>,
    w: int,
    h: int,
    x1: int,
    y1: int,
    x2: int,
    y2: int,
)
    requires
        cells.len() == w * h,
    ensures
        dotted(dotted(cells, w, h, x1, y1), w, h, x2, y2) == dotted(
            dotted(cells, w, h, x2, y2),
            w,
            h,
            x1,
            y1,
        ),
        dotted(dotted(cells, w, h, x1, y1), w, h, x1, y1) == dotted(cells, w, h, x1, y1),
{
    let on1 = 0 <= x1 < 2 * w && 0 <= y1 < 4 * h;
    let on2 = 0 <= x2 < 2 * w && 0 <= y2 < 4 * h;
    let i = grid::slot(x1 / 2, y1 / 4, w);
    let j = grid::slot(x2 / 2, y2 / 4, w);
    let a = bit_of(x1 % 2, y1 % 4);
    let b = bit_of(x2 % 2, y2 % 4);
    if on1 {
        grid::slot_in_range(x1 / 2, y1 / 4, w, h);
        let u = cells[i];
        assert((u | a) | a == u | a) by (bit_vector);
        assert(dotted(dotted(cells, w, h, x1, y1), w, h, x1, y1) =~= dotted(cells, w, h, x1, y1));
    }
    if on2 {
        grid::slot_in_range(x2 / 2, y2 / 4, w, h);
    }
    if on1 && on2 {
        let u = cells[i];
        assert((u | a) | b == (u | b) | a) by (bit_vector);
        assert(dotted(dotted(cells, w, h, x1, y1), w, h, x2, y2) =~= dotted(
            dotted(cells, w, h, x2, y2),
            w,
            h,
            x1,
            y1,
        ));
    }
}

/// A rendered canvas is a rectangle of braille patterns: as many rows as the canvas
/// has, each as wide as the canvas, and every character a braille pattern.
pub proof fn law_rows_are_braille(canvas: Canvas, x: int, y: int)
    requires
        0 <= x < canvas.wc,
        0 <= y < canvas.hc,
    ensures
        canvas.rows().len() == canvas.hc,
        canvas.rows()[y].len() == canvas.wc,
        0x2800 <= canvas.rows()[y][x] as u32 <= 0x28FF,
{
    let bits = canvas.cells@[grid::slot(x, y, canvas.wc as int)];
    assert(canvas.rows()[y][x] == glyph(bits));
}

proof fn concat_of_singletons(parts: Seq<Seq<char>>, row: Seq<char>)
    requires
        parts.len() == row.len(),
        forall|i: int| 0 <= i < row.len() ==> #[trigger] parts[i] == seq![row[i]],
    ensures
        text::concat(parts) == row,
    decreases parts.len(),
{
    if parts.len() > 0 {
        let p = parts.drop_last();
        let r = row.drop_last();
        assert forall|i: int| 0 <= i < r.len() implies #[trigger] p[i] == seq![r[i]] by {
            assert(p[i] == parts[i]);
        }
        concat_of_singletons(p, r);
        assert(parts.last() == parts[parts.len() - 1]);
        assert(text::concat(parts) =~= row);
    } else {
        assert(text::concat(parts) =~= row);
    }
}

/// Without a colour and without a label the coloured rendering is the plain one.
pub proof fn law_uncoloured_is_plain(
    canvas: Canvas,
    colors: Seq<u8>,
    labels: Seq<Option<(char, u8)>>,
)
    requires
        canvas.wf(),
        colors.len() == canvas.cells@.len(),
        forall|i: int| 0 <= i < colors.len() ==> #[trigger] colors[i] == 0,
        forall|i: int| 0 <= i < labels.len() ==> #[trigger] labels[i] is None,
    ensures
        canvas.colored_rows(colors, labels) == canvas.rows(),
{
    assert forall|y: int| 0 <= y < canvas.hc implies canvas.colored_rows(colors, labels)[y]
        == #[trigger] canvas.rows()[y] by {
        let parts = Seq::new(
            canvas.wc as nat,
            |x: int|
                colored_cell(
                    canvas.cells@,
                    colors,
                    labels,
                    grid::slot(x, y, canvas.wc as int),
                ),
        );
        let row = canvas.rows()[y];
        assert forall|i: int| 0 <= i < row.len() implies #[trigger] parts[i] == seq![row[i]] by {
            let k = grid::slot(i, y, canvas.wc as int);
            grid::slot_in_range(i, y, canvas.wc as int, canvas.hc as int);
            assert(label_at(labels, k) is None);
            assert(colors[k] == 0);
        }
        concat_of_singletons(parts, row);
    }
    assert(canvas.colored_rows(colors, labels) =~= canvas.rows());
}

} // verus!
