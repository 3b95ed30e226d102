//! One-glyph-per-cell grid with painter's-algorithm layering: a cell keeps the
//! glyph of the highest-priority layer written to it.

use crate::braille;
use crate::grid;
use crate::text;
use vstd::prelude::*;
use vstd::string::StringExecFns;

verus! {

/// What one cell of a grid shows: a glyph, the priority of the layer it belongs to,
/// and its colour in the 256-colour palette (0 = none).
#[derive(Debug, Clone, Copy, PartialEq, Eq, Structural)]
pub struct Mark {
    pub glyph: char,
    pub prio: u8,
    pub color: u8,
}

/// A mark to be painted at a cell, which may lie outside the grid.
pub struct Stroke {
    pub col: int,
    pub row: int,
    pub mark: Mark,
}

/// What an unpainted cell shows.
pub open spec fn blank() -> Mark {
    Mark { glyph: ' ', prio: 0, color: 0 }
}

/// Whether a cell lies on a `w` x `h` grid.
pub open spec fn in_frame(col: int, row: int, w: int, h: int) -> bool {
    0 <= col < w && 0 <= row < h
}

/// The cells of a `w` x `h` grid once a stroke is painted: the stroke's cell takes
/// its mark where the mark's priority is at least the cell's, and nothing else
/// changes. A stroke outside the grid changes nothing.
pub open spec fn painted(cells: Seq<Mark>, w: int, h: int, s: Stroke) -> Seq<Mark> {
    let i = grid::slot(s.col, s.row, w);
    if in_frame(s.col, s.row, w, h) && s.mark.prio >= cells[i].prio {
        cells.update(i, s.mark)
    } else {
        cells
    }
}

/// The cells of a `w` x `h` grid once strokes are painted one after the other.
pub open spec fn painted_all(cells: Seq<Mark>, w: int, h: int, strokes: Seq<Stroke>) -> Seq<Mark>
    decreases strokes.len(),
{
    if strokes.len() == 0 {
        cells
    } else {
        painted(painted_all(cells, w, h, strokes.drop_last()), w, h, strokes.last())
    }
}

/// Painting keeps the number of cells.
pub proof fn painted_all_len(cells: Seq<Mark>, w: int, h: int, strokes: Seq<Stroke>)
    requires
        cells.len() == w * h,
    ensures
        painted_all(cells, w, h, strokes).len() == cells.len(),
    decreases strokes.len(),
{
    if strokes.len() > 0 {
        painted_all_len(cells, w, h, strokes.drop_last());
        let last = strokes.last();
        if in_frame(last.col, last.row, w, h) {
            grid::slot_in_range(last.col, last.row, w, h);
        }
    }
}

/// Painting two lists of strokes one after the other is painting them as one.
pub proof fn painted_all_concat(cells: Seq<Mark>, w: int, h: int, a: Seq<Stroke>, b: Seq<Stroke>)
    ensures
        painted_all(cells, w, h, a + b) == painted_all(painted_all(cells, w, h, a), w, h, b),
    decreases b.len(),
{
    if b.len() == 0 {
        assert(a + b =~= a);
    } else {
        assert((a + b).drop_last() =~= a + b.drop_last());
        painted_all_concat(cells, w, h, a, b.drop_last());
    }
}

/// How many cells of a row are left once the blanks at its end are dropped.
pub open spec fn content_len(row: Seq<char>) -> nat
    decreases row.len(),
{
    if row.len() == 0 {
        0
    } else if row.last() == ' ' {
        content_len(row.drop_last())
    } else {
        row.len()
    }
}

/// A cell as a terminal shows it: in colour unless it is blank or has none.
pub open spec fn ansi_cell(m: Mark) -> Seq<char> {
    if m.glyph != ' ' && m.color != 0 {
        braille::sgr(m.color, m.glyph)
    } else {
        seq![m.glyph]
    }
}

/// The glyphs of row `r` of a grid `w` cells wide.
pub open spec fn glyph_row(cells: Seq<Mark>, w: int, r: int) -> Seq<char> {
    Seq::new(w as nat, |c: int| cells[grid::slot(c, r, w)].glyph)
}

/// The rows of a grid as plain text, top row first, without the white space at
/// their ends.
pub open spec fn plain_rows(cells: Seq<Mark>, w: int, h: int) -> Seq<Seq<char>> {
    Seq::new(h as nat, |r: int| text::trim_end(glyph_row(cells, w, r)))
}

/// Row `r` of a grid in colour, without the blanks at its end, cell by cell.
pub open spec fn colored_row(cells: Seq<Mark>, w: int, r: int) -> Seq<Seq<char>> {
    Seq::new(
        content_len(glyph_row(cells, w, r)),
        |c: int| ansi_cell(cells[grid::slot(c, r, w)]),
    )
}

/// The rows of a grid in colour, top row first.
pub open spec fn colored_rows(cells: Seq<Mark>, w: int, h: int) -> Seq<Seq<char>> {
    Seq::new(h as nat, |r: int| text::concat(colored_row(cells, w, r)))
}

/// A one-glyph-per-cell grid of `wc` columns and `hc` rows, row-major.
pub struct CharGrid {
    pub wc: usize,
    pub hc: usize,
    pub cells: Vec<char>,
    pub prio: Vec<u8>,
    pub color: Vec<u8>,
}

impl Clone for CharGrid {
    fn clone(&self) -> (r: Self)
        ensures
            r.wc == self.wc,
            r.hc == self.hc,
            self.wf() ==> r.wf(),
            r.marks() == self.marks(),
    {
        let cells = self.cells.clone();
        let prio = self.prio.clone();
        let color = self.color.clone();
        assert(cells@ =~= self.cells@);
        assert(prio@ =~= self.prio@);
        assert(color@ =~= self.color@);
        CharGrid { wc: self.wc, hc: self.hc, cells, prio, color }
    }
}

impl CharGrid {
    /// One glyph, priority and colour for every cell.
    pub open spec fn wf(self) -> bool {
        &&& self.wc * self.hc <= usize::MAX
        &&& self.cells@.len() == self.wc * self.hc
        &&& self.prio@.len() == self.cells@.len()
        &&& self.color@.len() == self.cells@.len()
    }

    /// What each cell shows.
    pub open spec fn marks(self) -> Seq<Mark> {
        Seq::new(self.cells@.len(), |i: int| self.mark(i))
    }

    /// What the cell in slot `i` shows.
    pub open spec fn mark(self, i: int) -> Mark {
        Mark { glyph: self.cells@[i], prio: self.prio@[i], color: self.color@[i] }
    }

    /// The rows as plain text, top row first.
    pub open spec fn rows(self) -> Seq<Seq<char>> {
        plain_rows(self.marks(), self.wc as int, self.hc as int)
    }

    /// The rows in colour, top row first.
    pub open spec fn ansi_rows(self) -> Seq<Seq<char>> {
        colored_rows(self.marks(), self.wc as int, self.hc as int)
    }

    /// A grid of blank cells.
    pub fn new(wc: usize, hc: usize) -> (r: CharGrid)
        requires
            wc * hc <= usize::MAX,
        ensures
            r.wf(),
            r.wc == wc,
            r.hc == hc,
            r.marks() == Seq::new((wc * hc) as nat, |i: int| blank()),
    {
        let n: usize = wc * hc;
        let r = CharGrid {
            wc,
            hc,
            cells: vec![' '; n],
            prio: vec![0u8; n],
            color: vec![0u8; n],
        };
        assert(r.marks() =~= Seq::new((wc * hc) as nat, |i: int| blank()));
        r
    }

    /// Paint `glyph` (with ANSI 256-colour `color`, `0` = none) at `(col, row)`
    /// if `priority` is at least the cell's current layer. Out-of-frame cells,
    /// including those at negative coordinates, are clipped, so callers never need
    /// bounds bookkeeping.
    pub fn put(&mut self, col: i32, row: i32, glyph: char, priority: u8, color: u8)
        requires
            old(self).wf(),
        ensures
            final(self).wf(),
            final(self).wc == old(self).wc,
            final(self).hc == old(self).hc,
            final(self).marks() == painted(
                old(self).marks(),
                old(self).wc as int,
                old(self).hc as int,
                (Stroke { col: col as int, row: row as int, mark: Mark { glyph, prio: priority, color } }),
            ),
    {
        if col < 0 || row < 0 {
            return ;
        }
        let c: u32 = col as u32;
        let r: u32 = row as u32;
        let c: usize = c as usize;
        let r: usize = r as usize;
        if c >= self.wc || r >= self.hc {
            return ;
        }
        let i: usize = grid::slot_of(c, r, self.wc, self.hc);
        if priority >= self.prio[i] {
            self.cells.set(i, glyph);
            self.prio.set(i, priority);
            self.color.set(i, color);
            assert(self.marks() =~= old(self).marks().update(
                i as int,
                Mark { glyph, prio: priority, color },
            ));
        }
    }

    /// The glyph currently at `(col, row)`, or `None` if out of frame.
    pub fn cell_at(&self, col: i32, row: i32) -> (r: Option<char>)
        requires
            self.wf(),
        ensures
            r == if in_frame(col as int, row as int, self.wc as int, self.hc as int) {
                Some(self.marks()[grid::slot(col as int, row as int, self.wc as int)].glyph)
            } else {
                None
            },
    {
        if col < 0 || row < 0 {
            return None;
        }
        let c: u32 = col as u32;
        let r: u32 = row as u32;
        let c: usize = c as usize;
        let r: usize = r as usize;
        if c >= self.wc || r >= self.hc {
            return None;
        }
        let i: usize = grid::slot_of(c, r, self.wc, self.hc);
        Some(self.cells[i])
    }

    /// One line per row with trailing blanks trimmed, rows joined by `\n`.
    pub fn render(&self) -> (out: String)
        requires
            self.wf(),
        ensures
            out@ == text::joined(self.rows(), "\n"@),
    {
        let mut out = String::new();
        let mut r: usize = 0;
        assert(self.rows().take(0) =~= Seq::<Seq<char>>::empty());
        while r < self.hc
            invariant
                self.wf(),
                r <= self.hc,
                out@ == text::joined(self.rows().take(r as int), "\n"@),
            decreases self.hc - r,
        {
            proof {
                if self.wc > 0 {
                    grid::slot_in_range(0, r as int, self.wc as int, self.hc as int);
                } else {
                    assert(r * self.wc == 0 && self.wc * self.hc == 0) by (nonlinear_arith)
                        requires
                            self.wc == 0,
                    ;
                }
            }
            let from: usize = r * self.wc;
            let end: usize = text::content_end(&self.cells, from, from + self.wc);
            let line = text::text_of(&self.cells, from, end);
            proof {
                assert(self.cells@.subrange(from as int, from + self.wc) =~= glyph_row(
                    self.marks(),
                    self.wc as int,
                    r as int,
                ));
            }
            text::push_joined(&mut out, line.as_str(), "\n", Ghost(self.rows()), r);
            r = r + 1;
        }
        assert(self.rows().take(r as int) =~= self.rows());
        out
    }

    /// How many cells of row `r` are left once the blanks at its end are dropped.
    fn row_end(&self, r: usize) -> (e: usize)
        requires
            self.wf(),
            r < self.hc,
        ensures
            e == content_len(glyph_row(self.marks(), self.wc as int, r as int)),
            e <= self.wc,
    {
        let mut e: usize = self.wc;
        let ghost row = glyph_row(self.marks(), self.wc as int, r as int);
        assert(row.take(e as int) =~= row);
        while e > 0
            invariant
                self.wf(),
                r < self.hc,
                e <= self.wc,
                row == glyph_row(self.marks(), self.wc as int, r as int),
                content_len(row.take(e as int)) == content_len(row),
            decreases e,
        {
            proof {
                grid::slot_in_range(e - 1, r as int, self.wc as int, self.hc as int);
                assert(row.take(e as int).drop_last() =~= row.take(e - 1));
                assert(row.take(e as int).last() == row[e - 1]);
            }
            if self.cells[r * self.wc + (e - 1)] != ' ' {
                return e;
            }
            e = e - 1;
        }
        e
    }

    /// As [`CharGrid::render`], but each coloured cell is wrapped in an ANSI
    /// 256-colour sequence (cells with colour `0` stay plain).
    pub fn render_ansi(&self) -> (out: String)
        requires
            self.wf(),
        ensures
            out@ == text::joined(self.ansi_rows(), "\n"@),
    {
        let mut out = String::new();
        let mut r: usize = 0;
        assert(self.ansi_rows().take(0) =~= Seq::<Seq<char>>::empty());
        while r < self.hc
            invariant
                self.wf(),
                r <= self.hc,
                out@ == text::joined(self.ansi_rows().take(r as int), "\n"@),
            decreases self.hc - r,
        {
            let end: usize = self.row_end(r);
            let ghost parts = colored_row(self.marks(), self.wc as int, r as int);
            let mut line = String::new();
            let mut c: usize = 0;
            assert(parts.take(0) =~= Seq::<Seq<char>>::empty());
            while c < end
                invariant
                    self.wf(),
                    r < self.hc,
                    c <= end <= self.wc,
                    end == parts.len(),
                    parts == colored_row(self.marks(), self.wc as int, r as int),
                    line@ == text::concat(parts.take(c as int)),
                decreases end - c,
            {
                proof {
                    grid::slot_in_range(c as int, r as int, self.wc as int, self.hc as int);
                    assert(parts.take(c + 1).drop_last() =~= parts.take(c as int));
                }
                let i: usize = r * self.wc + c;
                let ch: char = self.cells[i];
                let color: u8 = self.color[i];
                if ch != ' ' && color != 0 {
                    braille::push_sgr(&mut line, color, ch);
                } else {
                    let ghost l0 = line@;
                    line.push(ch);
                    assert(line@ =~= l0 + seq![ch]);
                }
                c = c + 1;
            }
            assert(parts.take(c as int) =~= parts);
            text::push_joined(&mut out, line.as_str(), "\n", Ghost(self.ansi_rows()), r);
            r = r + 1;
        }
        assert(self.ansi_rows().take(r as int) =~= self.ansi_rows());
        out
    }
}

// ---------- laws of painting ----------

/// A cell shows the last of the highest-priority strokes painted on it: where
/// stroke `k` lands on a cell with at least the priority of what was there before,
/// of the strokes before it that land there, and more than that of those behind it,
/// the cell shows its mark.
pub proof fn law_last_of_the_highest_layer_shows(
    cells: Seq<Mark>,
    w: int,
    h: int,
    strokes: Seq<Stroke>,
    k: int,
)
    requires
        cells.len() == w * h,
        0 <= k < strokes.len(),
        in_frame(strokes[k].col, strokes[k].row, w, h),
        cells[grid::slot(strokes[k].col, strokes[k].row, w)].prio <= strokes[k].mark.prio,
        forall|j: int|
            0 <= j < strokes.len() && (#[trigger] strokes[j]).col == strokes[k].col
                && strokes[j].row == strokes[k].row ==> (if j <= k {
                strokes[j].mark.prio <= strokes[k].mark.prio
            } else {
                strokes[j].mark.prio < strokes[k].mark.prio
            }),
    ensures
        painted_all(cells, w, h, strokes)[grid::slot(strokes[k].col, strokes[k].row, w)]
            == strokes[k].mark,
    decreases strokes.len(),
{
    let c = strokes[k].col;
    let r = strokes[k].row;
    let i = grid::slot(c, r, w);
    let rest = strokes.drop_last();
    let last = strokes.last();
    grid::slot_in_range(c, r, w, h);
    painted_all_len(cells, w, h, rest);
    if in_frame(last.col, last.row, w, h) {
        grid::slot_in_range(last.col, last.row, w, h);
    }
    assert(strokes[strokes.len() - 1] == last);
    if k < strokes.len() - 1 {
        assert forall|j: int|
            0 <= j < rest.len() && (#[trigger] rest[j]).col == c && rest[j].row == r implies (if j
            <= k {
            rest[j].mark.prio <= rest[k].mark.prio
        } else {
            rest[j].mark.prio < rest[k].mark.prio
        }) by {
            assert(rest[j] == strokes[j]);
        }
        assert(rest[k] == strokes[k]);
        law_last_of_the_highest_layer_shows(cells, w, h, rest, k);
        if in_frame(last.col, last.row, w, h) && grid::slot(last.col, last.row, w) == i {
            grid::slot_injective(last.col, last.row, c, r, w);
        }
    } else {
        prio_is_bounded(cells, w, h, rest, c, r, last.mark.prio);
    }
}

/// The priority of a cell is bounded by those of what was there and of the strokes
/// painted on it.
pub proof fn prio_is_bounded(
    cells: Seq<Mark>,
    w: int,
    h: int,
    strokes: Seq<Stroke>,
    c: int,
    r: int,
    bound: u8,
)
    requires
        cells.len() == w * h,
        in_frame(c, r, w, h),
        cells[grid::slot(c, r, w)].prio <= bound,
        forall|j: int|
            0 <= j < strokes.len() && (#[trigger] strokes[j]).col == c && strokes[j].row == r
                ==> strokes[j].mark.prio <= bound,
    ensures
        painted_all(cells, w, h, strokes)[grid::slot(c, r, w)].prio <= bound,
    decreases strokes.len(),
{
    if strokes.len() > 0 {
        let rest = strokes.drop_last();
        let last = strokes.last();
        assert(strokes[strokes.len() - 1] == last);
        assert forall|j: int|
            0 <= j < rest.len() && (#[trigger] rest[j]).col == c && rest[j].row
                == r implies rest[j].mark.prio <= bound by {
            assert(rest[j] == strokes[j]);
        }
        prio_is_bounded(cells, w, h, rest, c, r, bound);
        painted_all_len(cells, w, h, rest);
        grid::slot_in_range(c, r, w, h);
        if in_frame(last.col, last.row, w, h) {
            grid::slot_in_range(last.col, last.row, w, h);
            if grid::slot(last.col, last.row, w) == grid::slot(c, r, w) {
                grid::slot_injective(last.col, last.row, c, r, w);
            }
        }
    }
}

/// A cell that no stroke lands on keeps what it shows.
pub proof fn law_untouched_cells_stay(
    cells: Seq<Mark>,
    w: int,
    h: int,
    strokes: Seq<Stroke>,
    c: int,
    r: int,
)
    requires
        cells.len() == w * h,
        in_frame(c, r, w, h),
        forall|j: int|
            0 <= j < strokes.len() ==> !((#[trigger] strokes[j]).col == c && strokes[j].row == r),
    ensures
        painted_all(cells, w, h, strokes)[grid::slot(c, r, w)] == cells[grid::slot(c, r, w)],
    decreases strokes.len(),
{
    if strokes.len() > 0 {
        let rest = strokes.drop_last();
        let last = strokes.last();
        assert(strokes[strokes.len() - 1] == last);
        assert forall|j: int| 0 <= j < rest.len() implies !((#[trigger] rest[j]).col == c
            && rest[j].row == r) by {
            assert(rest[j] == strokes[j]);
        }
        law_untouched_cells_stay(cells, w, h, rest, c, r);
        painted_all_len(cells, w, h, rest);
        grid::slot_in_range(c, r, w, h);
        if in_frame(last.col, last.row, w, h) {
            grid::slot_in_range(last.col, last.row, w, h);
            if grid::slot(last.col, last.row, w) == grid::slot(c, r, w) {
                grid::slot_injective(last.col, last.row, c, r, w);
            }
        }
    }
}

/// Layers never recede: painting raises the priority of a cell or leaves it.
pub proof fn law_painting_never_lowers_a_layer(
    cells: Seq<Mark>,
    w: int,
    h: int,
    strokes: Seq<Stroke>,
    i: int,
)
    requires
        cells.len() == w * h,
        0 <= i < cells.len(),
    ensures
        painted_all(cells, w, h, strokes)[i].prio >= cells[i].prio,
    decreases strokes.len(),
{
    if strokes.len() > 0 {
        let rest = strokes.drop_last();
        let last = strokes.last();
        law_painting_never_lowers_a_layer(cells, w, h, rest, i);
        painted_all_len(cells, w, h, rest);
        if in_frame(last.col, last.row, w, h) {
            grid::slot_in_range(last.col, last.row, w, h);
        }
    }
}

/// What a cell shows is not covered by lower layers.
pub proof fn law_lower_layers_do_not_cover(
    cells: Seq<Mark>,
    w: int,
    h: int,
    strokes: Seq<Stroke>,
    i: int,
)
    requires
        cells.len() == w * h,
        0 <= i < cells.len(),
        forall|j: int| 0 <= j < strokes.len() ==> (#[trigger] strokes[j]).mark.prio < cells[i].prio,
    ensures
        painted_all(cells, w, h, strokes)[i] == cells[i],
    decreases strokes.len(),
{
    if strokes.len() > 0 {
        let rest = strokes.drop_last();
        let last = strokes.last();
        assert(strokes[strokes.len() - 1] == last);
        assert forall|j: int| 0 <= j < rest.len() implies (#[trigger] rest[j]).mark.prio
            < cells[i].prio by {
            assert(rest[j] == strokes[j]);
        }
        law_lower_layers_do_not_cover(cells, w, h, rest, i);
        painted_all_len(cells, w, h, rest);
        if in_frame(last.col, last.row, w, h) {
            grid::slot_in_range(last.col, last.row, w, h);
        }
    }
}

// ---------- laws of colour ----------

/// How many decimal digits a text starts with.
pub open spec fn digit_run(s: Seq<char>) -> nat
    decreases s.len(),
{
    if s.len() > 0 && '0' <= s[0] <= '9' {
        1 + digit_run(s.drop_first())
    } else {
        0
    }
}

/// What a sequence that sets a colour starts with.
pub open spec fn opener() -> Seq<char> {
    seq!['\x1b', '[', '3', '8', ';', '5', ';']
}

/// The sequence that ends a colour.
pub open spec fn reset() -> Seq<char> {
    seq!['\x1b', '[', '0', 'm']
}

/// The length of the sequence that sets a colour at the start of a text: 0 where
/// there is none.
pub open spec fn opening_len(s: Seq<char>) -> nat {
    let k = digit_run(s.skip(7));
    if text::starts_with(s, opener()) && k > 0 && 7 + k < s.len() && s[7int + k] == 'm' {
        8 + k
    } else {
        0
    }
}

/// The length of the colour sequence at the start of a text: 0 where there is none.
pub open spec fn escape_len(s: Seq<char>) -> nat {
    if text::starts_with(s, reset()) {
        4
    } else {
        opening_len(s)
    }
}

/// A text with every colour sequence deleted.
pub open spec fn without_escapes(s: Seq<char>) -> Seq<char>
    decreases s.len(),
{
    if s.len() == 0 {
        Seq::empty()
    } else if escape_len(s) > 0 {
        without_escapes(s.skip(escape_len(s) as int))
    } else {
        seq![s[0]] + without_escapes(s.drop_first())
    }
}

/// The colours that a text sets, one for each sequence that sets one, in order.
pub open spec fn openings(s: Seq<char>) -> Seq<nat>
    decreases s.len(),
{
    if s.len() == 0 {
        Seq::empty()
    } else if opening_len(s) > 0 {
        seq![text::digits_value(s.subrange(7, opening_len(s) - 1))] + openings(
            s.skip(opening_len(s) as int),
        )
    } else {
        openings(s.drop_first())
    }
}

/// The colour of a cell, where it is shown in one.
pub open spec fn cell_color(m: Mark) -> Seq<nat> {
    if m.glyph != ' ' && m.color != 0 {
        seq![m.color as nat]
    } else {
        Seq::empty()
    }
}

/// The colours of the cells that are shown in one, in order.
pub open spec fn cell_colors(cells: Seq<Mark>) -> Seq<nat>
    decreases cells.len(),
{
    if cells.len() == 0 {
        Seq::empty()
    } else {
        cell_colors(cells.drop_last()) + cell_color(cells.last())
    }
}

/// The glyphs of cells.
pub open spec fn glyphs(cells: Seq<Mark>) -> Seq<char> {
    cells.map_values(|m: Mark| m.glyph)
}

/// Whether no cell shows the escape character.
pub open spec fn escape_free(cells: Seq<Mark>) -> bool {
    forall|i: int| 0 <= i < cells.len() ==> (#[trigger] cells[i]).glyph != '\x1b'
}

/// A character in front of a text is read as it is, unless it is the escape character.
pub proof fn peel_char(c: char, rest: Seq<char>)
    requires
        c != '\x1b',
    ensures
        without_escapes(seq![c] + rest) == seq![c] + without_escapes(rest),
        openings(seq![c] + rest) == openings(rest),
{
    let s = seq![c] + rest;
    assert(s[0] == c);
    if text::starts_with(s, reset()) {
        assert(s.take(4)[0] == reset()[0]);
    }
    if text::starts_with(s, opener()) {
        assert(s.take(7)[0] == opener()[0]);
    }
    assert(s.drop_first() =~= rest);
}

proof fn digit_run_of(d: Seq<char>, rest: Seq<char>)
    requires
        text::all_digits(d),
        rest.len() > 0,
        !('0' <= rest[0] <= '9'),
    ensures
        digit_run(d + rest) == d.len(),
    decreases d.len(),
{
    if d.len() == 0 {
        assert(d + rest =~= rest);
    } else {
        let tail = d.drop_first();
        assert forall|i: int| 0 <= i < tail.len() implies '0' <= #[trigger] tail[i] <= '9' by {
            assert(tail[i] == d[i + 1]);
        }
        assert((d + rest)[0] == d[0]);
        assert((d + rest).drop_first() =~= tail + rest);
        digit_run_of(tail, rest);
    }
}

proof fn peel_reset(rest: Seq<char>)
    ensures
        without_escapes(reset() + rest) == without_escapes(rest),
        openings(reset() + rest) == openings(rest),
{
    let s = reset() + rest;
    assert(s.take(4) =~= reset());
    assert(s.skip(4) =~= rest);
    assert(escape_len(s) == 4);
    if text::starts_with(s, opener()) {
        assert(s.take(7)[2] == opener()[2]);
    }
    let a = seq!['m'] + rest;
    let b = seq!['0'] + a;
    let c = seq!['['] + b;
    assert(s.drop_first() =~= c);
    peel_char('[', b);
    peel_char('0', a);
    peel_char('m', rest);
}

/// A coloured character in front of a text is read as the character, in its colour.
pub proof fn peel_sgr(color: u8, ch: char, rest: Seq<char>)
    requires
        ch != '\x1b',
    ensures
        without_escapes(braille::sgr(color, ch) + rest) == seq![ch] + without_escapes(rest),
        openings(braille::sgr(color, ch) + rest) == seq![color as nat] + openings(rest),
{
    reveal_strlit("\x1b[38;5;");
    reveal_strlit("m");
    reveal_strlit("\x1b[0m");
    let d = text::dec(color as nat);
    text::dec_is_digits(color as nat);
    let n = d.len();
    let s = braille::sgr(color, ch) + rest;
    let behind = seq![ch] + (reset() + rest);
    let tail = seq!['m'] + behind;
    assert(s =~= opener() + d + tail);
    assert(s.take(7) =~= opener());
    assert(s.skip(7) =~= d + tail);
    digit_run_of(d, tail);
    assert(s[7int + n] == 'm');
    assert(opening_len(s) == 8 + n);
    if text::starts_with(s, reset()) {
        assert(s.take(4)[2] == reset()[2]);
        assert(s[2] == '3');
    }
    assert(escape_len(s) == 8 + n);
    assert(s.skip(8 + n as int) =~= behind);
    assert(s.subrange(7, 7 + n as int) =~= d);
    peel_char(ch, reset() + rest);
    peel_reset(rest);
}

proof fn peel_cells(cells: Seq<Mark>, rest: Seq<char>)
    requires
        escape_free(cells),
    ensures
        ({
            let s = text::concat(cells.map_values(|m: Mark| ansi_cell(m)));
            &&& without_escapes(s + rest) == glyphs(cells) + without_escapes(rest)
            &&& openings(s + rest) == cell_colors(cells) + openings(rest)
        }),
    decreases cells.len(),
{
    let parts = cells.map_values(|m: Mark| ansi_cell(m));
    let s = text::concat(parts);
    if cells.len() == 0 {
        assert(s + rest =~= rest);
        assert(glyphs(cells) + without_escapes(rest) =~= without_escapes(rest));
        assert(cell_colors(cells) + openings(rest) =~= openings(rest));
    } else {
        let front = cells.drop_last();
        let m = cells.last();
        assert(m == cells[cells.len() - 1]);
        assert forall|i: int| 0 <= i < front.len() implies (#[trigger] front[i]).glyph
            != '\x1b' by {
            assert(front[i] == cells[i]);
        }
        assert(parts.drop_last() =~= front.map_values(|m: Mark| ansi_cell(m)));
        let before = text::concat(parts.drop_last());
        let last = ansi_cell(m);
        assert(s + rest =~= before + (last + rest));
        peel_cells(front, last + rest);
        if m.glyph != ' ' && m.color != 0 {
            peel_sgr(m.color, m.glyph, rest);
        } else {
            peel_char(m.glyph, rest);
            assert(cell_color(m) + openings(rest) =~= openings(rest));
        }
        assert(without_escapes(last + rest) == seq![m.glyph] + without_escapes(rest));
        assert(openings(last + rest) == cell_color(m) + openings(rest));
        assert(glyphs(cells) =~= glyphs(front) + seq![m.glyph]);
        assert(glyphs(front) + (seq![m.glyph] + without_escapes(rest)) =~= glyphs(cells)
            + without_escapes(rest));
        assert(cell_colors(front) + (cell_color(m) + openings(rest)) =~= cell_colors(cells)
            + openings(rest));
    }
}

/// Row `r` of a grid `w` cells wide.
pub open spec fn mark_row(cells: Seq<Mark>, w: int, r: int) -> Seq<Mark> {
    cells.subrange(r * w, r * w + w)
}

proof fn content_is_bounded(row: Seq<char>)
    ensures
        content_len(row) <= row.len(),
    decreases row.len(),
{
    if row.len() > 0 {
        content_is_bounded(row.drop_last());
    }
}

proof fn blanks_have_no_color(row: Seq<Mark>)
    ensures
        content_len(glyphs(row)) <= row.len(),
        cell_colors(row.take(content_len(glyphs(row)) as int)) == cell_colors(row),
    decreases row.len(),
{
    let g = glyphs(row);
    content_is_bounded(g);
    if row.len() > 0 && g.last() == ' ' {
        let front = row.drop_last();
        assert(glyphs(front) =~= g.drop_last());
        blanks_have_no_color(front);
        let n = content_len(g) as int;
        assert(front.take(n) =~= row.take(n));
        assert(cell_colors(row) =~= cell_colors(front));
    } else {
        assert(row.take(content_len(g) as int) =~= row);
    }
}

proof fn cell_colors_concat(a: Seq<Mark>, b: Seq<Mark>)
    ensures
        cell_colors(a + b) == cell_colors(a) + cell_colors(b),
    decreases b.len(),
{
    if b.len() == 0 {
        assert(a + b =~= a);
        assert(cell_colors(a) + cell_colors(b) =~= cell_colors(a));
    } else {
        assert((a + b).drop_last() =~= a + b.drop_last());
        cell_colors_concat(a, b.drop_last());
        assert(cell_colors(a + b) =~= cell_colors(a) + cell_colors(b));
    }
}

/// The rows of a grid as plain text, top row first, without the blanks at their
/// ends.
spec fn bare_rows(cells: Seq<Mark>, w: int, h: int) -> Seq<Seq<char>> {
    Seq::new(
        h as nat,
        |r: int| glyph_row(cells, w, r).take(content_len(glyph_row(cells, w, r)) as int),
    )
}

proof fn peel_row(cells: Seq<Mark>, w: int, h: int, r: int, rest: Seq<char>)
    requires
        0 <= w,
        0 <= r < h,
        cells.len() == w * h,
        escape_free(cells),
    ensures
        ({
            let s = text::concat(colored_row(cells, w, r));
            &&& without_escapes(s + rest) == bare_rows(cells, w, h)[r] + without_escapes(rest)
            &&& openings(s + rest) == cell_colors(mark_row(cells, w, r)) + openings(rest)
        }),
{
    rows_fit(w, h, r);
    let row = mark_row(cells, w, r);
    let g = glyph_row(cells, w, r);
    assert(glyphs(row) =~= g);
    let n = content_len(g) as int;
    blanks_have_no_color(row);
    let kept = row.take(n);
    assert(colored_row(cells, w, r) =~= kept.map_values(|m: Mark| ansi_cell(m)));
    assert forall|i: int| 0 <= i < kept.len() implies (#[trigger] kept[i]).glyph != '\x1b' by {
        assert(kept[i] == cells[r * w + i]);
    }
    peel_cells(kept, rest);
    assert(glyphs(kept) =~= g.take(n));
}

proof fn rows_fit(w: int, h: int, r: int)
    requires
        0 <= w,
        0 <= r < h,
    ensures
        0 <= r * w,
        r * w == w * r,
        r * w + w == w * (r + 1),
        r * w + w <= w * h,
{
    assert(0 <= r * w) by (nonlinear_arith)
        requires
            0 <= r,
            0 <= w,
    ;
    assert(r * w + w == w * (r + 1)) by (nonlinear_arith);
    assert(r * w == w * r) by (nonlinear_arith);
    assert(w * (r + 1) <= w * h) by (nonlinear_arith)
        requires
            r + 1 <= h,
            0 <= w,
    ;
}

proof fn regroup<A>(a: Seq<A>, b: Seq<A>, c: Seq<A>, d: Seq<A>)
    ensures
        a + b + c + d == a + (b + (c + d)),
{
    assert(a + b + c + d =~= a + (b + (c + d)));
}

proof fn peel_rows(cells: Seq<Mark>, w: int, h: int, n: int, rest: Seq<char>)
    requires
        0 <= w,
        0 <= n <= h,
        cells.len() == w * h,
        escape_free(cells),
    ensures
        ({
            let s = text::joined(colored_rows(cells, w, h).take(n), "\n"@);
            let plain = text::joined(bare_rows(cells, w, h).take(n), "\n"@);
            &&& without_escapes(s + rest) == plain + without_escapes(rest)
            &&& openings(s + rest) == cell_colors(cells.take(w * n)) + openings(rest)
        }),
    decreases n,
{
    let rows = colored_rows(cells, w, h).take(n);
    let bare = bare_rows(cells, w, h).take(n);
    let s = text::joined(rows, "\n"@);
    let plain = text::joined(bare, "\n"@);
    if n == 0 {
        assert(w * n == 0) by (nonlinear_arith)
            requires
                n == 0,
        ;
        assert(s + rest =~= rest);
        assert(plain + without_escapes(rest) =~= without_escapes(rest));
        assert(cell_colors(cells.take(w * n)) + openings(rest) =~= openings(rest));
    } else {
        let r = n - 1;
        let last = rows.last();
        let marks = mark_row(cells, w, r);
        rows_fit(w, h, r);
        peel_row(cells, w, h, r, rest);
        assert(last == text::concat(colored_row(cells, w, r)));
        assert(bare.last() == bare_rows(cells, w, h)[r]);
        assert(cells.take(w * n) =~= cells.take(w * r) + marks);
        cell_colors_concat(cells.take(w * r), marks);
        if n == 1 {
            assert(w * r == 0) by (nonlinear_arith)
                requires
                    r == 0,
            ;
            assert(cell_colors(cells.take(w * r)) =~= Seq::<nat>::empty());
            assert(cell_colors(cells.take(w * n)) =~= cell_colors(marks));
        } else {
            reveal_strlit("\n");
            assert("\n"@ =~= seq!['\n']);
            let front = colored_rows(cells, w, h).take(r);
            let bare_front = bare_rows(cells, w, h).take(r);
            assert(rows.drop_last() =~= front);
            assert(bare.drop_last() =~= bare_front);
            let behind = last + rest;
            let middle = seq!['\n'] + behind;
            assert(s == text::joined(front, "\n"@) + seq!['\n'] + last);
            assert(plain == text::joined(bare_front, "\n"@) + seq!['\n'] + bare.last());
            regroup(text::joined(front, "\n"@), seq!['\n'], last, rest);
            peel_rows(cells, w, h, r, middle);
            peel_char('\n', behind);
            regroup(
                text::joined(bare_front, "\n"@),
                seq!['\n'],
                bare.last(),
                without_escapes(rest),
            );
            regroup(cell_colors(cells.take(w * r)), cell_colors(marks), Seq::empty(), openings(rest));
            assert(Seq::<nat>::empty() + openings(rest) =~= openings(rest));
            assert(cell_colors(cells.take(w * n)) + Seq::<nat>::empty() =~= cell_colors(
                cells.take(w * n),
            ));
        }
    }
}

proof fn blanks_are_the_white_space(row: Seq<char>)
    requires
        forall|i: int| 0 <= i < row.len() ==> #[trigger] row[i] == ' ' || !text::is_space(row[i]),
    ensures
        content_len(row) <= row.len(),
        text::trim_end(row) == row.take(content_len(row) as int),
    decreases row.len(),
{
    if row.len() > 0 && row.last() == ' ' {
        let front = row.drop_last();
        assert forall|i: int| 0 <= i < front.len() implies #[trigger] front[i] == ' '
            || !text::is_space(front[i]) by {
            assert(front[i] == row[i]);
        }
        blanks_are_the_white_space(front);
        let n = content_len(row) as int;
        assert(front.take(n) =~= row.take(n));
    } else {
        if row.len() > 0 {
            assert(row[row.len() - 1] == row.last());
        }
        assert(row.take(content_len(row) as int) =~= row);
    }
}

/// Colour adds nothing but colour: the coloured grid with its colour sequences
/// deleted is the plain grid. This holds where a cell shows a blank or a glyph that
/// is neither white space nor the escape character.
pub proof fn law_colour_adds_only_escapes(cells: Seq<Mark>, w: int, h: int)
    requires
        0 <= w,
        0 <= h,
        cells.len() == w * h,
        escape_free(cells),
        forall|i: int|
            0 <= i < cells.len() ==> (#[trigger] cells[i]).glyph == ' ' || !text::is_space(
                cells[i].glyph,
            ),
    ensures
        without_escapes(text::joined(colored_rows(cells, w, h), "\n"@)) == text::joined(
            plain_rows(cells, w, h),
            "\n"@,
        ),
{
    let none = Seq::<char>::empty();
    let s = text::joined(colored_rows(cells, w, h), "\n"@);
    peel_rows(cells, w, h, h, none);
    assert(colored_rows(cells, w, h).take(h) =~= colored_rows(cells, w, h));
    assert(bare_rows(cells, w, h).take(h) =~= bare_rows(cells, w, h));
    assert forall|r: int| 0 <= r < h implies bare_rows(cells, w, h)[r] == plain_rows(
        cells,
        w,
        h,
    )[r] by {
        let g = glyph_row(cells, w, r);
        rows_fit(w, h, r);
        assert forall|c: int| 0 <= c < g.len() implies #[trigger] g[c] == ' ' || !text::is_space(
            g[c],
        ) by {
            assert(g[c] == cells[r * w + c].glyph);
        }
        blanks_are_the_white_space(g);
    }
    assert(bare_rows(cells, w, h) =~= plain_rows(cells, w, h));
    assert(s + none =~= s);
    let plain = text::joined(plain_rows(cells, w, h), "\n"@);
    assert(plain + without_escapes(none) =~= plain);
}

/// The coloured grid sets a colour once for every cell that is not blank and has a
/// colour, and sets that cell's colour, row by row. This holds where no cell shows
/// the escape character.
pub proof fn law_each_coloured_cell_opens_its_colour(cells: Seq<Mark>, w: int, h: int)
    requires
        0 <= w,
        0 <= h,
        cells.len() == w * h,
        escape_free(cells),
    ensures
        openings(text::joined(colored_rows(cells, w, h), "\n"@)) == cell_colors(cells),
{
    let none = Seq::<char>::empty();
    let s = text::joined(colored_rows(cells, w, h), "\n"@);
    peel_rows(cells, w, h, h, none);
    assert(colored_rows(cells, w, h).take(h) =~= colored_rows(cells, w, h));
    assert(cells.take(w * h) =~= cells);
    assert(s + none =~= s);
    assert(cell_colors(cells) + openings(none) =~= cell_colors(cells));
}

} // verus!
