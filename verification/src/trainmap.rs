//! The braille train map: live trains as dots, and the Chicago skeleton under them
//! in the coloured variant.
//!
//! Dots only add up, so the order of drawing decides nothing but the colour of a
//! cell: the last dot that falls into it.

use crate::atlas;
use crate::atlas::{Area, Expressway, GeoData, Landmark, River};
use crate::braille;
use crate::braille::Canvas;
use crate::grid;
use crate::laws::drawing;
use crate::page;
use crate::project;
use crate::project::Geometry;
use crate::raster;
use crate::render;
use crate::text;
use crate::transit;
use crate::transit::{Positions, PositionsView, Train, TrainView};
use vstd::prelude::*;
use vstd::string::StringExecFns;

verus! {

// ANSI 256-colour codes of the skeleton. Trains keep their CTA line colour and win
// any shared cell, so the skeleton recedes behind live trains.

/// Cyan: the lake shore, and the river too. A blue of its own would read as Blue
/// Line trains.
pub const GEO_COAST_COLOR: u8 = 44;

pub const GEO_RIVER_COLOR: u8 = 44;

/// Dark grey: expressways.
pub const GEO_ROAD_COLOR: u8 = 240;

/// Bright white: place codes, so that they read over the plot.
pub const GEO_LABEL_COLOR: u8 = 231;

// ---------- dots ----------

/// A pixel to be set, and the colour that its cell takes.
pub struct Dot {
    pub x: int,
    pub y: int,
    pub color: u8,
}

/// The cell bytes of a `w` x `h` canvas once dots are set.
pub open spec fn dotted_all(cells: Seq<u8>, w: int, h: int, dots: Seq<Dot>) -> Seq<u8>
    decreases dots.len(),
{
    if dots.len() == 0 {
        cells
    } else {
        braille::dotted(
            dotted_all(cells, w, h, dots.drop_last()),
            w,
            h,
            dots.last().x,
            dots.last().y,
        )
    }
}

/// The cell colours of a canvas `w` cells wide once a dot is set: its cell takes
/// its colour.
pub open spec fn tinted(colors: Seq<u8>, w: int, d: Dot) -> Seq<u8> {
    let i = grid::slot(d.x / 2, d.y / 4, w);
    if d.x >= 0 && d.y >= 0 && i < colors.len() {
        colors.update(i, d.color)
    } else {
        colors
    }
}

/// The cell colours of a canvas `w` cells wide once dots are set in order.
pub open spec fn tinted_all(colors: Seq<u8>, w: int, dots: Seq<Dot>) -> Seq<u8>
    decreases dots.len(),
{
    if dots.len() == 0 {
        colors
    } else {
        tinted(tinted_all(colors, w, dots.drop_last()), w, dots.last())
    }
}

/// Setting two lists of dots one after the other is setting them as one.
proof fn dots_concat(cells: Seq<u8>, colors: Seq<u8>, w: int, h: int, a: Seq<Dot>, b: Seq<Dot>)
    ensures
        dotted_all(cells, w, h, a + b) == dotted_all(dotted_all(cells, w, h, a), w, h, b),
        tinted_all(colors, w, a + b) == tinted_all(tinted_all(colors, w, a), w, b),
    decreases b.len(),
{
    if b.len() == 0 {
        assert(a + b =~= a);
    } else {
        assert((a + b).drop_last() =~= a + b.drop_last());
        dots_concat(cells, colors, w, h, a, b.drop_last());
    }
}

/// Setting dots keeps the number of cells.
pub proof fn dots_len(cells: Seq<u8>, colors: Seq<u8>, w: int, h: int, dots: Seq<Dot>)
    requires
        cells.len() == w * h,
        w >= 0,
    ensures
        dotted_all(cells, w, h, dots).len() == cells.len(),
        tinted_all(colors, w, dots).len() == colors.len(),
    decreases dots.len(),
{
    if dots.len() > 0 {
        dots_len(cells, colors, w, h, dots.drop_last());
        let d = dots.last();
        if 0 <= d.x < 2 * w && 0 <= d.y < 4 * h {
            grid::slot_in_range(d.x / 2, d.y / 4, w, h);
        }
        if d.x >= 0 && d.y >= 0 {
            assert(0 <= (d.y / 4) * w) by (nonlinear_arith)
                requires
                    0 <= d.y / 4,
                    0 <= w,
            ;
        }
    }
}

/// A dot of one colour at each of a list of pixels.
pub open spec fn dots_along(pixels: Seq<(int, int)>, color: u8) -> Seq<Dot> {
    pixels.map_values(|p: (int, int)| dot_at(p, color))
}

/// A dot at a pixel.
pub open spec fn dot_at(p: (int, int), color: u8) -> Dot {
    Dot { x: p.0, y: p.1, color }
}

/// The dots of a drawn line between two anchors: every pixel of the segment between
/// their pixels, and none where an anchor lies outside the plotted area.
pub open spec fn segment_dots(p: [i64; 2], q: [i64; 2], geo: Geometry, color: u8) -> Seq<Dot> {
    match (project::projected(p@[0], p@[1], geo), project::projected(q@[0], q@[1], geo)) {
        (Some((x0, y0)), Some((x1, y1))) => dots_along(raster::segment(x0, y0, x1, y1), color),
        _ => Seq::empty(),
    }
}

/// The dots of a drawn line along its anchors.
pub open spec fn polyline_dots(pts: Seq<[i64; 2]>, geo: Geometry, color: u8) -> Seq<Dot>
    decreases pts.len(),
{
    if pts.len() < 2 {
        Seq::empty()
    } else {
        polyline_dots(pts.drop_last(), geo, color) + segment_dots(
            pts[pts.len() - 2],
            pts[pts.len() - 1],
            geo,
            color,
        )
    }
}

/// The dots of all expressways.
pub open spec fn road_dots(roads: Seq<Expressway>, geo: Geometry) -> Seq<Dot>
    decreases roads.len(),
{
    if roads.len() == 0 {
        Seq::empty()
    } else {
        road_dots(roads.drop_last(), geo) + polyline_dots(
            roads.last().points@,
            geo,
            GEO_ROAD_COLOR,
        )
    }
}

/// The dots of all rivers.
pub open spec fn river_dots(rivers: Seq<River>, geo: Geometry) -> Seq<Dot>
    decreases rivers.len(),
{
    if rivers.len() == 0 {
        Seq::empty()
    } else {
        river_dots(rivers.drop_last(), geo) + polyline_dots(
            rivers.last().points@,
            geo,
            GEO_RIVER_COLOR,
        )
    }
}

/// The skeleton: roads first, water on top of them, so that where they share a cell
/// the water's colour shows.
pub open spec fn skeleton_dots(data: GeoData, geo: Geometry) -> Seq<Dot> {
    road_dots(data.expressways@, geo) + polyline_dots(
        data.shoreline.points@,
        geo,
        GEO_COAST_COLOR,
    ) + river_dots(data.rivers@, geo)
}

/// One dot, in the line's colour, for each train in the plotted area.
pub open spec fn train_dots(trains: Seq<TrainView>, geo: Geometry) -> Seq<Dot>
    decreases trains.len(),
{
    if trains.len() == 0 {
        Seq::empty()
    } else {
        let t = trains.last();
        let before = train_dots(trains.drop_last(), geo);
        match project::projected(t.lat, t.lon, geo) {
            Some(p) => before.push(dot_at(p, render::ansi_of(t.line))),
            None => before,
        }
    }
}

// ---------- drawing ----------

/// Sets a pixel and tints its cell.
fn plot(canvas: &mut Canvas, colors: &mut Vec<u8>, px: usize, py: usize, color: u8)
    requires
        old(canvas).wf(),
        old(canvas).countable(),
        px < 2 * old(canvas).wc,
        py < 4 * old(canvas).hc,
    ensures
        final(canvas).wf(),
        final(canvas).wc == old(canvas).wc,
        final(canvas).hc == old(canvas).hc,
        final(canvas).cells@ == braille::dotted(
            old(canvas).cells@,
            old(canvas).wc as int,
            old(canvas).hc as int,
            px as int,
            py as int,
        ),
        final(colors)@ == tinted(
            old(colors)@,
            old(canvas).wc as int,
            dot_at((px as int, py as int), color),
        ),
{
    canvas.set(px, py);
    proof {
        grid::slot_in_range(
            (px / 2) as int,
            (py / 4) as int,
            canvas.wc as int,
            canvas.hc as int,
        );
        assert(canvas.cells.len() == canvas.wc * canvas.hc);
    }
    let cell: usize = (py / 4) * canvas.wc + (px / 2);
    if cell < colors.len() {
        colors.set(cell, color);
    }
}

/// Draws a line along its anchors: the segment between each two consecutive anchors
/// that both lie in the plotted area, every dot tinting its cell `color`. A segment
/// with an anchor outside is skipped, so that the line clips at the frame instead
/// of streaking.
fn draw_polyline(
    canvas: &mut Canvas,
    colors: &mut Vec<u8>,
    geo: &Geometry,
    pts: &Vec<[i64; 2]>,
    color: u8,
)
    requires
        geo.valid(),
        geo.plottable(),
        old(canvas).wf(),
        old(canvas).wc == geo.wc,
        old(canvas).hc == geo.hc,
    ensures
        final(canvas).wf(),
        final(canvas).wc == geo.wc,
        final(canvas).hc == geo.hc,
        final(canvas).cells@ == dotted_all(
            old(canvas).cells@,
            geo.wc as int,
            geo.hc as int,
            polyline_dots(pts@, *geo, color),
        ),
        final(colors)@ == tinted_all(
            old(colors)@,
            geo.wc as int,
            polyline_dots(pts@, *geo, color),
        ),
{
    let ghost w = geo.wc as int;
    let ghost h = geo.hc as int;
    let ghost cells0 = canvas.cells@;
    let ghost colors0 = colors@;
    if pts.len() < 2 {
        return ;
    }
    let mut k: usize = 1;
    assert(polyline_dots(pts@.take(1), *geo, color) =~= Seq::<Dot>::empty());
    while k < pts.len()
        invariant
            1 <= k <= pts@.len(),
            geo.valid(),
            geo.plottable(),
            w == geo.wc,
            h == geo.hc,
            canvas.wf(),
            canvas.wc == geo.wc,
            canvas.hc == geo.hc,
            canvas.cells@ == dotted_all(
                cells0,
                w,
                h,
                polyline_dots(pts@.take(k as int), *geo, color),
            ),
            colors@ == tinted_all(
                colors0,
                w,
                polyline_dots(pts@.take(k as int), *geo, color),
            ),
        decreases pts@.len() - k,
    {
        let ghost mid = canvas.cells@;
        let ghost midc = colors@;
        let ghost seg = segment_dots(pts@[k - 1], pts@[k as int], *geo, color);
        let a = project::project(pts[k - 1][0], pts[k - 1][1], geo);
        let b = project::project(pts[k][0], pts[k][1], geo);
        match (a, b) {
            (Some((x0, y0)), Some((x1, y1))) => {
                let line = raster::bresenham(x0 as i32, y0 as i32, x1 as i32, y1 as i32);
                let ghost pix = raster::segment(x0 as int, y0 as int, x1 as int, y1 as int);
                assert(raster::points(line@) == pix);
                assert(line@.len() == pix.len());
                let mut i: usize = 0;
                assert(seg.take(0) =~= Seq::<Dot>::empty());
                while i < line.len()
                    invariant
                        i <= line@.len(),
                        geo.valid(),
                        geo.plottable(),
                        w == geo.wc,
                        h == geo.hc,
                        x0 < geo.wp,
                        x1 < geo.wp,
                        y0 < geo.hp,
                        y1 < geo.hp,
                        pix == raster::segment(x0 as int, y0 as int, x1 as int, y1 as int),
                        raster::points(line@) == pix,
                        line@.len() == pix.len(),
                        seg == dots_along(pix, color),
                        canvas.wf(),
                        canvas.wc == geo.wc,
                        canvas.hc == geo.hc,
                        canvas.cells@ == dotted_all(mid, w, h, seg.take(i as int)),
                        colors@ == tinted_all(midc, w, seg.take(i as int)),
                    decreases line@.len() - i,
                {
                    let p: (i32, i32) = line[i];
                    proof {
                        assert(pix[i as int] == (p.0 as int, p.1 as int));
                        raster::law_segment_stays_between_its_endpoints(
                            x0 as int,
                            y0 as int,
                            x1 as int,
                            y1 as int,
                            i as int,
                        );
                        assert(seg.take(i + 1).drop_last() =~= seg.take(i as int));
                        assert(seg[i as int] == dot_at(pix[i as int], color));
                    }
                    plot(canvas, colors, p.0 as usize, p.1 as usize, color);
                    i = i + 1;
                }
                assert(seg.take(i as int) =~= seg);
            },
            _ => {},
        }
        proof {
            assert(canvas.cells@ == dotted_all(mid, w, h, seg));
            assert(colors@ == tinted_all(midc, w, seg));
            assert(pts@.take(k + 1).drop_last() =~= pts@.take(k as int));
            dots_concat(
                cells0,
                colors0,
                w,
                h,
                polyline_dots(pts@.take(k as int), *geo, color),
                seg,
            );
        }
        k = k + 1;
    }
    assert(pts@.take(k as int) =~= pts@);
}

/// Draws the expressways.
fn draw_roads(canvas: &mut Canvas, colors: &mut Vec<u8>, geo: &Geometry, roads: &Vec<Expressway>)
    requires
        geo.valid(),
        geo.plottable(),
        old(canvas).wf(),
        old(canvas).wc == geo.wc,
        old(canvas).hc == geo.hc,
    ensures
        final(canvas).wf(),
        final(canvas).wc == geo.wc,
        final(canvas).hc == geo.hc,
        final(canvas).cells@ == dotted_all(
            old(canvas).cells@,
            geo.wc as int,
            geo.hc as int,
            road_dots(roads@, *geo),
        ),
        final(colors)@ == tinted_all(old(colors)@, geo.wc as int, road_dots(roads@, *geo)),
{
    let ghost w = geo.wc as int;
    let ghost h = geo.hc as int;
    let ghost cells0 = canvas.cells@;
    let ghost colors0 = colors@;
    let mut k: usize = 0;
    assert(roads@.take(0) =~= Seq::<Expressway>::empty());
    while k < roads.len()
        invariant
            k <= roads@.len(),
            geo.valid(),
            geo.plottable(),
            w == geo.wc,
            h == geo.hc,
            canvas.wf(),
            canvas.wc == geo.wc,
            canvas.hc == geo.hc,
            canvas.cells@ == dotted_all(cells0, w, h, road_dots(roads@.take(k as int), *geo)),
            colors@ == tinted_all(colors0, w, road_dots(roads@.take(k as int), *geo)),
        decreases roads@.len() - k,
    {
        draw_polyline(canvas, colors, geo, &roads[k].points, GEO_ROAD_COLOR);
        proof {
            assert(roads@.take(k + 1).drop_last() =~= roads@.take(k as int));
            dots_concat(
                cells0,
                colors0,
                w,
                h,
                road_dots(roads@.take(k as int), *geo),
                polyline_dots(roads@[k as int].points@, *geo, GEO_ROAD_COLOR),
            );
        }
        k = k + 1;
    }
    assert(roads@.take(k as int) =~= roads@);
}

/// Draws the rivers.
fn draw_rivers(canvas: &mut Canvas, colors: &mut Vec<u8>, geo: &Geometry, rivers: &Vec<River>)
    requires
        geo.valid(),
        geo.plottable(),
        old(canvas).wf(),
        old(canvas).wc == geo.wc,
        old(canvas).hc == geo.hc,
    ensures
        final(canvas).wf(),
        final(canvas).wc == geo.wc,
        final(canvas).hc == geo.hc,
        final(canvas).cells@ == dotted_all(
            old(canvas).cells@,
            geo.wc as int,
            geo.hc as int,
            river_dots(rivers@, *geo),
        ),
        final(colors)@ == tinted_all(old(colors)@, geo.wc as int, river_dots(rivers@, *geo)),
{
    let ghost w = geo.wc as int;
    let ghost h = geo.hc as int;
    let ghost cells0 = canvas.cells@;
    let ghost colors0 = colors@;
    let mut k: usize = 0;
    assert(rivers@.take(0) =~= Seq::<River>::empty());
    while k < rivers.len()
        invariant
            k <= rivers@.len(),
            geo.valid(),
            geo.plottable(),
            w == geo.wc,
            h == geo.hc,
            canvas.wf(),
            canvas.wc == geo.wc,
            canvas.hc == geo.hc,
            canvas.cells@ == dotted_all(cells0, w, h, river_dots(rivers@.take(k as int), *geo)),
            colors@ == tinted_all(colors0, w, river_dots(rivers@.take(k as int), *geo)),
        decreases rivers@.len() - k,
    {
        draw_polyline(canvas, colors, geo, &rivers[k].points, GEO_RIVER_COLOR);
        proof {
            assert(rivers@.take(k + 1).drop_last() =~= rivers@.take(k as int));
            dots_concat(
                cells0,
                colors0,
                w,
                h,
                river_dots(rivers@.take(k as int), *geo),
                polyline_dots(rivers@[k as int].points@, *geo, GEO_RIVER_COLOR),
            );
        }
        k = k + 1;
    }
    assert(rivers@.take(k as int) =~= rivers@);
}

/// Draws one dot for each train in the plotted area, and counts them.
fn draw_trains(canvas: &mut Canvas, colors: &mut Vec<u8>, geo: &Geometry, trains: &Vec<Train>) -> (n:
    usize)
    requires
        geo.valid(),
        old(canvas).wf(),
        old(canvas).wc == geo.wc,
        old(canvas).hc == geo.hc,
    ensures
        final(canvas).wf(),
        final(canvas).wc == geo.wc,
        final(canvas).hc == geo.hc,
        final(canvas).cells@ == dotted_all(
            old(canvas).cells@,
            geo.wc as int,
            geo.hc as int,
            train_dots(transit::train_views(trains@), *geo),
        ),
        final(colors)@ == tinted_all(
            old(colors)@,
            geo.wc as int,
            train_dots(transit::train_views(trains@), *geo),
        ),
        n == page::plotted_count(transit::train_views(trains@)),
{
    let ghost all = transit::train_views(trains@);
    let ghost w = geo.wc as int;
    let ghost h = geo.hc as int;
    let ghost cells0 = canvas.cells@;
    let ghost colors0 = colors@;
    let mut n: usize = 0;
    let mut k: usize = 0;
    assert(all.take(0) =~= Seq::<TrainView>::empty());
    while k < trains.len()
        invariant
            k <= trains@.len(),
            n <= k,
            all == transit::train_views(trains@),
            geo.valid(),
            w == geo.wc,
            h == geo.hc,
            canvas.wf(),
            canvas.wc == geo.wc,
            canvas.hc == geo.hc,
            canvas.cells@ == dotted_all(cells0, w, h, train_dots(all.take(k as int), *geo)),
            colors@ == tinted_all(colors0, w, train_dots(all.take(k as int), *geo)),
            n == page::plotted_count(all.take(k as int)),
        decreases trains@.len() - k,
    {
        let t = &trains[k];
        proof {
            assert(all.take(k + 1).drop_last() =~= all.take(k as int));
            assert(all.take(k + 1).last() == t@);
        }
        match project::project(t.lat, t.lon, geo) {
            Some((px, py)) => {
                plot(canvas, colors, px, py, render::line_ansi256(t.line.as_str()));
                n = n + 1;
                proof {
                    let s = train_dots(all.take(k + 1), *geo);
                    assert(s.drop_last() =~= train_dots(all.take(k as int), *geo));
                }
            },
            None => {},
        }
        k = k + 1;
    }
    assert(all.take(k as int) =~= all);
    n
}

// ---------- the label layer ----------

/// A character of a label, in its colour.
pub open spec fn lettered(s: Seq<char>, i: int, color: u8) -> Option<(char, u8)> {
    Some((s[i], color))
}

/// Whether a label can stand at `(col, row)`: its row is on the grid, and no label
/// stands in the cells that it takes. What of it lies outside the frame does not
/// block it.
pub open spec fn can_stand(
    labels: Seq<Option<(char, u8)>>,
    geo: Geometry,
    col: int,
    row: int,
    s: Seq<char>,
) -> bool {
    &&& 0 <= row < geo.hc
    &&& forall|c: int|
        0 <= c < geo.wc && col <= c < col + s.len() ==> labels[#[trigger] grid::slot(
            c,
            row,
            geo.wc as int,
        )] is None
}

/// The label layer once a label is written at `(col, row)`, clipped at the frame.
pub open spec fn written(
    labels: Seq<Option<(char, u8)>>,
    geo: Geometry,
    col: int,
    row: int,
    s: Seq<char>,
    color: u8,
) -> Seq<Option<(char, u8)>> {
    Seq::new(
        labels.len(),
        |i: int|
            {
                let c = i - row * geo.wc;
                if 0 <= c < geo.wc && col <= c < col + s.len() {
                    lettered(s, c - col, color)
                } else {
                    labels[i]
                }
            },
    )
}

/// The label layer once a label is placed: whole where it can stand, else not at
/// all.
pub open spec fn labelled(
    labels: Seq<Option<(char, u8)>>,
    geo: Geometry,
    col: int,
    row: int,
    s: Seq<char>,
    color: u8,
) -> Seq<Option<(char, u8)>> {
    if can_stand(labels, geo, col, row, s) {
        written(labels, geo, col, row, s, color)
    } else {
        labels
    }
}

/// Write `s` left-to-right into the label layer starting at cell `(col, row)`,
/// clipping anything past the frame, but only if it does not overlap a label
/// already placed: so codes thin gracefully in dense areas (the loser drops whole)
/// instead of garbling. Returns whether the label landed.
pub fn place_label(
    labels: &mut Vec<Option<(char, u8)>>,
    geo: &Geometry,
    col: i32,
    row: i32,
    s: &str,
    color: u8,
) -> (landed: bool)
    requires
        old(labels).len() == geo.wc * geo.hc,
    ensures
        final(labels)@.len() == old(labels)@.len(),
        landed == can_stand(old(labels)@, *geo, col as int, row as int, s@),
        final(labels)@ == labelled(old(labels)@, *geo, col as int, row as int, s@, color),
{
    let v = text::chars_of(s);
    let ghost before = labels@;
    let ghost w = geo.wc as int;
    if row < 0 {
        return false;
    }
    let r: u32 = row as u32;
    let r: usize = r as usize;
    if r >= geo.hc {
        return false;
    }
    let n: usize = v.len();
    let mut i: usize = 0;
    while i < n
        invariant
            i <= n,
            n == v@.len(),
            v@ == s@,
            r == row,
            r < geo.hc,
            w == geo.wc,
            before == labels@,
            labels.len() == geo.wc * geo.hc,
            forall|c: int|
                0 <= c < geo.wc && col <= c < col + i ==> before[#[trigger] grid::slot(
                    c,
                    row as int,
                    w,
                )] is None,
        decreases n - i,
    {
        let c: i128 = col as i128 + i as i128;
        if 0 <= c && c < geo.wc as i128 {
            let slot: usize = grid::slot_of(c as usize, r, geo.wc, geo.hc);
            if labels[slot].is_some() {
                assert(before[grid::slot(c as int, row as int, w)] is Some);
                return false;
            }
        }
        i = i + 1;
    }
    i = 0;
    assert(written(before, *geo, col as int, row as int, s@.take(0), color) =~= before);
    while i < n
        invariant
            i <= n,
            n == v@.len(),
            v@ == s@,
            r == row,
            r < geo.hc,
            w == geo.wc,
            before.len() == geo.wc * geo.hc,
            labels.len() == geo.wc * geo.hc,
            labels@ == written(
                before,
                *geo,
                col as int,
                row as int,
                s@.take(i as int),
                color,
            ),
        decreases n - i,
    {
        let c: i128 = col as i128 + i as i128;
        let ghost mid = labels@;
        let ghost goal = written(before, *geo, col as int, row as int, s@.take(i + 1), color);
        if 0 <= c && c < geo.wc as i128 {
            let slot: usize = grid::slot_of(c as usize, r, geo.wc, geo.hc);
            labels.set(slot, Some((v[i], color)));
            proof {
                assert(lettered(s@.take(i + 1), i as int, color) == Some((v@[i as int], color)));
                assert forall|k: int| 0 <= k < goal.len() implies labels@[k] == #[trigger] goal[k] by {
                    let d = k - row * geo.wc;
                    if 0 <= d < geo.wc && col <= d < col + i {
                        assert(s@.take(i + 1)[d - col] == s@.take(i as int)[d - col]);
                    }
                    if k != slot {
                        assert(labels@[k] == mid[k]);
                    }
                }
                assert(labels@ =~= goal);
            }
        } else {
            proof {
                assert forall|k: int| 0 <= k < goal.len() implies labels@[k] == #[trigger] goal[k] by {
                    let d = k - row * geo.wc;
                    if 0 <= d < geo.wc && col <= d < col + i {
                        assert(s@.take(i + 1)[d - col] == s@.take(i as int)[d - col]);
                    }
                }
                assert(labels@ =~= goal);
            }
        }
        i = i + 1;
    }
    assert(s@.take(i as int) =~= s@);
    true
}

/// The label layer once the first `n` letters of the lake's name are placed, one
/// below the other in the last column but one. The blank between the words takes
/// its cell too, so that no place code slots in there.
pub open spec fn lake_layer(
    labels: Seq<Option<(char, u8)>>,
    geo: Geometry,
    n: nat,
) -> Seq<Option<(char, u8)>>
    decreases n,
{
    if n == 0 {
        labels
    } else {
        let i = n - 1;
        labelled(
            lake_layer(labels, geo, i as nat),
            geo,
            geo.wc - 2,
            atlas::lake_start(geo.hc as int) + i,
            seq![atlas::lake_letter(i)],
            GEO_COAST_COLOR,
        )
    }
}

/// Write the lake's name vertically down the far-east (open-water) column,
/// vertically centred: the same placement as the atlas's.
pub fn place_lake_label(labels: &mut Vec<Option<(char, u8)>>, geo: &Geometry)
    requires
        geo.plottable(),
        old(labels).len() == geo.wc * geo.hc,
    ensures
        final(labels)@.len() == old(labels)@.len(),
        final(labels)@ == lake_layer(old(labels)@, *geo, atlas::lake_label().len()),
{
    let name = text::chars_of("LAKE MICHIGAN");
    proof {
        reveal_strlit("LAKE MICHIGAN");
    }
    let ghost before = labels@;
    let col: i32 = geo.wc as i32 - 2;
    let start: i32 = atlas::lake_top(geo.hc);
    let mut i: usize = 0;
    while i < name.len()
        invariant
            i <= name@.len(),
            name@ == atlas::lake_label(),
            name@.len() == 13,
            geo.plottable(),
            col == geo.wc - 2,
            start == atlas::lake_start(geo.hc as int),
            -7 <= start <= i32::MAX - 13,
            labels.len() == geo.wc * geo.hc,
            labels@.len() == before.len(),
            labels@ == lake_layer(before, *geo, i as nat),
        decreases name@.len() - i,
    {
        let letter = text::text_of(&name, i, i + 1);
        assert(letter@ =~= seq![atlas::lake_letter(i as int)]);
        place_label(labels, geo, col, start + i as i32, letter.as_str(), GEO_COAST_COLOR);
        i = i + 1;
    }
}

/// A named place of the overlay, with its mnemonic code.
pub struct Place {
    pub code: Seq<char>,
    pub name: Seq<char>,
    pub lat: i64,
    pub lon: i64,
}

/// The place that an area is.
pub open spec fn area_place(a: Area) -> Place {
    Place { code: a.code@, name: a.name@, lat: a.lat, lon: a.lon }
}

/// The place that a landmark is.
pub open spec fn landmark_place(m: Landmark) -> Place {
    Place { code: m.code@, name: m.name@, lat: m.lat, lon: m.lon }
}

/// The places of an overlay, in the order in which they are placed: areas first,
/// then landmarks.
pub open spec fn places_of(data: GeoData) -> Seq<Place> {
    data.areas@.map_values(|a: Area| area_place(a)) + data.landmarks@.map_values(
        |m: Landmark| landmark_place(m),
    )
}

/// The label layer once the codes of places are placed one after the other.
pub open spec fn layer_after(
    labels: Seq<Option<(char, u8)>>,
    geo: Geometry,
    places: Seq<Place>,
) -> Seq<Option<(char, u8)>>
    decreases places.len(),
{
    if places.len() == 0 {
        labels
    } else {
        let p = places.last();
        let before = layer_after(labels, geo, places.drop_last());
        match atlas::cell_of(p.lat, p.lon, geo) {
            Some((c, r)) => labelled(before, geo, c, r, p.code, GEO_LABEL_COLOR),
            None => before,
        }
    }
}

/// Code and name of each place whose code landed, in the order of placement.
pub open spec fn legend_after(
    labels: Seq<Option<(char, u8)>>,
    geo: Geometry,
    places: Seq<Place>,
) -> Seq<(Seq<char>, Seq<char>)>
    decreases places.len(),
{
    if places.len() == 0 {
        Seq::empty()
    } else {
        let p = places.last();
        let before = legend_after(labels, geo, places.drop_last());
        if lands(layer_after(labels, geo, places.drop_last()), geo, p) {
            before.push((p.code, p.name))
        } else {
            before
        }
    }
}

/// Whether the code of a place can be placed on a label layer.
pub open spec fn lands(labels: Seq<Option<(char, u8)>>, geo: Geometry, p: Place) -> bool {
    atlas::cell_of(p.lat, p.lon, geo) matches Some((c, r)) && can_stand(labels, geo, c, r, p.code)
}

/// What each line of a legend holds.
pub open spec fn legend_views(v: Seq<(String, String)>) -> Seq<(Seq<char>, Seq<char>)> {
    v.map_values(|e: (String, String)| (e.0@, e.1@))
}

/// Places the code of one place, and lists it in the legend where it lands.
fn place_code(
    labels: &mut Vec<Option<(char, u8)>>,
    legend: &mut Vec<(String, String)>,
    geo: &Geometry,
    code: &str,
    name: &str,
    lat: i64,
    lon: i64,
)
    requires
        geo.plottable(),
        old(labels).len() == geo.wc * geo.hc,
    ensures
        final(labels)@.len() == old(labels)@.len(),
        ({
            let p = Place { code: code@, name: name@, lat, lon };
            &&& final(labels)@ == (match atlas::cell_of(lat, lon, *geo) {
                Some((c, r)) => labelled(old(labels)@, *geo, c, r, code@, GEO_LABEL_COLOR),
                None => old(labels)@,
            })
            &&& legend_views(final(legend)@) == if lands(old(labels)@, *geo, p) {
                legend_views(old(legend)@).push((code@, name@))
            } else {
                legend_views(old(legend)@)
            }
        }),
{
    match atlas::project_cell(lat, lon, geo) {
        Some((c, r)) => {
            if place_label(labels, geo, c, r, code, GEO_LABEL_COLOR) {
                legend.push((code.to_owned(), name.to_owned()));
                assert(legend_views(legend@) =~= legend_views(old(legend)@).push((code@, name@)));
            }
        },
        None => {},
    }
}

// ---------- the skeleton ----------

/// Pre-drawn Chicago skeleton for the coloured map: shoreline, rivers and
/// expressways drawn once into a braille canvas, with a matching colour per cell.
/// [`map_page_ansi`] clones this and paints live trains on top. The projection that
/// places the trains places every anchor too.
pub struct MapBase {
    pub canvas: Canvas,
    pub colors: Vec<u8>,
    /// Sparse text layer (one slot per cell): place codes that show over the plot.
    pub labels: Vec<Option<(char, u8)>>,
    /// `(code, name)` for every place code that landed, in placement order.
    pub legend: Vec<(String, String)>,
}

/// A label layer without a label.
pub open spec fn no_labels(n: nat) -> Seq<Option<(char, u8)>> {
    Seq::new(n, |i: int| None)
}

/// Bytes that are all zero.
pub open spec fn zeros(n: nat) -> Seq<u8> {
    Seq::new(n, |i: int| 0u8)
}

impl MapBase {
    /// The canvas and its layers have the size of the geometry.
    pub open spec fn fits(self, geo: Geometry) -> bool {
        &&& self.canvas.wf()
        &&& self.canvas.wc == geo.wc
        &&& self.canvas.hc == geo.hc
        &&& self.colors@.len() == self.canvas.cells@.len()
        &&& self.labels@.len() == self.canvas.cells@.len()
    }

    /// Draw the static skeleton of the overlay. Call once at startup;
    /// clone-and-paint per page via [`map_page_ansi`].
    pub fn build(data: &GeoData, geo: &Geometry) -> (r: MapBase)
        requires
            geo.valid(),
            geo.plottable(),
        ensures
            r.fits(*geo),
            r.canvas.cells@ == dotted_all(
                zeros((geo.wc * geo.hc) as nat),
                geo.wc as int,
                geo.hc as int,
                skeleton_dots(*data, *geo),
            ),
            r.colors@ == tinted_all(
                zeros((geo.wc * geo.hc) as nat),
                geo.wc as int,
                skeleton_dots(*data, *geo),
            ),
            r.labels@ == layer_after(
                lake_layer(
                    no_labels((geo.wc * geo.hc) as nat),
                    *geo,
                    atlas::lake_label().len(),
                ),
                *geo,
                places_of(*data),
            ),
            legend_views(r.legend@) == legend_after(
                lake_layer(
                    no_labels((geo.wc * geo.hc) as nat),
                    *geo,
                    atlas::lake_label().len(),
                ),
                *geo,
                places_of(*data),
            ),
            forall|x: int, y: int|
                0 <= x < geo.wp && 0 <= y < geo.hp ==> (#[trigger] braille::lit_in(
                    r.canvas.cells@,
                    geo.wc as int,
                    x,
                    y,
                ) <==> drawing::on_water(*data, *geo, x, y) || drawing::on_road(
                    data.expressways@,
                    *geo,
                    x,
                    y,
                )),
    {
        let n: usize = geo.wc * geo.hc;
        let ghost w = geo.wc as int;
        let ghost h = geo.hc as int;
        let mut canvas = Canvas::new(geo.wc, geo.hc);
        let mut colors: Vec<u8> = vec![0u8; n];
        assert(colors@ =~= zeros(n as nat));
        assert(canvas.cells@ =~= zeros(n as nat));
        let ghost blank = zeros(n as nat);
        draw_roads(&mut canvas, &mut colors, geo, &data.expressways);
        draw_polyline(&mut canvas, &mut colors, geo, &data.shoreline.points, GEO_COAST_COLOR);
        draw_rivers(&mut canvas, &mut colors, geo, &data.rivers);
        proof {
            let a = road_dots(data.expressways@, *geo);
            let b = polyline_dots(data.shoreline.points@, *geo, GEO_COAST_COLOR);
            let c = river_dots(data.rivers@, *geo);
            dots_concat(blank, blank, w, h, a, b);
            dots_concat(blank, blank, w, h, a + b, c);
            dots_len(blank, blank, w, h, a + b + c);
        }
        // Text layer: the lake's name first, so that it owns its column, then the
        // place codes, areas before landmarks.
        let none: Option<(char, u8)> = None;
        let mut labels: Vec<Option<(char, u8)>> = Vec::new();
        let mut i: usize = 0;
        assert(labels@ =~= no_labels(0));
        while i < n
            invariant
                i <= n,
                none is None,
                labels@ == no_labels(i as nat),
            decreases n - i,
        {
            labels.push(none);
            i = i + 1;
            assert(labels@ =~= no_labels(i as nat));
        }
        place_lake_label(&mut labels, geo);
        let ghost start = labels@;
        let mut legend: Vec<(String, String)> = Vec::new();
        let ghost places = places_of(*data);
        let ghost areas = data.areas@.map_values(|a: Area| area_place(a));
        let mut k: usize = 0;
        assert(places.take(0) =~= Seq::<Place>::empty());
        assert(legend_views(legend@) =~= Seq::<(Seq<char>, Seq<char>)>::empty());
        while k < data.areas.len()
            invariant
                k <= data.areas@.len(),
                geo.plottable(),
                n == geo.wc * geo.hc,
                labels@.len() == n,
                places == places_of(*data),
                labels@ == layer_after(start, *geo, places.take(k as int)),
                legend_views(legend@) == legend_after(start, *geo, places.take(k as int)),
            decreases data.areas@.len() - k,
        {
            let a = &data.areas[k];
            proof {
                assert(places.take(k + 1).drop_last() =~= places.take(k as int));
                assert(places.take(k + 1).last() == area_place(*a));
            }
            place_code(
                &mut labels,
                &mut legend,
                geo,
                a.code.as_str(),
                a.name.as_str(),
                a.lat,
                a.lon,
            );
            k = k + 1;
        }
        let m: usize = k;
        k = 0;
        while k < data.landmarks.len()
            invariant
                k <= data.landmarks@.len(),
                m == data.areas@.len(),
                geo.plottable(),
                n == geo.wc * geo.hc,
                labels@.len() == n,
                places == places_of(*data),
                labels@ == layer_after(start, *geo, places.take(m + k)),
                legend_views(legend@) == legend_after(start, *geo, places.take(m + k)),
            decreases data.landmarks@.len() - k,
        {
            let l = &data.landmarks[k];
            proof {
                assert(places.take(m + k + 1).drop_last() =~= places.take(m + k));
                assert(places.take(m + k + 1).last() == landmark_place(*l));
            }
            place_code(
                &mut labels,
                &mut legend,
                geo,
                l.code.as_str(),
                l.name.as_str(),
                l.lat,
                l.lon,
            );
            k = k + 1;
        }
        assert(places.take(m + k) =~= places);
        proof {
            assert forall|x: int, y: int| 0 <= x < geo.wp && 0 <= y < geo.hp implies (
            #[trigger] braille::lit_in(canvas.cells@, w, x, y) <==> drawing::on_water(
                *data,
                *geo,
                x,
                y,
            ) || drawing::on_road(data.expressways@, *geo, x, y)) by {
                drawing::law_skeleton_runs_from_anchor_to_anchor(*data, *geo, x, y);
            }
        }
        MapBase { canvas, colors, labels, legend }
    }
}

// ---------- the pages ----------

/// The bytes of the train map's cells: the trains' dots over what is there.
pub open spec fn train_cells(cells: Seq<u8>, geo: Geometry, trains: Seq<TrainView>) -> Seq<u8> {
    dotted_all(cells, geo.wc as int, geo.hc as int, train_dots(trains, geo))
}

/// The rows of a canvas of the given bytes.
pub open spec fn plot_rows(cells: Seq<u8>, geo: Geometry) -> Seq<Seq<char>> {
    Seq::new(
        geo.hc as nat,
        |y: int|
            Seq::new(
                geo.wc as nat,
                |x: int| braille::glyph(cells[grid::slot(x, y, geo.wc as int)]),
            ),
    )
}

/// The rows of a canvas of the given bytes, colours and labels.
pub open spec fn colored_plot_rows(
    cells: Seq<u8>,
    colors: Seq<u8>,
    labels: Seq<Option<(char, u8)>>,
    geo: Geometry,
) -> Seq<Seq<char>> {
    Seq::new(
        geo.hc as nat,
        |y: int|
            text::concat(
                Seq::new(
                    geo.wc as nat,
                    |x: int|
                        braille::colored_cell(
                            cells,
                            colors,
                            labels,
                            grid::slot(x, y, geo.wc as int),
                        ),
                ),
            ),
    )
}

/// A map page around a plot: head, plot, footer and counts. `overlay` is what is
/// said of the skeleton.
pub open spec fn framed(
    body: Seq<char>,
    overlay: Seq<char>,
    pos: PositionsView,
    geo: Geometry,
    source_name: Seq<char>,
) -> Seq<char> {
    "CTA 'L' -- live train map\n"@ + page::feed_lines(pos, source_name) + page::dashes(
        geo.wc as nat,
    ) + "\n"@ + body + "\n"@ + page::dashes(geo.wc as nat) + "\n"@ + text::dec(
        page::plotted_count(pos.trains),
    ) + " trains plotted of "@ + text::dec(pos.trains.len())
        + " reporting.  bbox lat[41.65..42.07] lon[-87.9..-87.45]\n"@ + overlay
        + page::line_counts(pos.trains)
}

/// The plain map page: the trains' dots and nothing else.
#[verifier::opaque]
pub open spec fn map_text(pos: PositionsView, geo: Geometry, source_name: Seq<char>) -> Seq<char> {
    let cells = train_cells(zeros((geo.wc * geo.hc) as nat), geo, pos.trains);
    framed(text::joined(plot_rows(cells, geo), "\n"@), ""@, pos, geo, source_name)
}

/// A line of the decode legend.
pub open spec fn code_line(e: (Seq<char>, Seq<char>)) -> Seq<char> {
    "  "@ + text::padded(e.0, 4) + " "@ + e.1 + "\n"@
}

/// What the coloured map's footer says of the skeleton, with the decode legend of
/// the place codes on the grid.
pub open spec fn overlay_text(legend: Seq<(Seq<char>, Seq<char>)>) -> Seq<char> {
    let note =
        "overlay: water -- lake + river (cyan)  expressways (grey)  place codes (white)\n"@;
    if legend.len() > 0 {
        note + "\nplaces (code -> name):\n"@ + text::concat(
            legend.map_values(|e: (Seq<char>, Seq<char>)| code_line(e)),
        )
    } else {
        note
    }
}

/// The coloured map page: the trains' dots over the skeleton, each train's cell in
/// its line's colour.
#[verifier::opaque]
pub open spec fn map_ansi_text(
    base: MapBase,
    pos: PositionsView,
    geo: Geometry,
    source_name: Seq<char>,
) -> Seq<char> {
    let dots = train_dots(pos.trains, geo);
    let cells = train_cells(base.canvas.cells@, geo, pos.trains);
    let colors = tinted_all(base.colors@, geo.wc as int, dots);
    framed(
        text::joined(colored_plot_rows(cells, colors, base.labels@, geo), "\n"@),
        overlay_text(legend_views(base.legend@)),
        pos,
        geo,
        source_name,
    )
}

/// Assembles a map page around its plot.
fn frame_page(
    body: &str,
    overlay: &str,
    plotted: usize,
    pos: &Positions,
    geo: &Geometry,
    source_name: &str,
) -> (r: String)
    requires
        plotted == page::plotted_count(pos@.trains),
    ensures
        r@ == framed(body@, overlay@, pos@, *geo, source_name@),
{
    let rule = page::dashed_rule(geo.wc);
    let mut out = "CTA 'L' -- live train map\n".to_owned();
    page::push_feed_lines(&mut out, pos, source_name);
    out.append(rule.as_str());
    out.append("\n");
    out.append(body);
    out.append("\n");
    out.append(rule.as_str());
    out.append("\n");
    text::push_dec(&mut out, plotted as u128);
    out.append(" trains plotted of ");
    text::push_dec(&mut out, pos.trains.len() as u128);
    out.append(" reporting.  bbox lat[41.65..42.07] lon[-87.9..-87.45]\n");
    out.append(overlay);
    page::push_line_counts(&mut out, pos);
    out
}

/// The headline view: a braille geographic plot of every live train (plain text).
/// Trains outside the plotted area are left out; [`page::dropped_runs`] names them.
pub fn map_page(pos: &Positions, geo: &Geometry, source_name: &str) -> (r: String)
    requires
        geo.valid(),
    ensures
        r@ == map_text(pos@, *geo, source_name@),
{
    let mut canvas = Canvas::new(geo.wc, geo.hc);
    let n: usize = geo.wc * geo.hc;
    let mut colors: Vec<u8> = vec![0u8; n];
    assert(canvas.cells@ =~= zeros((geo.wc * geo.hc) as nat));
    let plotted: usize = draw_trains(&mut canvas, &mut colors, geo, &pos.trains);
    let body = canvas.render();
    assert(canvas.rows() =~= plot_rows(canvas.cells@, *geo));
    reveal(map_text);
    frame_page(body.as_str(), "", plotted, pos, geo, source_name)
}

/// As [`map_page`], but ANSI-coloured and laid over the Chicago skeleton of `base`:
/// each train cell takes its CTA line colour and wins over the skeleton's tint.
pub fn map_page_ansi(base: &MapBase, pos: &Positions, geo: &Geometry, source_name: &str) -> (r:
    String)
    requires
        geo.valid(),
        base.fits(*geo),
    ensures
        r@ == map_ansi_text(*base, pos@, *geo, source_name@),
{
    let mut canvas = base.canvas.clone();
    let mut colors = base.colors.clone();
    assert(colors@ =~= base.colors@);
    let plotted: usize = draw_trains(&mut canvas, &mut colors, geo, &pos.trains);
    proof {
        dots_len(
            base.canvas.cells@,
            base.colors@,
            geo.wc as int,
            geo.hc as int,
            train_dots(pos@.trains, *geo),
        );
    }
    let body = canvas.render_colored(&colors, &base.labels);
    assert(canvas.colored_rows(colors@, base.labels@) =~= colored_plot_rows(
        canvas.cells@,
        colors@,
        base.labels@,
        *geo,
    ));
    let mut overlay =
        "overlay: water -- lake + river (cyan)  expressways (grey)  place codes (white)\n".to_owned();
    let ghost legend = legend_views(base.legend@);
    let ghost lines = legend.map_values(|e: (Seq<char>, Seq<char>)| code_line(e));
    if base.legend.len() > 0 {
        overlay.append("\nplaces (code -> name):\n");
        let ghost head = overlay@;
        let mut k: usize = 0;
        assert(head + text::concat(lines.take(0)) =~= head);
        while k < base.legend.len()
            invariant
                k <= base.legend@.len(),
                legend == legend_views(base.legend@),
                lines == legend.map_values(|e: (Seq<char>, Seq<char>)| code_line(e)),
                overlay@ == head + text::concat(lines.take(k as int)),
            decreases base.legend@.len() - k,
        {
            let ghost before = overlay@;
            let e = &base.legend[k];
            overlay.append("  ");
            let code = text::pad(e.0.as_str(), 4);
            overlay.append(code.as_str());
            overlay.append(" ");
            overlay.append(e.1.as_str());
            overlay.append("\n");
            proof {
                assert(legend[k as int] == (e.0@, e.1@));
                assert(lines[k as int] == code_line((e.0@, e.1@)));
                assert(lines.take(k + 1).drop_last() =~= lines.take(k as int));
                assert(overlay@ =~= before + lines[k as int]);
                assert(before + lines[k as int] =~= head + (text::concat(lines.take(k as int))
                    + lines[k as int]));
            }
            k = k + 1;
        }
        assert(lines.take(k as int) =~= lines);
    }
    reveal(map_ansi_text);
    frame_page(body.as_str(), overlay.as_str(), plotted, pos, geo, source_name)
}

// ---------- laws of the map ----------

/// Whether some train of a list falls on the pixel `(x, y)`.
pub open spec fn train_at(trains: Seq<TrainView>, geo: Geometry, x: int, y: int) -> bool {
    exists|k: int|
        0 <= k < trains.len() && project::projected(
            (#[trigger] trains[k]).lat,
            trains[k].lon,
            geo,
        ) == Some((x, y))
}

/// The map shows the trains and nothing else: over what was there, exactly the
/// pixels on which a train falls are lit.
pub proof fn law_exactly_the_trains_are_lit(
    cells: Seq<u8>,
    geo: Geometry,
    trains: Seq<TrainView>,
    x: int,
    y: int,
)
    requires
        geo.valid(),
        cells.len() == geo.wc * geo.hc,
        0 <= x < geo.wp,
        0 <= y < geo.hp,
    ensures
        braille::lit_in(train_cells(cells, geo, trains), geo.wc as int, x, y) <==> (braille::lit_in(
            cells,
            geo.wc as int,
            x,
            y,
        ) || train_at(trains, geo, x, y)),
    decreases trains.len(),
{
    let w = geo.wc as int;
    let h = geo.hc as int;
    if trains.len() > 0 {
        let rest = trains.drop_last();
        let t = trains.last();
        law_exactly_the_trains_are_lit(cells, geo, rest, x, y);
        let before = train_dots(rest, geo);
        let all = train_dots(trains, geo);
        dots_len(cells, cells, w, h, before);
        match project::projected(t.lat, t.lon, geo) {
            Some(p) => {
                assert(all.drop_last() =~= before);
                braille::law_a_dot_lights_its_pixel(
                    dotted_all(cells, w, h, before),
                    w,
                    h,
                    p.0,
                    p.1,
                    x,
                    y,
                );
            },
            None => {},
        }
        if train_at(rest, geo, x, y) {
            let k = choose|k: int|
                0 <= k < rest.len() && project::projected(
                    (#[trigger] rest[k]).lat,
                    rest[k].lon,
                    geo,
                ) == Some((x, y));
            assert(trains[k] == rest[k]);
        }
        if project::projected(t.lat, t.lon, geo) == Some((x, y)) {
            assert(trains[trains.len() - 1] == t);
        }
        if train_at(trains, geo, x, y) {
            let k = choose|k: int|
                0 <= k < trains.len() && project::projected(
                    (#[trigger] trains[k]).lat,
                    trains[k].lon,
                    geo,
                ) == Some((x, y));
            if k < rest.len() {
                assert(rest[k] == trains[k]);
            } else {
                assert(trains[k] == t);
            }
        }
    }
}

/// A blank canvas has no lit pixel.
pub proof fn law_a_blank_map_is_dark(geo: Geometry, x: int, y: int)
    requires
        geo.valid(),
        0 <= x < geo.wp,
        0 <= y < geo.hp,
    ensures
        !braille::lit_in(zeros((geo.wc * geo.hc) as nat), geo.wc as int, x, y),
{
    grid::slot_in_range(x / 2, y / 4, geo.wc as int, geo.hc as int);
    let c = braille::bit_of(x % 2, y % 4);
    assert(0u8 & c == 0) by (bit_vector);
}

/// The last train to fall into a cell gives it its line's colour, whatever the
/// skeleton or another train had tinted it.
pub proof fn law_last_train_tints_its_cell(
    cells: Seq<u8>,
    colors: Seq<u8>,
    geo: Geometry,
    trains: Seq<TrainView>,
    t: TrainView,
)
    requires
        geo.valid(),
        cells.len() == geo.wc * geo.hc,
        colors.len() == cells.len(),
        project::in_bbox(t.lat, t.lon),
    ensures
        ({
            let (x, y) = project::projected(t.lat, t.lon, geo)->0;
            tinted_all(colors, geo.wc as int, train_dots(trains.push(t), geo))[grid::slot(
                x / 2,
                y / 4,
                geo.wc as int,
            )] == render::ansi_of(t.line)
        }),
{
    let w = geo.wc as int;
    let h = geo.hc as int;
    let (x, y) = project::projected(t.lat, t.lon, geo)->0;
    project::law_projection_lands_on_canvas(t.lat, t.lon, geo);
    grid::slot_in_range(x / 2, y / 4, w, h);
    let before = train_dots(trains, geo);
    let all = train_dots(trains.push(t), geo);
    assert(trains.push(t).drop_last() =~= trains);
    assert(all.drop_last() =~= before);
    dots_len(cells, colors, w, h, before);
}

proof fn labelled_keeps(
    labels: Seq<Option<(char, u8)>>,
    geo: Geometry,
    col: int,
    row: int,
    s: Seq<char>,
    color: u8,
    i: int,
)
    requires
        0 <= i < labels.len(),
        labels[i] is Some,
    ensures
        labelled(labels, geo, col, row, s, color).len() == labels.len(),
        labelled(labels, geo, col, row, s, color)[i] == labels[i],
{
    let c = i - row * geo.wc;
    if can_stand(labels, geo, col, row, s) && 0 <= c < geo.wc && col <= c < col + s.len() {
        assert(grid::slot(c, row, geo.wc as int) == i);
    }
}

/// A label that stands is never written over: placing further codes leaves it as it
/// is.
pub proof fn law_labels_are_never_overwritten(
    labels: Seq<Option<(char, u8)>>,
    geo: Geometry,
    places: Seq<Place>,
    i: int,
)
    requires
        0 <= i < labels.len(),
        labels[i] is Some,
    ensures
        layer_after(labels, geo, places).len() == labels.len(),
        layer_after(labels, geo, places)[i] == labels[i],
    decreases places.len(),
{
    if places.len() > 0 {
        let p = places.last();
        law_labels_are_never_overwritten(labels, geo, places.drop_last(), i);
        let before = layer_after(labels, geo, places.drop_last());
        match atlas::cell_of(p.lat, p.lon, geo) {
            Some((c, r)) => {
                labelled_keeps(before, geo, c, r, p.code, GEO_LABEL_COLOR, i);
            },
            None => {},
        }
    }
}

/// A code lands whole or not at all: where it does not land the layer is unchanged,
/// and where it lands every character of it that lies in the frame shows.
pub proof fn law_labels_land_whole_or_not_at_all(
    labels: Seq<Option<(char, u8)>>,
    geo: Geometry,
    col: int,
    row: int,
    s: Seq<char>,
    color: u8,
    k: int,
)
    requires
        labels.len() == geo.wc * geo.hc,
        0 <= k < s.len(),
        0 <= col + k < geo.wc,
    ensures
        !can_stand(labels, geo, col, row, s) ==> labelled(labels, geo, col, row, s, color)
            == labels,
        can_stand(labels, geo, col, row, s) ==> labelled(
            labels,
            geo,
            col,
            row,
            s,
            color,
        )[grid::slot(col + k, row, geo.wc as int)] == Some((s[k], color)),
{
    if can_stand(labels, geo, col, row, s) {
        grid::slot_in_range(col + k, row, geo.wc as int, geo.hc as int);
        assert(lettered(s, k, color) == Some((s[k], color)));
    }
}

/// The two maps are locked to each other: the cell that a point's dot falls into on
/// the braille map is the cell in which the atlas shows it, and it lies in the frame.
pub proof fn law_the_two_maps_share_their_cells(lat: i64, lon: i64, geo: Geometry)
    requires
        geo.valid(),
    ensures
        match (project::projected(lat, lon, geo), atlas::cell_of(lat, lon, geo)) {
            (Some((x, y)), Some((c, r))) => c == x / 2 && r == y / 4 && 0 <= c < geo.wc && 0 <= r
                < geo.hc,
            (None, None) => true,
            _ => false,
        },
{
    project::law_projection_lands_on_canvas(lat, lon, geo);
}

/// The plain map shows without colour on any client: it holds the escape character,
/// with which colour sequences start, only where the name of the source or the time
/// of the feed does.
pub proof fn law_plain_map_holds_no_escape(
    pos: PositionsView,
    geo: Geometry,
    source_name: Seq<char>,
)
    ensures
        text::lacks(map_text(pos, geo, source_name), page::ESCAPE) <==> text::lacks(
            source_name,
            page::ESCAPE,
        ) && page::feed_time_is_clean(pos),
{
    broadcast use text::lacks_both;

    let cells = train_cells(zeros((geo.wc * geo.hc) as nat), geo, pos.trains);
    let rows = plot_rows(cells, geo);
    page::blank_texts_hold_no_escape();
    assert forall|y: int| 0 <= y < rows.len() implies text::lacks(
        #[trigger] rows[y],
        page::ESCAPE,
    ) by {
        reveal(text::lacks);
        assert forall|x: int| 0 <= x < rows[y].len() implies #[trigger] rows[y][x]
            != page::ESCAPE by {
            let bits = cells[grid::slot(x, y, geo.wc as int)];
            assert(rows[y][x] == braille::glyph(bits));
        }
    }
    text::joined_lacks(rows, "\n"@, page::ESCAPE);
    page::feed_lines_hold_no_escape(pos, source_name);
    page::line_counts_hold_no_escape(pos.trains);
    text::filled_lacks('-', page::dashes(geo.wc as nat).len(), page::ESCAPE);
    assert(page::dashes(geo.wc as nat) =~= text::filled('-', page::dashes(geo.wc as nat).len()));
    text::dec_lacks(page::plotted_count(pos.trains), page::ESCAPE);
    text::dec_lacks(pos.trains.len(), page::ESCAPE);
    assert(text::lacks("CTA 'L' -- live train map\n"@, page::ESCAPE) && text::lacks(
        " trains plotted of "@,
        page::ESCAPE,
    ) && text::lacks(
        " reporting.  bbox lat[41.65..42.07] lon[-87.9..-87.45]\n"@,
        page::ESCAPE,
    )) by {
        reveal(text::lacks);
        reveal_strlit("CTA 'L' -- live train map\n");
        reveal_strlit(" trains plotted of ");
        reveal_strlit(" reporting.  bbox lat[41.65..42.07] lon[-87.9..-87.45]\n");
    }
    reveal(map_text);
}

} // verus!
