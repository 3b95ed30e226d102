//! Char-cell geographic atlas: a second map surface alongside the braille plot.
//!
//! The braille map is a monochrome dot field: it shows *where* trains are but not
//! *what* city is under them. The atlas shows the same projected scene on a
//! one-glyph-per-cell character grid, so distinct features read as distinct
//! markers, told apart by a legend below the map.
//!
//! Markers are plain ASCII: shoreline `#`, each landmark a mnemonic letter, live
//! trains as a 4-way heading arrow `^ > v <` (`o` when the feed reports no
//! heading). The legend lists only the markers that show on the grid.
//!
//! Cells come from the same [`project::project`] as the braille map's, collapsed
//! from braille pixel to char cell `(px/2, py/4)`: there is no second projection.
//!
//! The static scene is painted once into a base grid ([`Atlas::build`]); each page
//! clones that base and paints the live trains on top.
//!
//! Z-order (painter's algorithm, higher priority wins):
//!   shoreline < expressways < landmarks < trains < water label.

use crate::chargrid;
use crate::chargrid::{CharGrid, Mark, Stroke};
use crate::page;
use crate::project;
use crate::project::Geometry;
use crate::raster;
use crate::render;
use crate::render::{Entry, EntryView, ItemKind};
use crate::text;
use crate::transit;
use crate::transit::{Positions, PositionsView, Train, TrainView};
use vstd::prelude::*;
use vstd::string::StringExecFns;

verus! {

// Z-order priorities.

pub const PRIO_SHORE: u8 = 1;

pub const PRIO_EXPRESSWAY: u8 = 2;

pub const PRIO_LANDMARK: u8 = 3;

pub const PRIO_TRAIN: u8 = 5;

/// The water label sits above everything, so that a stray near-shore train cannot
/// break it.
pub const PRIO_LABEL: u8 = 7;

// ANSI 256-colour codes for the static layers.

/// Cyan: shoreline and lake label.
pub const WATER_COLOR: u8 = 44;

/// Light grey, so that coloured trains stand out.
pub const LANDMARK_COLOR: u8 = 250;

/// Dark grey: roads recede behind coloured trains.
pub const EXPRESSWAY_COLOR: u8 = 240;

pub const SHORE_GLYPH: char = '#';

pub const TRAIN_GLYPH: char = 'o';

/// The magnitude of a number.
pub open spec fn magnitude(n: int) -> int {
    if n < 0 {
        -n
    } else {
        n
    }
}

/// Expressway glyph for a slope, in cells; rows count downward.
pub open spec fn slope_glyph(dx: int, dy: int) -> char {
    if magnitude(dx) >= 2 * magnitude(dy) {
        '='
    } else if magnitude(dy) >= 2 * magnitude(dx) {
        '|'
    } else if (dx > 0) == (dy > 0) {
        '\\'
    } else {
        '/'
    }
}

/// Expressway-segment glyph by slope (in cells): `=` horizontal, `|` vertical,
/// `/` SW-NE, `\` NW-SE. Screen rows increase downward, so same-sign dx/dy is `\`.
pub fn road_glyph(dx: i32, dy: i32) -> (g: char)
    ensures
        g == slope_glyph(dx as int, dy as int),
{
    let adx: i64 = if dx < 0 {
        -(dx as i64)
    } else {
        dx as i64
    };
    let ady: i64 = if dy < 0 {
        -(dy as i64)
    } else {
        dy as i64
    };
    if adx >= 2 * ady {
        '='
    } else if ady >= 2 * adx {
        '|'
    } else if (dx > 0) == (dy > 0) {
        '\\'
    } else {
        '/'
    }
}

/// The marker of a train with the given heading.
pub open spec fn arrow_glyph(heading: Option<u16>) -> char {
    match heading {
        None => TRAIN_GLYPH,
        Some(deg) => {
            let d = deg % 360;
            if d >= 315 || d <= 44 {
                '^'
            } else if d <= 134 {
                '>'
            } else if d <= 224 {
                'v'
            } else {
                '<'
            }
        },
    }
}

/// On-grid marker for a train: a 4-way ASCII heading arrow (`^ > v <`), so the
/// direction of travel reads on any client. Diagonals round to the nearest
/// cardinal; `o` when the feed reports no heading.
pub fn heading_glyph(heading: Option<u16>) -> (g: char)
    ensures
        g == arrow_glyph(heading),
{
    match heading {
        None => TRAIN_GLYPH,
        Some(deg) => {
            let d: u16 = deg % 360;
            if d >= 315 || d <= 44 {
                '^'
            } else if d <= 134 {
                '>'
            } else if d <= 224 {
                'v'
            } else {
                '<'
            }
        },
    }
}

// ---------- overlay data model ----------

/// The overlay scene. Anchors are `[lat, lon]` pairs in the units of
/// [`crate::project`].
#[derive(Debug)]
pub struct GeoData {
    pub meta: Meta,
    pub shoreline: Shoreline,
    pub expressways: Vec<Expressway>,
    /// Watercourses. Drawn by the braille map's overlay only.
    pub rivers: Vec<River>,
    /// Neighbourhoods, named on the braille map's overlay only.
    pub areas: Vec<Area>,
    pub landmarks: Vec<Landmark>,
}

#[derive(Debug)]
pub struct Expressway {
    pub name: String,
    /// Anchors along the route.
    pub points: Vec<[i64; 2]>,
}

#[derive(Debug)]
pub struct River {
    /// Anchors along the watercourse.
    pub points: Vec<[i64; 2]>,
}

#[derive(Debug)]
pub struct Meta {
    pub name: String,
}

#[derive(Debug)]
pub struct Shoreline {
    pub name: String,
    /// Anchors, ordered north -> south.
    pub points: Vec<[i64; 2]>,
}

#[derive(Debug)]
pub struct Area {
    /// Mnemonic place code.
    pub code: String,
    pub name: String,
    pub lat: i64,
    pub lon: i64,
}

#[derive(Debug)]
pub struct Landmark {
    pub name: String,
    /// On-grid marker of the atlas: a mnemonic letter. The legend maps it back.
    pub marker: char,
    /// Mnemonic place code on the braille map.
    pub code: String,
    pub lat: i64,
    pub lon: i64,
    pub category: String,
}

// ---------- the scene as strokes ----------

/// The char cell of a point: that of its braille pixel.
pub open spec fn cell_of(lat: i64, lon: i64, geo: Geometry) -> Option<(int, int)> {
    match project::projected(lat, lon, geo) {
        Some((px, py)) => Some((px / 2, py / 4)),
        None => None,
    }
}

/// Project `(lat, lon)` to a char cell by the same map as the trains: the braille
/// pixel from [`project::project`], collapsed to the cell that contains it. `None`
/// for points outside the plotted area.
pub fn project_cell(lat: i64, lon: i64, geo: &Geometry) -> (r: Option<(i32, i32)>)
    requires
        geo.plottable(),
    ensures
        match r {
            Some((c, r)) => cell_of(lat, lon, *geo) == Some((c as int, r as int)),
            None => cell_of(lat, lon, *geo) is None,
        },
        r matches Some((c, r)) ==> c >= 0 && r >= 0,
{
    match project::project(lat, lon, geo) {
        Some((px, py)) => Some(((px / 2) as i32, (py / 4) as i32)),
        None => None,
    }
}

/// The strokes of a drawn line between two anchors: every cell of the segment
/// between their cells, and none where an anchor lies outside the plotted area. A
/// road is drawn with the glyph of its slope, the shoreline with its own.
pub open spec fn segment_strokes(
    p: [i64; 2],
    q: [i64; 2],
    geo: Geometry,
    road: bool,
) -> Seq<Stroke> {
    match (cell_of(p@[0], p@[1], geo), cell_of(q@[0], q@[1], geo)) {
        (Some((c0, r0)), Some((c1, r1))) => strokes_along(
            raster::segment(c0, r0, c1, r1),
            line_mark(c1 - c0, r1 - r0, road),
        ),
        _ => Seq::empty(),
    }
}

/// The mark that a line is drawn with.
pub open spec fn line_mark(dx: int, dy: int, road: bool) -> Mark {
    if road {
        Mark { glyph: slope_glyph(dx, dy), prio: PRIO_EXPRESSWAY, color: EXPRESSWAY_COLOR }
    } else {
        Mark { glyph: SHORE_GLYPH, prio: PRIO_SHORE, color: WATER_COLOR }
    }
}

/// The same mark at each of a list of cells.
pub open spec fn strokes_along(cells: Seq<(int, int)>, mark: Mark) -> Seq<Stroke> {
    cells.map_values(|p: (int, int)| stroke_at(p, mark))
}

/// A mark at a cell.
pub open spec fn stroke_at(p: (int, int), mark: Mark) -> Stroke {
    Stroke { col: p.0, row: p.1, mark }
}

/// The strokes of a drawn line along its anchors.
pub open spec fn line_strokes(pts: Seq<[i64; 2]>, geo: Geometry, road: bool) -> Seq<Stroke>
    decreases pts.len(),
{
    if pts.len() < 2 {
        Seq::empty()
    } else {
        line_strokes(pts.drop_last(), geo, road) + segment_strokes(
            pts[pts.len() - 2],
            pts[pts.len() - 1],
            geo,
            road,
        )
    }
}

/// The strokes of all expressways.
pub open spec fn road_strokes(roads: Seq<Expressway>, geo: Geometry) -> Seq<Stroke>
    decreases roads.len(),
{
    if roads.len() == 0 {
        Seq::empty()
    } else {
        road_strokes(roads.drop_last(), geo) + line_strokes(roads.last().points@, geo, true)
    }
}

/// One marker cell for each landmark in the plotted area.
pub open spec fn landmark_strokes(marks: Seq<Landmark>, geo: Geometry) -> Seq<Stroke>
    decreases marks.len(),
{
    if marks.len() == 0 {
        Seq::empty()
    } else {
        let m = marks.last();
        let before = landmark_strokes(marks.drop_last(), geo);
        match cell_of(m.lat, m.lon, geo) {
            Some(p) => before.push(
                stroke_at(
                    p,
                    Mark { glyph: m.marker, prio: PRIO_LANDMARK, color: LANDMARK_COLOR },
                ),
            ),
            None => before,
        }
    }
}

/// Half of a number, rounded toward zero.
pub open spec fn half(n: int) -> int {
    if n >= 0 {
        n / 2
    } else {
        -((-n) / 2)
    }
}

/// The name of the lake, written down the open water east of the coastline.
pub open spec fn lake_label() -> Seq<char> {
    "LAKE MICHIGAN"@
}

/// Letter `i` of the lake's name.
pub open spec fn lake_letter(i: int) -> char {
    lake_label()[i]
}

/// The row of the first letter of the lake's name, which is centred vertically.
pub open spec fn lake_start(hc: int) -> int {
    half(hc - lake_label().len())
}

/// The strokes of the first `n` letters of the lake's name: down the last column
/// but one, blanks left open.
pub open spec fn lake_strokes(geo: Geometry, n: nat) -> Seq<Stroke>
    decreases n,
{
    if n == 0 {
        Seq::empty()
    } else {
        let i = n - 1;
        let before = lake_strokes(geo, i as nat);
        let ch = lake_letter(i);
        if ch != ' ' {
            before.push(
                stroke_at(
                    (geo.wc - 2, lake_start(geo.hc as int) + i),
                    Mark { glyph: ch, prio: PRIO_LABEL, color: WATER_COLOR },
                ),
            )
        } else {
            before
        }
    }
}

/// The static scene: shoreline, expressways, landmarks and the lake's name.
pub open spec fn scene_strokes(geo: GeoData, geom: Geometry) -> Seq<Stroke> {
    line_strokes(geo.shoreline.points@, geom, false) + road_strokes(geo.expressways@, geom)
        + landmark_strokes(geo.landmarks@, geom) + lake_strokes(geom, lake_label().len())
}

/// One heading arrow, in the line's colour, for each train in the plotted area.
pub open spec fn train_strokes(trains: Seq<TrainView>, geo: Geometry) -> Seq<Stroke>
    decreases trains.len(),
{
    if trains.len() == 0 {
        Seq::empty()
    } else {
        let t = trains.last();
        let before = train_strokes(trains.drop_last(), geo);
        match cell_of(t.lat, t.lon, geo) {
            Some(p) => before.push(
                stroke_at(
                    p,
                    Mark {
                        glyph: arrow_glyph(t.heading),
                        prio: PRIO_TRAIN,
                        color: render::ansi_of(t.line),
                    },
                ),
            ),
            None => before,
        }
    }
}

// ---------- painting the scene ----------

/// Paints the same mark at each of a list of cells.
fn paint_along(grid: &mut CharGrid, cells: &Vec<(i32, i32)>, glyph: char, prio: u8, color: u8)
    requires
        old(grid).wf(),
    ensures
        final(grid).wf(),
        final(grid).wc == old(grid).wc,
        final(grid).hc == old(grid).hc,
        final(grid).marks() == chargrid::painted_all(
            old(grid).marks(),
            old(grid).wc as int,
            old(grid).hc as int,
            strokes_along(raster::points(cells@), (Mark { glyph, prio, color })),
        ),
{
    let ghost strokes = strokes_along(raster::points(cells@), Mark { glyph, prio, color });
    let ghost w = grid.wc as int;
    let ghost h = grid.hc as int;
    let ghost before = grid.marks();
    let mut i: usize = 0;
    assert(strokes.take(0) =~= Seq::<Stroke>::empty());
    while i < cells.len()
        invariant
            i <= cells@.len(),
            grid.wf(),
            grid.wc == w,
            grid.hc == h,
            strokes == strokes_along(raster::points(cells@), (Mark { glyph, prio, color })),
            grid.marks() == chargrid::painted_all(before, w, h, strokes.take(i as int)),
        decreases cells@.len() - i,
    {
        let p: (i32, i32) = cells[i];
        grid.put(p.0, p.1, glyph, prio, color);
        proof {
            assert(strokes.take(i + 1).drop_last() =~= strokes.take(i as int));
            assert(strokes[i as int] == stroke_at(
                (p.0 as int, p.1 as int),
                Mark { glyph, prio, color },
            ));
        }
        i = i + 1;
    }
    assert(strokes.take(i as int) =~= strokes);
}

/// Paints a line along its anchors: each segment whose two anchors are both in the
/// plotted area. A segment with an anchor outside is skipped, so that the line
/// clips at the frame instead of streaking.
fn paint_line(grid: &mut CharGrid, pts: &Vec<[i64; 2]>, geo: &Geometry, road: bool)
    requires
        old(grid).wf(),
        geo.plottable(),
    ensures
        final(grid).wf(),
        final(grid).wc == old(grid).wc,
        final(grid).hc == old(grid).hc,
        final(grid).marks() == chargrid::painted_all(
            old(grid).marks(),
            old(grid).wc as int,
            old(grid).hc as int,
            line_strokes(pts@, *geo, road),
        ),
{
    let ghost w = grid.wc as int;
    let ghost h = grid.hc as int;
    let ghost before = grid.marks();
    if pts.len() < 2 {
        return ;
    }
    let mut k: usize = 1;
    assert(line_strokes(pts@.take(1), *geo, road) =~= Seq::<Stroke>::empty());
    while k < pts.len()
        invariant
            1 <= k <= pts@.len(),
            geo.plottable(),
            grid.wf(),
            grid.wc == w,
            grid.hc == h,
            grid.marks() == chargrid::painted_all(
                before,
                w,
                h,
                line_strokes(pts@.take(k as int), *geo, road),
            ),
        decreases pts@.len() - k,
    {
        let ghost mid = grid.marks();
        let ghost seg = segment_strokes(pts@[k - 1], pts@[k as int], *geo, road);
        let a = project_cell(pts[k - 1][0], pts[k - 1][1], geo);
        let b = project_cell(pts[k][0], pts[k][1], geo);
        match (a, b) {
            (Some((c0, r0)), Some((c1, r1))) => {
                let cells = raster::bresenham(c0, r0, c1, r1);
                if road {
                    let g: char = road_glyph(c1 - c0, r1 - r0);
                    paint_along(grid, &cells, g, PRIO_EXPRESSWAY, EXPRESSWAY_COLOR);
                } else {
                    paint_along(grid, &cells, SHORE_GLYPH, PRIO_SHORE, WATER_COLOR);
                }
            },
            _ => {},
        }
        proof {
            assert(grid.marks() == chargrid::painted_all(mid, w, h, seg));
            assert(pts@.take(k + 1).drop_last() =~= pts@.take(k as int));
            chargrid::painted_all_concat(
                before,
                w,
                h,
                line_strokes(pts@.take(k as int), *geo, road),
                seg,
            );
        }
        k = k + 1;
    }
    assert(pts@.take(k as int) =~= pts@);
}

/// Paints the expressways, each segment with a glyph that follows its slope.
fn paint_roads(grid: &mut CharGrid, roads: &Vec<Expressway>, geo: &Geometry)
    requires
        old(grid).wf(),
        geo.plottable(),
    ensures
        final(grid).wf(),
        final(grid).wc == old(grid).wc,
        final(grid).hc == old(grid).hc,
        final(grid).marks() == chargrid::painted_all(
            old(grid).marks(),
            old(grid).wc as int,
            old(grid).hc as int,
            road_strokes(roads@, *geo),
        ),
{
    let ghost w = grid.wc as int;
    let ghost h = grid.hc as int;
    let ghost before = grid.marks();
    let mut k: usize = 0;
    assert(roads@.take(0) =~= Seq::<Expressway>::empty());
    while k < roads.len()
        invariant
            k <= roads@.len(),
            geo.plottable(),
            grid.wf(),
            grid.wc == w,
            grid.hc == h,
            grid.marks() == chargrid::painted_all(
                before,
                w,
                h,
                road_strokes(roads@.take(k as int), *geo),
            ),
        decreases roads@.len() - k,
    {
        paint_line(grid, &roads[k].points, geo, true);
        proof {
            assert(roads@.take(k + 1).drop_last() =~= roads@.take(k as int));
            chargrid::painted_all_concat(
                before,
                w,
                h,
                road_strokes(roads@.take(k as int), *geo),
                line_strokes(roads@[k as int].points@, *geo, true),
            );
        }
        k = k + 1;
    }
    assert(roads@.take(k as int) =~= roads@);
}

/// Paints one marker cell for each landmark.
fn paint_landmarks(grid: &mut CharGrid, marks: &Vec<Landmark>, geo: &Geometry)
    requires
        old(grid).wf(),
        geo.plottable(),
    ensures
        final(grid).wf(),
        final(grid).wc == old(grid).wc,
        final(grid).hc == old(grid).hc,
        final(grid).marks() == chargrid::painted_all(
            old(grid).marks(),
            old(grid).wc as int,
            old(grid).hc as int,
            landmark_strokes(marks@, *geo),
        ),
{
    let ghost w = grid.wc as int;
    let ghost h = grid.hc as int;
    let ghost before = grid.marks();
    let mut k: usize = 0;
    assert(marks@.take(0) =~= Seq::<Landmark>::empty());
    while k < marks.len()
        invariant
            k <= marks@.len(),
            geo.plottable(),
            grid.wf(),
            grid.wc == w,
            grid.hc == h,
            grid.marks() == chargrid::painted_all(
                before,
                w,
                h,
                landmark_strokes(marks@.take(k as int), *geo),
            ),
        decreases marks@.len() - k,
    {
        let m = &marks[k];
        proof {
            assert(marks@.take(k + 1).drop_last() =~= marks@.take(k as int));
        }
        match project_cell(m.lat, m.lon, geo) {
            Some((c, r)) => {
                grid.put(c, r, m.marker, PRIO_LANDMARK, LANDMARK_COLOR);
                proof {
                    let s = landmark_strokes(marks@.take(k + 1), *geo);
                    assert(s.drop_last() =~= landmark_strokes(marks@.take(k as int), *geo));
                }
            },
            None => {},
        }
        k = k + 1;
    }
    assert(marks@.take(k as int) =~= marks@);
}

/// The row of the first letter of the lake's name.
pub fn lake_top(hc: usize) -> (r: i32)
    requires
        hc <= i32::MAX,
    ensures
        r == lake_start(hc as int),
        -7 <= r,
        r <= i32::MAX - 13,
{
    proof {
        reveal_strlit("LAKE MICHIGAN");
    }
    let d: i64 = hc as i64 - 13;
    if d >= 0 {
        (d / 2) as i32
    } else {
        -(((-d) / 2) as i32)
    }
}

/// Paints the name of the lake down the far-east water column, vertically centred.
fn paint_lake(grid: &mut CharGrid, geo: &Geometry)
    requires
        old(grid).wf(),
        geo.plottable(),
    ensures
        final(grid).wf(),
        final(grid).wc == old(grid).wc,
        final(grid).hc == old(grid).hc,
        final(grid).marks() == chargrid::painted_all(
            old(grid).marks(),
            old(grid).wc as int,
            old(grid).hc as int,
            lake_strokes(*geo, lake_label().len()),
        ),
{
    let ghost w = grid.wc as int;
    let ghost h = grid.hc as int;
    let ghost before = grid.marks();
    let label = text::chars_of("LAKE MICHIGAN");
    proof {
        reveal_strlit("LAKE MICHIGAN");
    }
    let col: i32 = geo.wc as i32 - 2;
    let start: i32 = lake_top(geo.hc);
    let mut i: usize = 0;
    while i < label.len()
        invariant
            i <= label@.len(),
            label@ == lake_label(),
            label@.len() == 13,
            geo.plottable(),
            col == geo.wc - 2,
            start == lake_start(geo.hc as int),
            -7 <= start <= i32::MAX - 13,
            grid.wf(),
            grid.wc == w,
            grid.hc == h,
            grid.marks() == chargrid::painted_all(before, w, h, lake_strokes(*geo, i as nat)),
        decreases label@.len() - i,
    {
        let ch: char = label[i];
        assert(ch == lake_letter(i as int));
        if ch != ' ' {
            grid.put(col, start + i as i32, ch, PRIO_LABEL, WATER_COLOR);
            proof {
                let s = lake_strokes(*geo, (i + 1) as nat);
                assert(s.drop_last() =~= lake_strokes(*geo, i as nat));
            }
        }
        i = i + 1;
    }
}

/// Paints a heading arrow for each train in the plotted area, and counts them.
fn paint_trains(grid: &mut CharGrid, trains: &Vec<Train>, geo: &Geometry) -> (n: usize)
    requires
        old(grid).wf(),
        geo.plottable(),
    ensures
        final(grid).wf(),
        final(grid).wc == old(grid).wc,
        final(grid).hc == old(grid).hc,
        final(grid).marks() == chargrid::painted_all(
            old(grid).marks(),
            old(grid).wc as int,
            old(grid).hc as int,
            train_strokes(transit::train_views(trains@), *geo),
        ),
        n == page::plotted_count(transit::train_views(trains@)),
{
    let ghost all = transit::train_views(trains@);
    let ghost w = grid.wc as int;
    let ghost h = grid.hc as int;
    let ghost before = grid.marks();
    let mut n: usize = 0;
    let mut k: usize = 0;
    assert(all.take(0) =~= Seq::<TrainView>::empty());
    while k < trains.len()
        invariant
            k <= trains@.len(),
            n <= k,
            all == transit::train_views(trains@),
            geo.plottable(),
            grid.wf(),
            grid.wc == w,
            grid.hc == h,
            grid.marks() == chargrid::painted_all(
                before,
                w,
                h,
                train_strokes(all.take(k as int), *geo),
            ),
            n == page::plotted_count(all.take(k as int)),
        decreases trains@.len() - k,
    {
        let t = &trains[k];
        proof {
            assert(all.take(k + 1).drop_last() =~= all.take(k as int));
            assert(all.take(k + 1).last() == t@);
        }
        match project_cell(t.lat, t.lon, geo) {
            Some((c, r)) => {
                grid.put(
                    c,
                    r,
                    heading_glyph(t.heading),
                    PRIO_TRAIN,
                    render::line_ansi256(t.line.as_str()),
                );
                n = n + 1;
                proof {
                    let s = train_strokes(all.take(k + 1), *geo);
                    assert(s.drop_last() =~= train_strokes(all.take(k as int), *geo));
                }
            },
            None => {},
        }
        k = k + 1;
    }
    assert(all.take(k as int) =~= all);
    n
}

// ---------- the atlas ----------

/// The atlas scene: the overlay, the canvas geometry, and a base grid with the
/// static layers already painted. Built once; each page clones the base and paints
/// trains on top.
pub struct Atlas {
    pub geo: GeoData,
    pub geom: Geometry,
    pub base: CharGrid,
}

/// The base grid: the static scene painted on blank cells.
pub open spec fn base_marks(geo: GeoData, geom: Geometry) -> Seq<Mark> {
    chargrid::painted_all(
        Seq::new((geom.wc * geom.hc) as nat, |i: int| chargrid::blank()),
        geom.wc as int,
        geom.hc as int,
        scene_strokes(geo, geom),
    )
}

/// The grid of a page: the trains painted over the static scene.
pub open spec fn page_marks(geo: GeoData, geom: Geometry, trains: Seq<TrainView>) -> Seq<Mark> {
    chargrid::painted_all(
        base_marks(geo, geom),
        geom.wc as int,
        geom.hc as int,
        train_strokes(trains, geom),
    )
}

/// Whether a landmark's marker shows on a grid.
pub open spec fn shows(m: Landmark, cells: Seq<Mark>, geo: Geometry) -> bool {
    match cell_of(m.lat, m.lon, geo) {
        Some((c, r)) => chargrid::in_frame(c, r, geo.wc as int, geo.hc as int)
            && cells[crate::grid::slot(c, r, geo.wc as int)].glyph == m.marker,
        None => false,
    }
}

/// The landmarks whose marker shows on a grid, in overlay order.
pub open spec fn shown(marks: Seq<Landmark>, cells: Seq<Mark>, geo: Geometry) -> Seq<Landmark>
    decreases marks.len(),
{
    if marks.len() == 0 {
        Seq::empty()
    } else {
        let before = shown(marks.drop_last(), cells, geo);
        if shows(marks.last(), cells, geo) {
            before.push(marks.last())
        } else {
            before
        }
    }
}

/// A landmark's line in the atlas legend.
pub open spec fn legend_line(m: Landmark) -> Seq<char> {
    "  "@ + seq![m.marker] + "  "@ + m.name@ + "\n"@
}

/// The atlas legend of a list of landmarks.
pub open spec fn legend_text(marks: Seq<Landmark>) -> Seq<char> {
    text::concat(marks.map_values(|m: Landmark| legend_line(m)))
}

/// The names of the expressways.
pub open spec fn road_names(roads: Seq<Expressway>) -> Seq<Seq<char>> {
    roads.map_values(|r: Expressway| r.name@)
}

/// The line that names the expressways: nothing where there are none.
pub open spec fn roads_line(roads: Seq<Expressway>) -> Seq<char> {
    if roads.len() > 0 {
        "expressways  (= | / \\):  "@ + text::joined(road_names(roads), "; "@) + "\n"@
    } else {
        ""@
    }
}

/// The whole atlas page.
#[verifier::opaque]
pub open spec fn atlas_text(
    geo: GeoData,
    geom: Geometry,
    pos: PositionsView,
    source_name: Seq<char>,
    ansi: bool,
) -> Seq<char> {
    let cells = page_marks(geo, geom, pos.trains);
    let w = geom.wc as int;
    let h = geom.hc as int;
    let visible = shown(geo.landmarks@, cells, geom);
    "CTA 'L' -- geographic atlas\n"@ + page::feed_lines(pos, source_name) + "overlay: "@
        + geo.meta.name@ + " ("@ + geo.shoreline.name@
        + ")\nview: north up; west = city, east = Lake Michigan\n"@ + page::dashes(geom.wc as nat)
        + "\n"@ + (if ansi {
        text::joined(chargrid::colored_rows(cells, w, h), "\n"@)
    } else {
        text::joined(chargrid::plain_rows(cells, w, h), "\n"@)
    }) + "\n"@ + page::dashes(geom.wc as nat) + "\n"@ + text::dec(
        page::plotted_count(pos.trains),
    ) + " trains plotted of "@ + text::dec(pos.trains.len()) + " reporting.  "@ + text::dec(
        visible.len(),
    ) + " of "@ + text::dec(geo.landmarks@.len()) + " landmarks shown.  "@ + text::dec(
        visible.len(),
    ) + " places named.\n"@ + "bbox lat[41.65..42.07] lon[-87.9..-87.45]\n"@ + roads_line(geo.expressways@)
        + "\nLANDMARKS  (marker -> place)\n"@ + legend_text(visible) + page::line_counts(
        pos.trains,
    )
}

/// The selector of a landmark's detail page.
pub open spec fn landmark_path(marker: char) -> Seq<char> {
    "/landmark/"@ + seq![marker] + ".txt"@
}

/// Selector (served path) for a landmark's detail page, keyed by its marker.
pub fn landmark_selector(marker: char) -> (r: String)
    ensures
        r@ == landmark_path(marker),
{
    let mut out = "/landmark/".to_owned();
    text::push_char(&mut out, marker);
    out.append(".txt");
    out
}

/// A landmark's link in the landmarks menu.
pub open spec fn landmark_entry(m: Landmark) -> EntryView {
    render::local_link(
        ItemKind::Text,
        seq![m.marker] + "  "@ + m.name@ + " ("@ + m.category@ + ")"@,
        landmark_path(m.marker),
    )
}

/// The whole landmarks menu.
pub open spec fn landmark_entries(marks: Seq<Landmark>) -> Seq<EntryView> {
    seq![
        render::info_line("Chicago landmarks"@),
        render::info_line(text::filled('=', 40)),
        render::info_line("Marker letters key the /atlas.txt grid."@),
        render::info_line(""@),
    ] + marks.map_values(|m: Landmark| landmark_entry(m))
}

/// The first landmark with the given marker.
pub open spec fn first_marked(marks: Seq<Landmark>, marker: char) -> Option<Landmark>
    decreases marks.len(),
{
    if marks.len() == 0 {
        None
    } else if marks[0].marker == marker {
        Some(marks[0])
    } else {
        first_marked(marks.drop_first(), marker)
    }
}

/// The detail page for a marker.
pub open spec fn landmark_text(marks: Seq<Landmark>, marker: char) -> Seq<char> {
    match first_marked(marks, marker) {
        Some(m) => m.name@ + "\n"@ + text::filled('=', 40) + "\n\ncategory:     "@ + m.category@
            + "\natlas marker: "@ + seq![m.marker] + "\nposition:     "@ + project::five_places(
            m.lat,
        ) + ", "@ + project::five_places(m.lon)
            + "\n\nPlotted on the geographic atlas (/atlas.txt) at marker '"@ + seq![m.marker]
            + "'.\n"@ + "The CTA positions feed carries no station geometry, so a nearest-'L'\n"@
            + "stop isn't available here.\n"@,
        None => "Unknown landmark '"@ + seq![marker] + "'\n"@ + text::filled('=', 40)
            + "\n\nNo landmark uses this marker. Head back to the landmarks menu.\n"@,
    }
}

impl Atlas {
    /// The base grid is the overlay's scene.
    pub open spec fn wf(self) -> bool {
        &&& self.geom.plottable()
        &&& self.base.wf()
        &&& self.base.wc == self.geom.wc
        &&& self.base.hc == self.geom.hc
        &&& self.base.marks() == base_marks(self.geo, self.geom)
    }

    /// Paint the static layers of the overlay into the base grid. Call once at
    /// startup; clone-and-paint per page via [`Atlas::render`].
    pub fn build(geo: GeoData, geom: Geometry) -> (r: Atlas)
        requires
            geom.plottable(),
        ensures
            r.wf(),
            r.geo == geo,
            r.geom == geom,
    {
        let mut base = CharGrid::new(geom.wc, geom.hc);
        paint_line(&mut base, &geo.shoreline.points, &geom, false);
        paint_roads(&mut base, &geo.expressways, &geom);
        paint_landmarks(&mut base, &geo.landmarks, &geom);
        paint_lake(&mut base, &geom);
        proof {
            let w = geom.wc as int;
            let h = geom.hc as int;
            let blank = Seq::new((geom.wc * geom.hc) as nat, |i: int| chargrid::blank());
            let a = line_strokes(geo.shoreline.points@, geom, false);
            let b = road_strokes(geo.expressways@, geom);
            let c = landmark_strokes(geo.landmarks@, geom);
            let d = lake_strokes(geom, lake_label().len());
            chargrid::painted_all_concat(blank, w, h, a, b);
            chargrid::painted_all_concat(blank, w, h, a + b, c);
            chargrid::painted_all_concat(blank, w, h, a + b + c, d);
        }
        Atlas { geo, geom, base }
    }

    /// Render the atlas page (plain text): clone the static base, paint live
    /// trains, then append the landmark legend and per-line counts.
    pub fn render(&self, pos: &Positions, source_name: &str) -> (r: String)
        requires
            self.wf(),
        ensures
            r@ == atlas_text(self.geo, self.geom, pos@, source_name@, false),
    {
        self.build_page(pos, source_name, false)
    }

    /// As [`Atlas::render`], but ANSI-coloured (shoreline and label cyan, landmarks
    /// grey, trains by CTA line).
    pub fn render_ansi(&self, pos: &Positions, source_name: &str) -> (r: String)
        requires
            self.wf(),
        ensures
            r@ == atlas_text(self.geo, self.geom, pos@, source_name@, true),
    {
        self.build_page(pos, source_name, true)
    }

    /// The legend of the landmarks that show on a grid, and how many they are.
    fn legend(&self, grid: &CharGrid) -> (r: (String, usize))
        requires
            self.wf(),
            grid.wf(),
            grid.wc == self.geom.wc,
            grid.hc == self.geom.hc,
        ensures
            r.0@ == legend_text(shown(self.geo.landmarks@, grid.marks(), self.geom)),
            r.1 == shown(self.geo.landmarks@, grid.marks(), self.geom).len(),
    {
        let ghost marks = self.geo.landmarks@;
        let ghost cells = grid.marks();
        let mut out = String::new();
        let mut n: usize = 0;
        let mut k: usize = 0;
        assert(shown(marks.take(0), cells, self.geom) =~= Seq::<Landmark>::empty());
        assert(shown(marks.take(0), cells, self.geom).map_values(|m: Landmark| legend_line(m))
            =~= Seq::<Seq<char>>::empty());
        while k < self.geo.landmarks.len()
            invariant
                k <= self.geo.landmarks@.len(),
                n <= k,
                self.wf(),
                grid.wf(),
                grid.wc == self.geom.wc,
                grid.hc == self.geom.hc,
                marks == self.geo.landmarks@,
                cells == grid.marks(),
                out@ == legend_text(shown(marks.take(k as int), cells, self.geom)),
                n == shown(marks.take(k as int), cells, self.geom).len(),
            decreases self.geo.landmarks@.len() - k,
        {
            let m = &self.geo.landmarks[k];
            let ghost before = shown(marks.take(k as int), cells, self.geom);
            proof {
                assert(marks.take(k + 1).drop_last() =~= marks.take(k as int));
                assert(marks.take(k + 1).last() == *m);
            }
            let visible: bool = match project_cell(m.lat, m.lon, &self.geom) {
                Some((c, r)) => match grid.cell_at(c, r) {
                    Some(ch) => ch == m.marker,
                    None => false,
                },
                None => false,
            };
            if visible {
                let ghost o0 = out@;
                out.append("  ");
                text::push_char(&mut out, m.marker);
                out.append("  ");
                out.append(m.name.as_str());
                out.append("\n");
                n = n + 1;
                proof {
                    let lines = before.map_values(|m: Landmark| legend_line(m));
                    let after = before.push(*m).map_values(|m: Landmark| legend_line(m));
                    assert(after =~= lines.push(legend_line(*m)));
                    assert(after.drop_last() =~= lines);
                    assert(out@ =~= o0 + legend_line(*m));
                }
            }
            k = k + 1;
        }
        assert(marks.take(k as int) =~= marks);
        (out, n)
    }

    /// The names of the expressways.
    fn road_list(&self) -> (r: Vec<String>)
        ensures
            text::views(r@) == road_names(self.geo.expressways@),
    {
        let ghost names = road_names(self.geo.expressways@);
        let mut out: Vec<String> = Vec::new();
        let mut k: usize = 0;
        assert(text::views(out@) =~= names.take(0));
        while k < self.geo.expressways.len()
            invariant
                k <= self.geo.expressways@.len(),
                names == road_names(self.geo.expressways@),
                text::views(out@) == names.take(k as int),
            decreases self.geo.expressways@.len() - k,
        {
            let ghost before = out@;
            out.push(self.geo.expressways[k].name.as_str().to_owned());
            assert(text::views(out@) =~= text::views(before).push(names[k as int]));
            k = k + 1;
            assert(text::views(out@) =~= names.take(k as int));
        }
        assert(names.take(k as int) =~= names);
        out
    }

    /// Clone the static base, paint live trains, and assemble the page. The grid
    /// body is colourised when `ansi`.
    fn build_page(&self, pos: &Positions, source_name: &str, ansi: bool) -> (r: String)
        requires
            self.wf(),
        ensures
            r@ == atlas_text(self.geo, self.geom, pos@, source_name@, ansi),
    {
        let mut grid = self.base.clone();
        let plotted: usize = paint_trains(&mut grid, &pos.trains, &self.geom);
        assert(grid.marks() == page_marks(self.geo, self.geom, pos@.trains));
        let (legend, visible) = self.legend(&grid);
        let rule = page::dashed_rule(self.geom.wc);
        let body = if ansi {
            grid.render_ansi()
        } else {
            grid.render()
        };
        let mut out = "CTA 'L' -- geographic atlas\n".to_owned();
        page::push_feed_lines(&mut out, pos, source_name);
        out.append("overlay: ");
        out.append(self.geo.meta.name.as_str());
        out.append(" (");
        out.append(self.geo.shoreline.name.as_str());
        out.append(")\nview: north up; west = city, east = Lake Michigan\n");
        out.append(rule.as_str());
        out.append("\n");
        out.append(body.as_str());
        out.append("\n");
        out.append(rule.as_str());
        out.append("\n");
        text::push_dec(&mut out, plotted as u128);
        out.append(" trains plotted of ");
        text::push_dec(&mut out, pos.trains.len() as u128);
        out.append(" reporting.  ");
        text::push_dec(&mut out, visible as u128);
        out.append(" of ");
        text::push_dec(&mut out, self.geo.landmarks.len() as u128);
        out.append(" landmarks shown.  ");
        text::push_dec(&mut out, visible as u128);
        out.append(" places named.\n");
        out.append("bbox lat[41.65..42.07] lon[-87.9..-87.45]\n");
        let mut roads = "".to_owned();
        if self.geo.expressways.len() > 0 {
            let names = self.road_list();
            let list = text::join(&names, "; ");
            roads = "expressways  (= | / \\):  ".to_owned();
            roads.append(list.as_str());
            roads.append("\n");
        }
        out.append(roads.as_str());
        out.append("\nLANDMARKS  (marker -> place)\n");
        out.append(legend.as_str());
        page::push_line_counts(&mut out, pos);
        reveal(atlas_text);
        out
    }

    /// Menu of every landmark, each drilling into its detail page. The menu lists
    /// all of them (not just those that show on the grid), so a covered or off-map
    /// landmark is still reachable.
    pub fn landmarks_menu(&self) -> (r: Vec<Entry>)
        ensures
            render::entry_views(r@) == landmark_entries(self.geo.landmarks@),
    {
        let mut e: Vec<Entry> = Vec::new();
        assert(render::entry_views(e@) =~= Seq::<EntryView>::empty());
        render::add_entry(&mut e, render::info("Chicago landmarks"));
        let rule = text::repeat('=', 40);
        render::add_entry(&mut e, render::info(rule.as_str()));
        render::add_entry(&mut e, render::info("Marker letters key the /atlas.txt grid."));
        render::add_entry(&mut e, render::info(""));
        let ghost head = render::entry_views(e@);
        let ghost rows = self.geo.landmarks@.map_values(|m: Landmark| landmark_entry(m));
        let mut k: usize = 0;
        assert(head =~= head + rows.take(0));
        while k < self.geo.landmarks.len()
            invariant
                k <= self.geo.landmarks@.len(),
                rows == self.geo.landmarks@.map_values(|m: Landmark| landmark_entry(m)),
                render::entry_views(e@) == head + rows.take(k as int),
            decreases self.geo.landmarks@.len() - k,
        {
            let m = &self.geo.landmarks[k];
            let mut display = String::new();
            text::push_char(&mut display, m.marker);
            assert(display@ =~= seq![m.marker]);
            display.append("  ");
            display.append(m.name.as_str());
            display.append(" (");
            display.append(m.category.as_str());
            display.append(")");
            let selector = landmark_selector(m.marker);
            render::add_entry(
                &mut e,
                render::link(ItemKind::Text, display.as_str(), selector.as_str()),
            );
            assert(rows[k as int] == landmark_entry(*m));
            k = k + 1;
            assert(render::entry_views(e@) =~= head + rows.take(k as int));
        }
        assert(rows.take(k as int) =~= rows);
        e
    }

    /// (marker, detail-page text) for every landmark, for writing the tree.
    pub fn landmark_pages(&self) -> (r: Vec<(char, String)>)
        ensures
            r@.len() == self.geo.landmarks@.len(),
            forall|i: int|
                0 <= i < r@.len() ==> (#[trigger] r@[i]).0 == self.geo.landmarks@[i].marker
                    && r@[i].1@ == landmark_text(
                    self.geo.landmarks@,
                    self.geo.landmarks@[i].marker,
                ),
    {
        let mut out: Vec<(char, String)> = Vec::new();
        let mut k: usize = 0;
        while k < self.geo.landmarks.len()
            invariant
                k <= self.geo.landmarks@.len(),
                out@.len() == k,
                forall|i: int|
                    0 <= i < k ==> (#[trigger] out@[i]).0 == self.geo.landmarks@[i].marker
                        && out@[i].1@ == landmark_text(
                        self.geo.landmarks@,
                        self.geo.landmarks@[i].marker,
                    ),
            decreases self.geo.landmarks@.len() - k,
        {
            let marker: char = self.geo.landmarks[k].marker;
            out.push((marker, self.landmark_page(marker)));
            k = k + 1;
        }
        out
    }

    /// The detail page (text) for one landmark by its marker. An unknown marker
    /// yields a clean notice.
    pub fn landmark_page(&self, marker: char) -> (r: String)
        ensures
            r@ == landmark_text(self.geo.landmarks@, marker),
    {
        let ghost marks = self.geo.landmarks@;
        let rule = text::repeat('=', 40);
        let mut k: usize = 0;
        assert(marks.skip(0) =~= marks);
        while k < self.geo.landmarks.len()
            invariant
                k <= self.geo.landmarks@.len(),
                marks == self.geo.landmarks@,
                rule@ == text::filled('=', 40),
                first_marked(marks, marker) == first_marked(marks.skip(k as int), marker),
            decreases self.geo.landmarks@.len() - k,
        {
            let m = &self.geo.landmarks[k];
            proof {
                assert(marks.skip(k as int)[0] == *m);
                assert(marks.skip(k as int).drop_first() =~= marks.skip(k + 1));
            }
            if m.marker == marker {
                let lat = project::degrees_text(m.lat);
                let lon = project::degrees_text(m.lon);
                let mut out = m.name.as_str().to_owned();
                out.append("\n");
                out.append(rule.as_str());
                out.append("\n\ncategory:     ");
                out.append(m.category.as_str());
                out.append("\natlas marker: ");
                text::push_char(&mut out, m.marker);
                out.append("\nposition:     ");
                out.append(lat.as_str());
                out.append(", ");
                out.append(lon.as_str());
                out.append("\n\nPlotted on the geographic atlas (/atlas.txt) at marker '");
                text::push_char(&mut out, m.marker);
                out.append("'.\n");
                out.append(
                    "The CTA positions feed carries no station geometry, so a nearest-'L'\n",
                );
                out.append("stop isn't available here.\n");
                return out;
            }
            k = k + 1;
        }
        let mut out = "Unknown landmark '".to_owned();
        text::push_char(&mut out, marker);
        out.append("'\n");
        out.append(rule.as_str());
        out.append("\n\nNo landmark uses this marker. Head back to the landmarks menu.\n");
        out
    }
}

// ---------- laws of the atlas ----------

/// Whether no stroke of a list is above a layer.
pub open spec fn at_most(strokes: Seq<Stroke>, prio: u8) -> bool {
    forall|j: int| 0 <= j < strokes.len() ==> (#[trigger] strokes[j]).mark.prio <= prio
}

proof fn at_most_concat(a: Seq<Stroke>, b: Seq<Stroke>, prio: u8)
    requires
        at_most(a, prio),
        at_most(b, prio),
    ensures
        at_most(a + b, prio),
{
    assert forall|j: int| 0 <= j < (a + b).len() implies (#[trigger] (a + b)[j]).mark.prio
        <= prio by {
        if j < a.len() {
            assert((a + b)[j] == a[j]);
        } else {
            assert((a + b)[j] == b[j - a.len()]);
        }
    }
}

proof fn line_is_low(pts: Seq<[i64; 2]>, geo: Geometry, road: bool)
    ensures
        at_most(line_strokes(pts, geo, road), PRIO_EXPRESSWAY),
    decreases pts.len(),
{
    if pts.len() >= 2 {
        line_is_low(pts.drop_last(), geo, road);
        let seg = segment_strokes(pts[pts.len() - 2], pts[pts.len() - 1], geo, road);
        assert(at_most(seg, PRIO_EXPRESSWAY));
        at_most_concat(line_strokes(pts.drop_last(), geo, road), seg, PRIO_EXPRESSWAY);
    }
}

proof fn roads_are_low(roads: Seq<Expressway>, geo: Geometry)
    ensures
        at_most(road_strokes(roads, geo), PRIO_EXPRESSWAY),
    decreases roads.len(),
{
    if roads.len() > 0 {
        roads_are_low(roads.drop_last(), geo);
        line_is_low(roads.last().points@, geo, true);
        at_most_concat(
            road_strokes(roads.drop_last(), geo),
            line_strokes(roads.last().points@, geo, true),
            PRIO_EXPRESSWAY,
        );
    }
}

proof fn landmarks_are_low(marks: Seq<Landmark>, geo: Geometry)
    ensures
        at_most(landmark_strokes(marks, geo), PRIO_LANDMARK),
    decreases marks.len(),
{
    if marks.len() > 0 {
        landmarks_are_low(marks.drop_last(), geo);
    }
}

proof fn trains_are_between(trains: Seq<TrainView>, geo: Geometry)
    ensures
        at_most(train_strokes(trains, geo), PRIO_TRAIN),
    decreases trains.len(),
{
    if trains.len() > 0 {
        trains_are_between(trains.drop_last(), geo);
    }
}

/// The scene below the lake's name: shoreline, expressways and landmarks.
pub open spec fn ground_strokes(geo: GeoData, geom: Geometry) -> Seq<Stroke> {
    line_strokes(geo.shoreline.points@, geom, false) + road_strokes(geo.expressways@, geom)
        + landmark_strokes(geo.landmarks@, geom)
}

proof fn ground_is_low(geo: GeoData, geom: Geometry)
    ensures
        at_most(ground_strokes(geo, geom), PRIO_LANDMARK),
{
    let a = line_strokes(geo.shoreline.points@, geom, false);
    let b = road_strokes(geo.expressways@, geom);
    line_is_low(geo.shoreline.points@, geom, false);
    roads_are_low(geo.expressways@, geom);
    landmarks_are_low(geo.landmarks@, geom);
    at_most_concat(a, b, PRIO_LANDMARK);
    at_most_concat(a + b, landmark_strokes(geo.landmarks@, geom), PRIO_LANDMARK);
}

/// In the cell of the train painted last its arrow shows, in its line's colour,
/// unless a letter of the lake's name stands there: no shoreline, expressway,
/// landmark or other train covers it.
pub proof fn law_last_train_shows(
    geo: GeoData,
    geom: Geometry,
    trains: Seq<TrainView>,
    t: TrainView,
)
    requires
        geom.plottable(),
        cell_of(t.lat, t.lon, geom) matches Some((c, r)) && chargrid::in_frame(
            c,
            r,
            geom.wc as int,
            geom.hc as int,
        ) && base_marks(geo, geom)[crate::grid::slot(c, r, geom.wc as int)].prio < PRIO_LABEL,
    ensures
        ({
            let (c, r) = cell_of(t.lat, t.lon, geom)->0;
            page_marks(geo, geom, trains.push(t))[crate::grid::slot(c, r, geom.wc as int)]
                == (Mark {
                glyph: arrow_glyph(t.heading),
                prio: PRIO_TRAIN,
                color: render::ansi_of(t.line),
            })
        }),
{
    let w = geom.wc as int;
    let h = geom.hc as int;
    let (c, r) = cell_of(t.lat, t.lon, geom)->0;
    let blank = Seq::new((geom.wc * geom.hc) as nat, |i: int| chargrid::blank());
    let ground = ground_strokes(geo, geom);
    let lake = lake_strokes(geom, lake_label().len());
    let base = base_marks(geo, geom);
    let before = train_strokes(trains, geom);
    assert(0 <= geom.wc * geom.hc) by (nonlinear_arith);
    chargrid::painted_all_len(blank, w, h, scene_strokes(geo, geom));
    crate::grid::slot_in_range(c, r, w, h);
    ground_is_low(geo, geom);
    chargrid::prio_is_bounded(blank, w, h, ground, c, r, PRIO_LANDMARK);
    chargrid::painted_all_concat(blank, w, h, ground, lake);
    let low = chargrid::painted_all(blank, w, h, ground);
    chargrid::painted_all_len(blank, w, h, ground);
    lake_cell_is_lake_or_untouched(low, geom, lake_label().len(), crate::grid::slot(c, r, w));
    trains_are_between(trains, geom);
    chargrid::prio_is_bounded(base, w, h, before, c, r, PRIO_TRAIN);
    chargrid::painted_all_len(base, w, h, before);
    let all = train_strokes(trains.push(t), geom);
    assert(trains.push(t).drop_last() =~= trains);
    assert(all.drop_last() =~= before);
}

/// Under the lake's strokes a cell keeps its mark or takes one of the lake's layer.
proof fn lake_cell_is_lake_or_untouched(cells: Seq<Mark>, geom: Geometry, n: nat, i: int)
    requires
        cells.len() == geom.wc * geom.hc,
        0 <= i < cells.len(),
    ensures
        ({
            let after = chargrid::painted_all(
                cells,
                geom.wc as int,
                geom.hc as int,
                lake_strokes(geom, n),
            );
            after[i] == cells[i] || after[i].prio == PRIO_LABEL
        }),
    decreases n,
{
    let w = geom.wc as int;
    let h = geom.hc as int;
    if n > 0 {
        let k = n - 1;
        let before = lake_strokes(geom, k as nat);
        lake_cell_is_lake_or_untouched(cells, geom, k as nat, i);
        chargrid::painted_all_len(cells, w, h, before);
        if lake_letter(k) != ' ' {
            let all = lake_strokes(geom, n);
            assert(all.drop_last() =~= before);
            let last = all.last();
            if chargrid::in_frame(last.col, last.row, w, h) {
                crate::grid::slot_in_range(last.col, last.row, w, h);
            }
        }
    }
}

/// The mark of letter `i` of the lake's name.
pub open spec fn lake_mark(i: int) -> Mark {
    Mark { glyph: lake_letter(i), prio: PRIO_LABEL, color: WATER_COLOR }
}

proof fn lake_letters_stand(cells: Seq<Mark>, geom: Geometry, n: nat, i: int)
    requires
        cells.len() == geom.wc * geom.hc,
        0 <= i < n,
        lake_letter(i) != ' ',
        chargrid::in_frame(
            geom.wc - 2,
            lake_start(geom.hc as int) + i,
            geom.wc as int,
            geom.hc as int,
        ),
        cells[crate::grid::slot(
            geom.wc - 2,
            lake_start(geom.hc as int) + i,
            geom.wc as int,
        )].prio <= PRIO_LABEL,
    ensures
        chargrid::painted_all(
            cells,
            geom.wc as int,
            geom.hc as int,
            lake_strokes(geom, n),
        )[crate::grid::slot(geom.wc - 2, lake_start(geom.hc as int) + i, geom.wc as int)]
            == lake_mark(i),
    decreases n,
{
    let w = geom.wc as int;
    let h = geom.hc as int;
    let c = geom.wc - 2;
    let r = lake_start(geom.hc as int) + i;
    let k = n - 1;
    let before = lake_strokes(geom, k as nat);
    let all = lake_strokes(geom, n);
    crate::grid::slot_in_range(c, r, w, h);
    chargrid::painted_all_len(cells, w, h, before);
    if lake_letter(k) != ' ' {
        assert(all.drop_last() =~= before);
    }
    if i == k {
        lake_cell_is_lake_or_untouched(cells, geom, k as nat, crate::grid::slot(c, r, w));
    } else {
        lake_letters_stand(cells, geom, k as nat, i);
        if lake_letter(k) != ' ' {
            let last = all.last();
            if chargrid::in_frame(last.col, last.row, w, h) {
                crate::grid::slot_in_range(last.col, last.row, w, h);
                if crate::grid::slot(last.col, last.row, w) == crate::grid::slot(c, r, w) {
                    crate::grid::slot_injective(last.col, last.row, c, r, w);
                }
            }
        }
    }
}

/// Whatever trains run, every letter of the lake's name shows where it lies on the
/// grid.
pub proof fn law_lake_label_always_shows(
    geo: GeoData,
    geom: Geometry,
    trains: Seq<TrainView>,
    i: int,
)
    requires
        geom.plottable(),
        0 <= i < lake_label().len(),
        lake_letter(i) != ' ',
        chargrid::in_frame(
            geom.wc - 2,
            lake_start(geom.hc as int) + i,
            geom.wc as int,
            geom.hc as int,
        ),
    ensures
        page_marks(geo, geom, trains)[crate::grid::slot(
            geom.wc - 2,
            lake_start(geom.hc as int) + i,
            geom.wc as int,
        )] == lake_mark(i),
{
    let w = geom.wc as int;
    let h = geom.hc as int;
    let c = geom.wc - 2;
    let r = lake_start(geom.hc as int) + i;
    let blank = Seq::new((geom.wc * geom.hc) as nat, |i: int| chargrid::blank());
    let ground = ground_strokes(geo, geom);
    let lake = lake_strokes(geom, lake_label().len());
    assert(0 <= geom.wc * geom.hc) by (nonlinear_arith);
    crate::grid::slot_in_range(c, r, w, h);
    ground_is_low(geo, geom);
    chargrid::prio_is_bounded(blank, w, h, ground, c, r, PRIO_LANDMARK);
    chargrid::painted_all_concat(blank, w, h, ground, lake);
    chargrid::painted_all_len(blank, w, h, ground);
    chargrid::painted_all_len(blank, w, h, scene_strokes(geo, geom));
    lake_letters_stand(
        chargrid::painted_all(blank, w, h, ground),
        geom,
        lake_label().len(),
        i,
    );
    trains_are_between(trains, geom);
    chargrid::law_lower_layers_do_not_cover(
        base_marks(geo, geom),
        w,
        h,
        train_strokes(trains, geom),
        crate::grid::slot(c, r, w),
    );
}

/// The legend lists a landmark exactly when the overlay has it and its marker shows
/// on the grid.
pub proof fn law_legend_lists_what_shows(
    marks: Seq<Landmark>,
    cells: Seq<Mark>,
    geo: Geometry,
    m: Landmark,
)
    ensures
        shown(marks, cells, geo).contains(m) <==> (marks.contains(m) && shows(m, cells, geo)),
    decreases marks.len(),
{
    if marks.len() > 0 {
        let rest = marks.drop_last();
        let last = marks.last();
        law_legend_lists_what_shows(rest, cells, geo, m);
        let before = shown(rest, cells, geo);
        assert(marks =~= rest.push(last));
        assert(rest.push(last).contains(m) <==> (rest.contains(m) || m == last)) by {
            push_contains(rest, last, m);
        }
        push_contains(before, last, m);
    }
}

proof fn push_contains(s: Seq<Landmark>, x: Landmark, m: Landmark)
    ensures
        s.push(x).contains(m) <==> (s.contains(m) || m == x),
{
    if s.contains(m) {
        let k = choose|k: int| 0 <= k < s.len() && s[k] == m;
        assert(s.push(x)[k] == m);
    }
    if m == x {
        assert(s.push(x)[s.len() as int] == m);
    }
    if s.push(x).contains(m) && m != x {
        let k = choose|k: int| 0 <= k < s.push(x).len() && s.push(x)[k] == m;
        assert(s[k] == m);
    }
}

/// Every landmark of the menu has a detail page: that of the first landmark with
/// its marker, which is its own where no landmark before it has that marker.
pub proof fn law_every_landmark_has_its_page(marks: Seq<Landmark>, i: int)
    requires
        0 <= i < marks.len(),
    ensures
        first_marked(marks, marks[i].marker) matches Some(m) && m.marker == marks[i].marker,
        (forall|j: int| 0 <= j < i ==> (#[trigger] marks[j]).marker != marks[i].marker)
            ==> first_marked(marks, marks[i].marker) == Some(marks[i]),
    decreases marks.len(),
{
    if marks[0].marker != marks[i].marker {
        let rest = marks.drop_first();
        assert(rest[i - 1] == marks[i]);
        law_every_landmark_has_its_page(rest, i - 1);
        if forall|j: int| 0 <= j < i ==> (#[trigger] marks[j]).marker != marks[i].marker {
            assert forall|j: int| 0 <= j < i - 1 implies (#[trigger] rest[j]).marker
                != rest[i - 1].marker by {
                assert(rest[j] == marks[j + 1]);
            }
        }
    } else if i > 0 {
        assert(marks[0].marker == marks[i].marker);
    }
}

// ---------- the plain atlas holds no colour ----------

/// Whether no stroke of a list paints the escape character.
pub open spec fn clean_strokes(strokes: Seq<Stroke>) -> bool {
    forall|j: int| 0 <= j < strokes.len() ==> (#[trigger] strokes[j]).mark.glyph != page::ESCAPE
}

/// Whether no name and no marker of an overlay holds the escape character.
pub open spec fn overlay_is_clean(geo: GeoData) -> bool {
    &&& text::lacks(geo.meta.name@, page::ESCAPE)
    &&& text::lacks(geo.shoreline.name@, page::ESCAPE)
    &&& forall|i: int|
        0 <= i < geo.expressways@.len() ==> text::lacks(
            (#[trigger] geo.expressways@[i]).name@,
            page::ESCAPE,
        )
    &&& marks_are_clean(geo.landmarks@)
}

/// Whether no name and no marker of a list of landmarks holds the escape character.
pub open spec fn marks_are_clean(marks: Seq<Landmark>) -> bool {
    forall|i: int|
        0 <= i < marks.len() ==> text::lacks((#[trigger] marks[i]).name@, page::ESCAPE)
            && marks[i].marker != page::ESCAPE
}

proof fn clean_concat(a: Seq<Stroke>, b: Seq<Stroke>)
    requires
        clean_strokes(a),
        clean_strokes(b),
    ensures
        clean_strokes(a + b),
{
    assert forall|j: int| 0 <= j < (a + b).len() implies (#[trigger] (a + b)[j]).mark.glyph
        != page::ESCAPE by {
        if j < a.len() {
            assert((a + b)[j] == a[j]);
        } else {
            assert((a + b)[j] == b[j - a.len()]);
        }
    }
}

proof fn line_is_clean(pts: Seq<[i64; 2]>, geo: Geometry, road: bool)
    ensures
        clean_strokes(line_strokes(pts, geo, road)),
    decreases pts.len(),
{
    if pts.len() >= 2 {
        line_is_clean(pts.drop_last(), geo, road);
        let seg = segment_strokes(pts[pts.len() - 2], pts[pts.len() - 1], geo, road);
        assert(clean_strokes(seg));
        clean_concat(line_strokes(pts.drop_last(), geo, road), seg);
    }
}

proof fn roads_are_clean(roads: Seq<Expressway>, geo: Geometry)
    ensures
        clean_strokes(road_strokes(roads, geo)),
    decreases roads.len(),
{
    if roads.len() > 0 {
        roads_are_clean(roads.drop_last(), geo);
        line_is_clean(roads.last().points@, geo, true);
        clean_concat(
            road_strokes(roads.drop_last(), geo),
            line_strokes(roads.last().points@, geo, true),
        );
    }
}

proof fn landmarks_are_clean(marks: Seq<Landmark>, geo: Geometry)
    requires
        marks_are_clean(marks),
    ensures
        clean_strokes(landmark_strokes(marks, geo)),
    decreases marks.len(),
{
    if marks.len() > 0 {
        let front = marks.drop_last();
        assert forall|i: int| 0 <= i < front.len() implies text::lacks(
            (#[trigger] front[i]).name@,
            page::ESCAPE,
        ) && front[i].marker != page::ESCAPE by {
            assert(front[i] == marks[i]);
        }
        assert(marks[marks.len() - 1] == marks.last());
        landmarks_are_clean(front, geo);
    }
}

proof fn lake_is_clean(geo: Geometry, n: nat)
    requires
        n <= lake_label().len(),
    ensures
        clean_strokes(lake_strokes(geo, n)),
    decreases n,
{
    if n > 0 {
        lake_is_clean(geo, (n - 1) as nat);
        assert(lake_letter(n - 1) != page::ESCAPE) by {
            reveal_strlit("LAKE MICHIGAN");
        }
    }
}

proof fn trains_are_clean(trains: Seq<TrainView>, geo: Geometry)
    ensures
        clean_strokes(train_strokes(trains, geo)),
    decreases trains.len(),
{
    if trains.len() > 0 {
        trains_are_clean(trains.drop_last(), geo);
    }
}

proof fn painting_stays_clean(cells: Seq<Mark>, w: int, h: int, strokes: Seq<Stroke>)
    requires
        cells.len() == w * h,
        chargrid::escape_free(cells),
        clean_strokes(strokes),
    ensures
        chargrid::painted_all(cells, w, h, strokes).len() == w * h,
        chargrid::escape_free(chargrid::painted_all(cells, w, h, strokes)),
    decreases strokes.len(),
{
    chargrid::painted_all_len(cells, w, h, strokes);
    if strokes.len() > 0 {
        let front = strokes.drop_last();
        let last = strokes.last();
        assert(strokes[strokes.len() - 1] == last);
        assert forall|j: int| 0 <= j < front.len() implies (#[trigger] front[j]).mark.glyph
            != page::ESCAPE by {
            assert(front[j] == strokes[j]);
        }
        painting_stays_clean(cells, w, h, front);
        if chargrid::in_frame(last.col, last.row, w, h) {
            crate::grid::slot_in_range(last.col, last.row, w, h);
        }
    }
}

proof fn page_is_clean(geo: GeoData, geom: Geometry, trains: Seq<TrainView>)
    requires
        overlay_is_clean(geo),
    ensures
        page_marks(geo, geom, trains).len() == geom.wc * geom.hc,
        chargrid::escape_free(page_marks(geo, geom, trains)),
{
    let w = geom.wc as int;
    let h = geom.hc as int;
    assert(0 <= w * h) by (nonlinear_arith)
        requires
            0 <= w,
            0 <= h,
    ;
    let blank = Seq::new((geom.wc * geom.hc) as nat, |i: int| chargrid::blank());
    let shore = line_strokes(geo.shoreline.points@, geom, false);
    let roads = road_strokes(geo.expressways@, geom);
    let marks = landmark_strokes(geo.landmarks@, geom);
    let lake = lake_strokes(geom, lake_label().len());
    line_is_clean(geo.shoreline.points@, geom, false);
    roads_are_clean(geo.expressways@, geom);
    landmarks_are_clean(geo.landmarks@, geom);
    lake_is_clean(geom, lake_label().len());
    clean_concat(shore, roads);
    clean_concat(shore + roads, marks);
    clean_concat(shore + roads + marks, lake);
    painting_stays_clean(blank, w, h, scene_strokes(geo, geom));
    trains_are_clean(trains, geom);
    painting_stays_clean(base_marks(geo, geom), w, h, train_strokes(trains, geom));
}

proof fn plain_rows_are_clean(cells: Seq<Mark>, w: int, h: int)
    requires
        0 <= w,
        0 <= h,
        cells.len() == w * h,
        chargrid::escape_free(cells),
    ensures
        text::lacks(text::joined(chargrid::plain_rows(cells, w, h), "\n"@), page::ESCAPE),
{
    let rows = chargrid::plain_rows(cells, w, h);
    assert forall|r: int| 0 <= r < rows.len() implies text::lacks(
        #[trigger] rows[r],
        page::ESCAPE,
    ) by {
        let row = chargrid::glyph_row(cells, w, r);
        assert forall|c: int| 0 <= c < row.len() implies #[trigger] row[c] != page::ESCAPE by {
            crate::grid::slot_in_range(c, r, w, h);
            assert(row[c] == cells[crate::grid::slot(c, r, w)].glyph);
        }
        assert(text::lacks(row, page::ESCAPE)) by {
            reveal(text::lacks);
        }
        text::trim_end_lacks(row, page::ESCAPE);
    }
    page::blank_texts_hold_no_escape();
    text::joined_lacks(rows, "\n"@, page::ESCAPE);
}

proof fn shown_are_clean(marks: Seq<Landmark>, cells: Seq<Mark>, geo: Geometry)
    requires
        marks_are_clean(marks),
    ensures
        marks_are_clean(shown(marks, cells, geo)),
    decreases marks.len(),
{
    if marks.len() > 0 {
        let front = marks.drop_last();
        assert forall|i: int| 0 <= i < front.len() implies text::lacks(
            (#[trigger] front[i]).name@,
            page::ESCAPE,
        ) && front[i].marker != page::ESCAPE by {
            assert(front[i] == marks[i]);
        }
        assert(marks[marks.len() - 1] == marks.last());
        shown_are_clean(front, cells, geo);
    }
}

proof fn legend_is_clean(marks: Seq<Landmark>)
    requires
        marks_are_clean(marks),
    ensures
        text::lacks(legend_text(marks), page::ESCAPE),
{
    broadcast use text::lacks_both;

    let lines = marks.map_values(|m: Landmark| legend_line(m));
    page::blank_texts_hold_no_escape();
    assert forall|i: int| 0 <= i < lines.len() implies text::lacks(
        #[trigger] lines[i],
        page::ESCAPE,
    ) by {
        let m = marks[i];
        assert(text::lacks(seq![m.marker], page::ESCAPE)) by {
            reveal(text::lacks);
        }
        assert(lines[i] == legend_line(m));
    }
    text::concat_lacks(lines, page::ESCAPE);
}

proof fn roads_line_is_clean(roads: Seq<Expressway>)
    requires
        forall|i: int|
            0 <= i < roads.len() ==> text::lacks((#[trigger] roads[i]).name@, page::ESCAPE),
    ensures
        text::lacks(roads_line(roads), page::ESCAPE),
{
    broadcast use text::lacks_both;

    let names = road_names(roads);
    page::blank_texts_hold_no_escape();
    assert(text::lacks("expressways  (= | / \\):  "@, page::ESCAPE) && text::lacks(
        "; "@,
        page::ESCAPE,
    )) by {
        reveal(text::lacks);
        reveal_strlit("expressways  (= | / \\):  ");
        reveal_strlit("; ");
    }
    assert forall|i: int| 0 <= i < names.len() implies text::lacks(
        #[trigger] names[i],
        page::ESCAPE,
    ) by {
        assert(names[i] == roads[i].name@);
    }
    text::joined_lacks(names, "; "@, page::ESCAPE);
}

/// The plain atlas shows without colour on any client: it does not hold the escape
/// character, with which colour sequences start. This holds where neither the overlay,
/// nor the name of the source, nor the time of the feed holds it.
pub proof fn law_plain_atlas_holds_no_escape(
    geo: GeoData,
    geom: Geometry,
    pos: PositionsView,
    source_name: Seq<char>,
)
    requires
        overlay_is_clean(geo),
        text::lacks(source_name, page::ESCAPE),
        page::feed_time_is_clean(pos),
    ensures
        text::lacks(atlas_text(geo, geom, pos, source_name, false), page::ESCAPE),
{
    broadcast use text::lacks_both;

    let cells = page_marks(geo, geom, pos.trains);
    let visible = shown(geo.landmarks@, cells, geom);
    page_is_clean(geo, geom, pos.trains);
    plain_rows_are_clean(cells, geom.wc as int, geom.hc as int);
    shown_are_clean(geo.landmarks@, cells, geom);
    legend_is_clean(visible);
    roads_line_is_clean(geo.expressways@);
    page::blank_texts_hold_no_escape();
    page::feed_lines_hold_no_escape(pos, source_name);
    page::line_counts_hold_no_escape(pos.trains);
    let dashes = page::dashes(geom.wc as nat);
    text::filled_lacks('-', dashes.len(), page::ESCAPE);
    assert(dashes =~= text::filled('-', dashes.len()));
    text::dec_lacks(page::plotted_count(pos.trains), page::ESCAPE);
    text::dec_lacks(pos.trains.len(), page::ESCAPE);
    text::dec_lacks(visible.len(), page::ESCAPE);
    text::dec_lacks(geo.landmarks@.len(), page::ESCAPE);
    atlas_words_hold_no_escape();
    reveal(atlas_text);
}

proof fn atlas_words_hold_no_escape()
    ensures
        text::lacks("CTA 'L' -- geographic atlas\n"@, page::ESCAPE),
        text::lacks("overlay: "@, page::ESCAPE),
        text::lacks(" ("@, page::ESCAPE),
        text::lacks(
            ")\nview: north up; west = city, east = Lake Michigan\n"@,
            page::ESCAPE,
        ),
        text::lacks(" trains plotted of "@, page::ESCAPE),
        text::lacks(" reporting.  "@, page::ESCAPE),
        text::lacks(" of "@, page::ESCAPE),
        text::lacks(" landmarks shown.  "@, page::ESCAPE),
        text::lacks(" places named.\n"@, page::ESCAPE),
        text::lacks("bbox lat[41.65..42.07] lon[-87.9..-87.45]\n"@, page::ESCAPE),
        text::lacks("\nLANDMARKS  (marker -> place)\n"@, page::ESCAPE),
{
    reveal(text::lacks);
    reveal_strlit("CTA 'L' -- geographic atlas\n");
    reveal_strlit("overlay: ");
    reveal_strlit(" (");
    reveal_strlit(")\nview: north up; west = city, east = Lake Michigan\n");
    reveal_strlit(" trains plotted of ");
    reveal_strlit(" reporting.  ");
    reveal_strlit(" of ");
    reveal_strlit(" landmarks shown.  ");
    reveal_strlit(" places named.\n");
    reveal_strlit("bbox lat[41.65..42.07] lon[-87.9..-87.45]\n");
    reveal_strlit("\nLANDMARKS  (marker -> place)\n");
}

} // verus!
