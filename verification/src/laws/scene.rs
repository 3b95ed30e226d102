//! What the atlas shows: coast, expressways, landmarks and trains, each where it is
//! and each over the one below it.

use crate::atlas;
use crate::atlas::{Expressway, GeoData, Landmark};
use crate::chargrid;
use crate::chargrid::{Mark, Stroke};
use crate::grid;
use crate::laws::reading::apart;
use crate::project;
use crate::project::Geometry;
use crate::raster;
use crate::render;
use crate::text;
use crate::transit::TrainView;
use vstd::prelude::*;

verus! {

/// The direction, in degrees, in which an arrow points.
pub open spec fn pointing(arrow: char) -> int {
    if arrow == '^' {
        0
    } else if arrow == '>' {
        90
    } else if arrow == 'v' {
        180
    } else {
        270
    }
}

/// A train's arrow points in the cardinal direction nearest to its heading: at most
/// 45 degrees off, and clockwise where two are equally near. Without a heading a train
/// shows as a circle.
pub proof fn law_arrow_points_the_nearest_way(d: u16)
    ensures
        ({
            let a = atlas::arrow_glyph(Some(d));
            &&& a == '^' || a == '>' || a == 'v' || a == '<'
            &&& apart(d as int, pointing(a)) <= 45
            &&& (d - pointing(a)) % 360 != 45
        }),
        atlas::arrow_glyph(None) == 'o',
{
}

/// An expressway's glyph follows its slope: the same from either end, mirrored where
/// the road is mirrored, and turned where the road is turned by a right angle. It lies
/// flat exactly where the road runs at least twice as far across as down.
pub proof fn law_road_glyph_follows_the_slope(dx: int, dy: int)
    ensures
        atlas::slope_glyph(-dx, -dy) == atlas::slope_glyph(dx, dy),
        atlas::slope_glyph(dx, dy) == '=' <==> 4 * (dy * dy) <= dx * dx,
        atlas::slope_glyph(dx, dy) == '/' <==> atlas::slope_glyph(dx, -dy) == '\\',
        atlas::slope_glyph(dx, dy) == '/' ==> dx * dy < 0,
        atlas::slope_glyph(dx, dy) == '\\' ==> dx * dy > 0,
        (dx, dy) != (0int, 0int) ==> (atlas::slope_glyph(dx, dy) == '|' <==> atlas::slope_glyph(
            dy,
            -dx,
        ) == '='),
        atlas::slope_glyph(dx, dy) == '=' || atlas::slope_glyph(dx, dy) == '|'
            || atlas::slope_glyph(dx, dy) == '/' || atlas::slope_glyph(dx, dy) == '\\',
{
    let a = atlas::magnitude(dx);
    let b = atlas::magnitude(dy);
    assert(a >= 2 * b <==> 4 * (dy * dy) <= dx * dx) by {
        assert(dx * dx == a * a && dy * dy == b * b) by (nonlinear_arith)
            requires
                a == dx || a == -dx,
                b == dy || b == -dy,
        ;
        if a >= 2 * b {
            assert(4 * (b * b) <= a * a) by (nonlinear_arith)
                requires
                    a >= 2 * b,
                    b >= 0,
            ;
        } else {
            assert(4 * (b * b) > a * a) by (nonlinear_arith)
                requires
                    a < 2 * b,
                    a >= 0,
            ;
        }
    }
    if atlas::slope_glyph(dx, dy) == '/' || atlas::slope_glyph(dx, dy) == '\\' {
        assert(dx != 0 && dy != 0);
        assert(dx > 0 && dy > 0 || dx < 0 && dy < 0 ==> dx * dy > 0) by (nonlinear_arith);
        assert(dx > 0 && dy < 0 || dx < 0 && dy > 0 ==> dx * dy < 0) by (nonlinear_arith);
    }
}

/// Whether a point lies in a cell.
pub open spec fn lies_in(lat: i64, lon: i64, geom: Geometry, c: int, r: int) -> bool {
    project::projected(lat, lon, geom) matches Some((x, y)) && x / 2 == c && y / 4 == r
}

/// Whether a cell lies on the segment between the cells of two anchors that both lie
/// in the plotted area.
pub open spec fn links(p: [i64; 2], q: [i64; 2], geom: Geometry, c: int, r: int) -> bool {
    match (project::projected(p@[0], p@[1], geom), project::projected(q@[0], q@[1], geom)) {
        (Some(a), Some(b)) => raster::segment(a.0 / 2, a.1 / 4, b.0 / 2, b.1 / 4).contains((c, r)),
        _ => false,
    }
}

/// Whether a cell lies on the segment between anchor `i` of a line and the next one.
pub open spec fn stretch(pts: Seq<[i64; 2]>, i: int, geom: Geometry, c: int, r: int) -> bool {
    links(pts[i], pts[i + 1], geom, c, r)
}

/// Whether a cell lies on a line: on the segment between two anchors that follow each
/// other.
pub open spec fn along(pts: Seq<[i64; 2]>, geom: Geometry, c: int, r: int) -> bool {
    exists|i: int| 0 <= i < pts.len() - 1 && #[trigger] stretch(pts, i, geom, c, r)
}

/// The glyph of the slope from one anchor to another, in cells.
pub open spec fn slope_between(p: [i64; 2], q: [i64; 2], geom: Geometry) -> char {
    let a = project::projected(p@[0], p@[1], geom)->0;
    let b = project::projected(q@[0], q@[1], geom)->0;
    atlas::slope_glyph(b.0 / 2 - a.0 / 2, b.1 / 4 - a.1 / 4)
}

spec fn hit(strokes: Seq<Stroke>, c: int, r: int) -> bool {
    exists|j: int| 0 <= j < strokes.len() && (#[trigger] strokes[j]).col == c && strokes[j].row == r
}

proof fn one_stroke(cells: Seq<Mark>, w: int, h: int, s: Stroke, c: int, r: int)
    requires
        cells.len() == w * h,
        0 <= c < w,
        0 <= r < h,
    ensures
        ({
            let i = grid::slot(c, r, w);
            let after = chargrid::painted(cells, w, h, s);
            &&& after.len() == cells.len()
            &&& after[i] == (if s.col == c && s.row == r && s.mark.prio >= cells[i].prio {
                s.mark
            } else {
                cells[i]
            })
        }),
{
    grid::slot_in_range(c, r, w, h);
    if chargrid::in_frame(s.col, s.row, w, h) {
        grid::slot_in_range(s.col, s.row, w, h);
        if grid::slot(s.col, s.row, w) == grid::slot(c, r, w) {
            grid::slot_injective(s.col, s.row, c, r, w);
        }
    }
}

proof fn same_marks(cells: Seq<Mark>, w: int, h: int, strokes: Seq<Stroke>, m: Mark, c: int, r: int)
    requires
        cells.len() == w * h,
        0 <= c < w,
        0 <= r < h,
        forall|j: int| 0 <= j < strokes.len() ==> (#[trigger] strokes[j]).mark == m,
    ensures
        ({
            let i = grid::slot(c, r, w);
            let after = chargrid::painted_all(cells, w, h, strokes);
            &&& after.len() == cells.len()
            &&& after[i] == (if hit(strokes, c, r) && m.prio >= cells[i].prio {
                m
            } else {
                cells[i]
            })
        }),
    decreases strokes.len(),
{
    chargrid::painted_all_len(cells, w, h, strokes);
    if strokes.len() > 0 {
        let front = strokes.drop_last();
        let last = strokes.last();
        assert(strokes[strokes.len() - 1] == last);
        assert forall|j: int| 0 <= j < front.len() implies (#[trigger] front[j]).mark == m by {
            assert(front[j] == strokes[j]);
        }
        same_marks(cells, w, h, front, m, c, r);
        one_stroke(chargrid::painted_all(cells, w, h, front), w, h, last, c, r);
        if hit(front, c, r) {
            let j = choose|j: int|
                0 <= j < front.len() && (#[trigger] front[j]).col == c && front[j].row == r;
            assert(strokes[j] == front[j]);
        }
        if hit(strokes, c, r) {
            let j = choose|j: int|
                0 <= j < strokes.len() && (#[trigger] strokes[j]).col == c && strokes[j].row == r;
            if j < front.len() {
                assert(strokes[j] == front[j]);
            }
        }
    }
}

/// The mark of a line on its layer, between two anchors.
spec fn mark_between(p: [i64; 2], q: [i64; 2], geom: Geometry, road: bool) -> Mark {
    if road {
        Mark { glyph: slope_between(p, q, geom), prio: 2, color: 240 }
    } else {
        Mark { glyph: '#', prio: 1, color: 44 }
    }
}

proof fn segment_paints(
    cells: Seq<Mark>,
    geom: Geometry,
    p: [i64; 2],
    q: [i64; 2],
    road: bool,
    c: int,
    r: int,
)
    requires
        cells.len() == geom.wc * geom.hc,
        0 <= c < geom.wc,
        0 <= r < geom.hc,
    ensures
        ({
            let i = grid::slot(c, r, geom.wc as int);
            let m = mark_between(p, q, geom, road);
            let after = chargrid::painted_all(
                cells,
                geom.wc as int,
                geom.hc as int,
                atlas::segment_strokes(p, q, geom, road),
            );
            &&& after.len() == cells.len()
            &&& after[i] == (if links(p, q, geom, c, r) && m.prio >= cells[i].prio {
                m
            } else {
                cells[i]
            })
        }),
{
    let m = mark_between(p, q, geom, road);
    let strokes = atlas::segment_strokes(p, q, geom, road);
    match (project::projected(p@[0], p@[1], geom), project::projected(q@[0], q@[1], geom)) {
        (Some(a), Some(b)) => {
            let s = raster::segment(a.0 / 2, a.1 / 4, b.0 / 2, b.1 / 4);
            assert(strokes.len() == s.len());
            assert forall|j: int| 0 <= j < strokes.len() implies (#[trigger] strokes[j]).mark == m
                && strokes[j].col == s[j].0 && strokes[j].row == s[j].1 by {
                assert(strokes[j] == atlas::stroke_at(
                    s[j],
                    atlas::line_mark(b.0 / 2 - a.0 / 2, b.1 / 4 - a.1 / 4, road),
                ));
            }
            if hit(strokes, c, r) {
                let j = choose|j: int|
                    0 <= j < strokes.len() && (#[trigger] strokes[j]).col == c && strokes[j].row
                        == r;
                assert(s[j] == (c, r));
            }
            if s.contains((c, r)) {
                let j = choose|j: int| 0 <= j < s.len() && s[j] == (c, r);
                assert(strokes[j].col == c && strokes[j].row == r);
            }
        },
        _ => {
            assert(strokes.len() == 0);
        },
    }
    same_marks(cells, geom.wc as int, geom.hc as int, strokes, m, c, r);
}

proof fn along_the_last(pts: Seq<[i64; 2]>, geom: Geometry, c: int, r: int)
    requires
        pts.len() >= 2,
    ensures
        along(pts, geom, c, r) <==> along(pts.drop_last(), geom, c, r) || links(
            pts[pts.len() - 2],
            pts[pts.len() - 1],
            geom,
            c,
            r,
        ),
        forall|k: int|
            0 <= k < pts.len() - 2 ==> (#[trigger] stretch(pts.drop_last(), k, geom, c, r)
                == stretch(pts, k, geom, c, r)),
{
    let n = pts.len() as int;
    let front = pts.drop_last();
    assert forall|k: int| 0 <= k < pts.len() - 2 implies (#[trigger] stretch(front, k, geom, c, r)
        == stretch(pts, k, geom, c, r)) by {
        assert(front[k] == pts[k] && front[k + 1] == pts[k + 1]);
    }
    if along(front, geom, c, r) {
        let k = choose|k: int| 0 <= k < front.len() - 1 && #[trigger] stretch(front, k, geom, c, r);
        assert(stretch(pts, k, geom, c, r));
    }
    if links(pts[n - 2], pts[n - 1], geom, c, r) {
        assert(stretch(pts, n - 2, geom, c, r));
    }
    if along(pts, geom, c, r) {
        let k = choose|k: int| 0 <= k < pts.len() - 1 && #[trigger] stretch(pts, k, geom, c, r);
        if k < n - 2 {
            assert(stretch(front, k, geom, c, r));
        }
    }
}

/// What a cell shows of a line that passes: the mark of one of its stretches there.
spec fn shows_stretch(
    pts: Seq<[i64; 2]>,
    geom: Geometry,
    road: bool,
    c: int,
    r: int,
    m: Mark,
) -> bool {
    exists|k: int|
        0 <= k < pts.len() - 1 && #[trigger] stretch(pts, k, geom, c, r) && m == mark_between(
            pts[k],
            pts[k + 1],
            geom,
            road,
        )
}

/// A line leaves a cell as it is where it does not pass, or where a higher layer
/// stands; otherwise the cell shows the mark of one of the stretches that pass.
proof fn line_paints(
    cells: Seq<Mark>,
    geom: Geometry,
    pts: Seq<[i64; 2]>,
    road: bool,
    c: int,
    r: int,
)
    requires
        cells.len() == geom.wc * geom.hc,
        0 <= c < geom.wc,
        0 <= r < geom.hc,
        cells[grid::slot(c, r, geom.wc as int)].prio <= (if road {
            2
        } else {
            1int
        }),
    ensures
        ({
            let i = grid::slot(c, r, geom.wc as int);
            let after = chargrid::painted_all(
                cells,
                geom.wc as int,
                geom.hc as int,
                atlas::line_strokes(pts, geom, road),
            );
            &&& after.len() == cells.len()
            &&& !along(pts, geom, c, r) ==> after[i] == cells[i]
            &&& along(pts, geom, c, r) ==> shows_stretch(pts, geom, road, c, r, after[i])
        }),
    decreases pts.len(),
{
    let w = geom.wc as int;
    let h = geom.hc as int;
    let i = grid::slot(c, r, w);
    if pts.len() >= 2 {
        let n = pts.len() as int;
        let front = pts.drop_last();
        line_paints(cells, geom, front, road, c, r);
        let s = atlas::line_strokes(front, geom, road);
        let mid = chargrid::painted_all(cells, w, h, s);
        let seg = atlas::segment_strokes(pts[n - 2], pts[n - 1], geom, road);
        chargrid::painted_all_concat(cells, w, h, s, seg);
        segment_paints(mid, geom, pts[n - 2], pts[n - 1], road, c, r);
        along_the_last(pts, geom, c, r);
        let after = chargrid::painted_all(mid, w, h, seg);
        if links(pts[n - 2], pts[n - 1], geom, c, r) {
            assert(stretch(pts, n - 2, geom, c, r));
            if along(front, geom, c, r) {
                let k = choose|k: int|
                    0 <= k < front.len() - 1 && #[trigger] stretch(front, k, geom, c, r) && mid[i]
                        == mark_between(front[k], front[k + 1], geom, road);
                assert(mid[i].prio == (if road {
                    2
                } else {
                    1int
                }));
            }
            assert(after[i] == mark_between(pts[n - 2], pts[n - 1], geom, road));
            assert(shows_stretch(pts, geom, road, c, r, after[i]));
        } else if along(front, geom, c, r) {
            let k = choose|k: int|
                0 <= k < front.len() - 1 && #[trigger] stretch(front, k, geom, c, r) && mid[i]
                    == mark_between(front[k], front[k + 1], geom, road);
            assert(front[k] == pts[k] && front[k + 1] == pts[k + 1]);
            assert(stretch(pts, k, geom, c, r));
            assert(shows_stretch(pts, geom, road, c, r, after[i]));
        }
    }
}

/// Whether a cell lies on an expressway, with the slope of one of the stretches that
/// pass as its glyph.
pub open spec fn road_shows(
    roads: Seq<Expressway>,
    geom: Geometry,
    c: int,
    r: int,
    glyph: char,
) -> bool {
    exists|q: int, k: int|
        0 <= q < roads.len() && 0 <= k < roads[q].points@.len() - 1 && #[trigger] stretch(
            roads[q].points@,
            k,
            geom,
            c,
            r,
        ) && glyph == slope_between(roads[q].points@[k], roads[q].points@[k + 1], geom)
}

/// Whether a cell lies on an expressway.
pub open spec fn road_passes(roads: Seq<Expressway>, geom: Geometry, c: int, r: int) -> bool {
    exists|q: int| 0 <= q < roads.len() && along((#[trigger] roads[q]).points@, geom, c, r)
}

proof fn roads_paint(cells: Seq<Mark>, geom: Geometry, roads: Seq<Expressway>, c: int, r: int)
    requires
        cells.len() == geom.wc * geom.hc,
        0 <= c < geom.wc,
        0 <= r < geom.hc,
        cells[grid::slot(c, r, geom.wc as int)].prio <= 2,
    ensures
        ({
            let i = grid::slot(c, r, geom.wc as int);
            let after = chargrid::painted_all(
                cells,
                geom.wc as int,
                geom.hc as int,
                atlas::road_strokes(roads, geom),
            );
            &&& after.len() == cells.len()
            &&& !road_passes(roads, geom, c, r) ==> after[i] == cells[i]
            &&& road_passes(roads, geom, c, r) ==> after[i].prio == 2 && after[i].color == 240
                && road_shows(roads, geom, c, r, after[i].glyph)
            &&& after[i].prio <= 2
        }),
    decreases roads.len(),
{
    let w = geom.wc as int;
    let h = geom.hc as int;
    let i = grid::slot(c, r, w);
    if roads.len() > 0 {
        let front = roads.drop_last();
        let last = roads.last();
        let n = roads.len() - 1;
        assert(roads[n] == last);
        roads_paint(cells, geom, front, c, r);
        let s = atlas::road_strokes(front, geom);
        let mid = chargrid::painted_all(cells, w, h, s);
        let line = atlas::line_strokes(last.points@, geom, true);
        chargrid::painted_all_concat(cells, w, h, s, line);
        line_paints(mid, geom, last.points@, true, c, r);
        let after = chargrid::painted_all(mid, w, h, line);
        if along(last.points@, geom, c, r) {
            let k = choose|k: int|
                0 <= k < last.points@.len() - 1 && #[trigger] stretch(
                    last.points@,
                    k,
                    geom,
                    c,
                    r,
                ) && after[i] == mark_between(last.points@[k], last.points@[k + 1], geom, true);
            assert(stretch(roads[n].points@, k, geom, c, r));
            assert(road_shows(roads, geom, c, r, after[i].glyph));
        } else if road_passes(front, geom, c, r) {
            let (q, k) = choose|q: int, k: int|
                0 <= q < front.len() && 0 <= k < front[q].points@.len() - 1 && #[trigger] stretch(
                    front[q].points@,
                    k,
                    geom,
                    c,
                    r,
                ) && mid[i].glyph == slope_between(
                    front[q].points@[k],
                    front[q].points@[k + 1],
                    geom,
                );
            assert(roads[q] == front[q]);
            assert(stretch(roads[q].points@, k, geom, c, r));
            assert(road_shows(roads, geom, c, r, after[i].glyph));
        }
        if road_passes(front, geom, c, r) {
            let q = choose|q: int|
                0 <= q < front.len() && along((#[trigger] front[q]).points@, geom, c, r);
            assert(roads[q] == front[q]);
        }
        if road_passes(roads, geom, c, r) {
            let q = choose|q: int|
                0 <= q < roads.len() && along((#[trigger] roads[q]).points@, geom, c, r);
            if q < front.len() {
                assert(roads[q] == front[q]);
            }
        }
    }
}

/// Whether a landmark of a list lies in a cell.
pub open spec fn landmark_in(marks: Seq<Landmark>, geom: Geometry, c: int, r: int) -> bool {
    exists|k: int|
        0 <= k < marks.len() && lies_in((#[trigger] marks[k]).lat, marks[k].lon, geom, c, r)
}

/// Whether landmark `k` is the last of a list in a cell.
pub open spec fn last_landmark(
    marks: Seq<Landmark>,
    k: int,
    geom: Geometry,
    c: int,
    r: int,
) -> bool {
    &&& 0 <= k < marks.len()
    &&& lies_in(marks[k].lat, marks[k].lon, geom, c, r)
    &&& forall|j: int|
        k < j < marks.len() ==> !lies_in((#[trigger] marks[j]).lat, marks[j].lon, geom, c, r)
}

proof fn landmarks_paint(
    cells: Seq<Mark>,
    geom: Geometry,
    marks: Seq<Landmark>,
    c: int,
    r: int,
    k: int,
)
    requires
        cells.len() == geom.wc * geom.hc,
        0 <= c < geom.wc,
        0 <= r < geom.hc,
        cells[grid::slot(c, r, geom.wc as int)].prio <= 3,
    ensures
        ({
            let i = grid::slot(c, r, geom.wc as int);
            let after = chargrid::painted_all(
                cells,
                geom.wc as int,
                geom.hc as int,
                atlas::landmark_strokes(marks, geom),
            );
            &&& after.len() == cells.len()
            &&& after[i].prio <= 3
            &&& !landmark_in(marks, geom, c, r) ==> after[i] == cells[i]
            &&& last_landmark(marks, k, geom, c, r) ==> after[i] == (Mark {
                glyph: marks[k].marker,
                prio: 3,
                color: 250,
            })
        }),
    decreases marks.len(),
{
    let w = geom.wc as int;
    let h = geom.hc as int;
    if marks.len() > 0 {
        let front = marks.drop_last();
        let last = marks.last();
        assert(marks[marks.len() - 1] == last);
        landmarks_paint(cells, geom, front, c, r, k);
        let s = atlas::landmark_strokes(front, geom);
        let mid = chargrid::painted_all(cells, w, h, s);
        let all = atlas::landmark_strokes(marks, geom);
        if atlas::cell_of(last.lat, last.lon, geom) is Some {
            assert(all.drop_last() =~= s);
            one_stroke(mid, w, h, all.last(), c, r);
        }
        if landmark_in(front, geom, c, r) {
            let j = choose|j: int|
                0 <= j < front.len() && lies_in(
                    (#[trigger] front[j]).lat,
                    front[j].lon,
                    geom,
                    c,
                    r,
                );
            assert(marks[j] == front[j]);
        }
        if last_landmark(marks, k, geom, c, r) && k < front.len() {
            assert(front[k] == marks[k]);
            assert forall|j: int| k < j < front.len() implies !lies_in(
                (#[trigger] front[j]).lat,
                front[j].lon,
                geom,
                c,
                r,
            ) by {
                assert(front[j] == marks[j]);
            }
        }
    }
}

/// Whether a train of a list lies in a cell.
pub open spec fn train_in(trains: Seq<TrainView>, geom: Geometry, c: int, r: int) -> bool {
    exists|k: int|
        0 <= k < trains.len() && lies_in((#[trigger] trains[k]).lat, trains[k].lon, geom, c, r)
}

/// Whether train `k` is the last of a list in a cell.
pub open spec fn last_train(
    trains: Seq<TrainView>,
    k: int,
    geom: Geometry,
    c: int,
    r: int,
) -> bool {
    &&& 0 <= k < trains.len()
    &&& lies_in(trains[k].lat, trains[k].lon, geom, c, r)
    &&& forall|j: int|
        k < j < trains.len() ==> !lies_in((#[trigger] trains[j]).lat, trains[j].lon, geom, c, r)
}

proof fn trains_paint(
    cells: Seq<Mark>,
    geom: Geometry,
    trains: Seq<TrainView>,
    c: int,
    r: int,
    k: int,
)
    requires
        cells.len() == geom.wc * geom.hc,
        0 <= c < geom.wc,
        0 <= r < geom.hc,
    ensures
        ({
            let i = grid::slot(c, r, geom.wc as int);
            let after = chargrid::painted_all(
                cells,
                geom.wc as int,
                geom.hc as int,
                atlas::train_strokes(trains, geom),
            );
            &&& after.len() == cells.len()
            &&& !train_in(trains, geom, c, r) || cells[i].prio > 5 ==> after[i] == cells[i]
            &&& cells[i].prio <= 5 ==> after[i].prio <= 5
            &&& last_train(trains, k, geom, c, r) && cells[i].prio <= 5 ==> after[i] == (Mark {
                glyph: atlas::arrow_glyph(trains[k].heading),
                prio: 5,
                color: render::ansi_of(trains[k].line),
            })
        }),
    decreases trains.len(),
{
    let w = geom.wc as int;
    let h = geom.hc as int;
    if trains.len() > 0 {
        let front = trains.drop_last();
        let last = trains.last();
        assert(trains[trains.len() - 1] == last);
        trains_paint(cells, geom, front, c, r, k);
        let s = atlas::train_strokes(front, geom);
        let mid = chargrid::painted_all(cells, w, h, s);
        let all = atlas::train_strokes(trains, geom);
        if atlas::cell_of(last.lat, last.lon, geom) is Some {
            assert(all.drop_last() =~= s);
            one_stroke(mid, w, h, all.last(), c, r);
        }
        if train_in(front, geom, c, r) {
            let j = choose|j: int|
                0 <= j < front.len() && lies_in(
                    (#[trigger] front[j]).lat,
                    front[j].lon,
                    geom,
                    c,
                    r,
                );
            assert(trains[j] == front[j]);
        }
        if last_train(trains, k, geom, c, r) && k < front.len() {
            assert(front[k] == trains[k]);
            assert forall|j: int| k < j < front.len() implies !lies_in(
                (#[trigger] front[j]).lat,
                front[j].lon,
                geom,
                c,
                r,
            ) by {
                assert(front[j] == trains[j]);
            }
        }
    }
}

/// The letter of the lake's name that stands in a cell, a blank where none does: the
/// name runs down the last column but one.
pub open spec fn lake_name() -> Seq<char> {
    seq!['L', 'A', 'K', 'E', ' ', 'M', 'I', 'C', 'H', 'I', 'G', 'A', 'N']
}

/// The letter of the lake's name in a cell, or a blank.
pub open spec fn lake_letter_in(geom: Geometry, c: int, r: int) -> char {
    let k = r - atlas::lake_start(geom.hc as int);
    if c == geom.wc - 2 && 0 <= k < 13 {
        lake_name()[k]
    } else {
        ' '
    }
}

/// The lake's name stands in the middle of its column: as many rows above as below,
/// or one fewer, and one more where the column is too short for the name.
pub proof fn law_lake_name_is_centred(hc: int)
    requires
        hc >= 0,
    ensures
        ({
            let above = atlas::lake_start(hc);
            let below = hc - 13 - above;
            &&& hc >= 13 ==> -1 <= above - below <= 0
            &&& hc <= 13 ==> 0 <= above - below <= 1
        }),
        atlas::lake_label() == lake_name(),
{
    reveal_strlit("LAKE MICHIGAN");
    assert(atlas::lake_label() =~= lake_name());
}

proof fn lake_paints(cells: Seq<Mark>, geom: Geometry, n: nat, c: int, r: int)
    requires
        cells.len() == geom.wc * geom.hc,
        0 <= c < geom.wc,
        0 <= r < geom.hc,
        n <= 13,
        cells[grid::slot(c, r, geom.wc as int)].prio <= 7,
    ensures
        ({
            let i = grid::slot(c, r, geom.wc as int);
            let after = chargrid::painted_all(
                cells,
                geom.wc as int,
                geom.hc as int,
                atlas::lake_strokes(geom, n),
            );
            let k = r - atlas::lake_start(geom.hc as int);
            &&& after.len() == cells.len()
            &&& after[i] == (if c == geom.wc - 2 && 0 <= k < n && lake_name()[k] != ' ' {
                Mark { glyph: lake_name()[k], prio: 7, color: 44 }
            } else {
                cells[i]
            })
        }),
    decreases n,
{
    let w = geom.wc as int;
    let h = geom.hc as int;
    law_lake_name_is_centred(h);
    if n > 0 {
        let m = (n - 1) as nat;
        lake_paints(cells, geom, m, c, r);
        let s = atlas::lake_strokes(geom, m);
        let all = atlas::lake_strokes(geom, n);
        assert(atlas::lake_letter(n - 1) == lake_name()[n - 1]);
        if atlas::lake_letter(n - 1) != ' ' {
            assert(all.drop_last() =~= s);
            one_stroke(chargrid::painted_all(cells, w, h, s), w, h, all.last(), c, r);
        }
    }
}

/// What a cell of the atlas shows. A letter of the lake's name stands over everything;
/// then comes the arrow of the last train in the cell, in the colour of its line; then
/// the marker of the last landmark in it, in light grey; then an expressway that passes
/// from anchor to anchor, in dark grey and with the glyph of its slope; then the
/// shoreline, drawn from anchor to anchor, in cyan. A cell with none of these is blank.
pub proof fn law_each_cell_shows_what_is_on_top(
    geo: GeoData,
    geom: Geometry,
    trains: Seq<TrainView>,
    c: int,
    r: int,
    k: int,
)
    requires
        0 <= c < geom.wc,
        0 <= r < geom.hc,
    ensures
        ({
            let m = atlas::page_marks(geo, geom, trains)[grid::slot(c, r, geom.wc as int)];
            let letter = lake_letter_in(geom, c, r);
            let marks = geo.landmarks@;
            let train = train_in(trains, geom, c, r);
            let landmark = landmark_in(marks, geom, c, r);
            let road = road_passes(geo.expressways@, geom, c, r);
            let shore = along(geo.shoreline.points@, geom, c, r);
            &&& letter != ' ' ==> m.glyph == letter && m.color == 44
            &&& letter == ' ' && last_train(trains, k, geom, c, r) ==> m.glyph
                == atlas::arrow_glyph(trains[k].heading) && m.color == render::ansi_of(
                trains[k].line,
            )
            &&& letter == ' ' && !train && last_landmark(marks, k, geom, c, r) ==> m.glyph
                == marks[k].marker && m.color == 250
            &&& letter == ' ' && !train && !landmark && road ==> m.color == 240 && road_shows(
                geo.expressways@,
                geom,
                c,
                r,
                m.glyph,
            )
            &&& letter == ' ' && !train && !landmark && !road && shore ==> m.glyph == '#' && m.color
                == 44
            &&& letter == ' ' && !train && !landmark && !road && !shore ==> m.glyph == ' '
                && m.color == 0
        }),
{
    let w = geom.wc as int;
    let h = geom.hc as int;
    let i = grid::slot(c, r, w);
    assert(0 <= geom.wc * geom.hc) by (nonlinear_arith);
    grid::slot_in_range(c, r, w, h);
    let blank = Seq::new((geom.wc * geom.hc) as nat, |j: int| chargrid::blank());
    let shore = atlas::line_strokes(geo.shoreline.points@, geom, false);
    let roads = atlas::road_strokes(geo.expressways@, geom);
    let marks = atlas::landmark_strokes(geo.landmarks@, geom);
    let lake = atlas::lake_strokes(geom, atlas::lake_label().len());
    law_lake_name_is_centred(h);
    line_paints(blank, geom, geo.shoreline.points@, false, c, r);
    let a = chargrid::painted_all(blank, w, h, shore);
    roads_paint(a, geom, geo.expressways@, c, r);
    let b = chargrid::painted_all(a, w, h, roads);
    landmarks_paint(b, geom, geo.landmarks@, c, r, k);
    let d = chargrid::painted_all(b, w, h, marks);
    lake_paints(d, geom, 13, c, r);
    let e = chargrid::painted_all(d, w, h, lake);
    chargrid::painted_all_concat(blank, w, h, shore, roads);
    chargrid::painted_all_concat(blank, w, h, shore + roads, marks);
    chargrid::painted_all_concat(blank, w, h, shore + roads + marks, lake);
    assert(atlas::base_marks(geo, geom) == e);
    trains_paint(e, geom, trains, c, r, k);
}

/// Whether the cell of a landmark shows its marker on a grid.
pub open spec fn marker_shows(m: Landmark, cells: Seq<Mark>, geom: Geometry) -> bool {
    exists|c: int, r: int|
        0 <= c < geom.wc && 0 <= r < geom.hc && #[trigger] lies_in(m.lat, m.lon, geom, c, r)
            && cells[grid::slot(c, r, geom.wc as int)].glyph == m.marker
}

/// The legend lists the landmarks whose marker shows in their own cell, each once for
/// each time that the overlay has it, in the order of the overlay.
pub proof fn law_legend_keeps_the_order(marks: Seq<Landmark>, cells: Seq<Mark>, geom: Geometry)
    ensures
        atlas::shown(marks, cells, geom) == marks.filter(
            |m: Landmark| marker_shows(m, cells, geom),
        ),
    decreases marks.len(),
{
    let f = |m: Landmark| marker_shows(m, cells, geom);
    reveal(Seq::filter);
    if marks.len() > 0 {
        let m = marks.last();
        law_legend_keeps_the_order(marks.drop_last(), cells, geom);
        if atlas::shows(m, cells, geom) {
            let (c, r) = atlas::cell_of(m.lat, m.lon, geom)->0;
            assert(lies_in(m.lat, m.lon, geom, c, r));
        }
        assert(f(m) <==> atlas::shows(m, cells, geom));
    } else {
        assert(atlas::shown(marks, cells, geom) =~= marks.filter(f));
    }
}

/// A row of the grid is written cell by cell from the left, the top row first; what is
/// left off at its end is white space.
pub proof fn law_rows_show_their_cells(cells: Seq<Mark>, w: int, h: int, c: int, r: int)
    requires
        0 <= c < w,
        0 <= r < h,
    ensures
        ({
            let rows = chargrid::plain_rows(cells, w, h);
            let glyph = cells[r * w + c].glyph;
            &&& rows.len() == h
            &&& rows[r].len() <= w
            &&& c < rows[r].len() ==> rows[r][c] == glyph
            &&& c >= rows[r].len() ==> text::is_space(glyph)
        }),
{
    let row = chargrid::glyph_row(cells, w, r);
    trimmed_row(row, c);
}

proof fn trimmed_row(row: Seq<char>, c: int)
    requires
        0 <= c < row.len(),
    ensures
        text::trim_end(row).len() <= row.len(),
        c < text::trim_end(row).len() ==> text::trim_end(row)[c] == row[c],
        c >= text::trim_end(row).len() ==> text::is_space(row[c]),
    decreases row.len(),
{
    if text::is_space(row.last()) {
        if c < row.len() - 1 {
            trimmed_row(row.drop_last(), c);
        } else if row.len() > 1 {
            trimmed_row(row.drop_last(), 0);
        } else {
            let none = Seq::<char>::empty();
            assert(row.drop_last() =~= none);
            assert(text::trim_end(none) == none);
        }
    }
}

} // verus!
