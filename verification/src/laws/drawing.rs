//! What the map draws: lines from anchor to anchor, trains where they are, place codes
//! where there is room.

use crate::atlas;
use crate::atlas::{Expressway, GeoData, River};
use crate::braille;
use crate::chargrid;
use crate::grid;
use crate::laws::reading;
use crate::laws::reading::lines;
use crate::laws::scene::{lake_name, law_lake_name_is_centred};
use crate::project;
use crate::project::Geometry;
use crate::raster;
use crate::render;
use crate::text;
use crate::trainmap;
use crate::trainmap::{Dot, Place};
use crate::transit::TrainView;
use vstd::prelude::*;

verus! {

/// Whether a pixel lies on the segment between two anchors that both lie in the
/// plotted area.
pub open spec fn joins(p: [i64; 2], q: [i64; 2], geo: Geometry, x: int, y: int) -> bool {
    match (project::projected(p@[0], p@[1], geo), project::projected(q@[0], q@[1], geo)) {
        (Some(a), Some(b)) => raster::segment(a.0, a.1, b.0, b.1).contains((x, y)),
        _ => false,
    }
}

/// Whether a pixel lies on a drawn line: on the segment between two anchors that
/// follow each other.
pub open spec fn on_leg(pts: Seq<[i64; 2]>, geo: Geometry, x: int, y: int) -> bool {
    exists|i: int| 0 <= i < pts.len() - 1 && #[trigger] leg(pts, i, geo, x, y)
}

/// Whether a pixel lies on the segment between anchor `i` and the next one.
pub open spec fn leg(pts: Seq<[i64; 2]>, i: int, geo: Geometry, x: int, y: int) -> bool {
    joins(pts[i], pts[i + 1], geo, x, y)
}

/// Whether a pixel lies on an expressway.
pub open spec fn on_road(roads: Seq<Expressway>, geo: Geometry, x: int, y: int) -> bool {
    exists|r: int| 0 <= r < roads.len() && on_leg((#[trigger] roads[r]).points@, geo, x, y)
}

/// Whether a pixel lies on a river.
pub open spec fn on_river(rivers: Seq<River>, geo: Geometry, x: int, y: int) -> bool {
    exists|r: int| 0 <= r < rivers.len() && on_leg((#[trigger] rivers[r]).points@, geo, x, y)
}

/// Whether a pixel lies on the shore or on a river.
pub open spec fn on_water(data: GeoData, geo: Geometry, x: int, y: int) -> bool {
    on_leg(data.shoreline.points@, geo, x, y) || on_river(data.rivers@, geo, x, y)
}

/// Whether one of a list of dots falls on a pixel.
spec fn has_dot(dots: Seq<Dot>, x: int, y: int) -> bool {
    exists|j: int| 0 <= j < dots.len() && (#[trigger] dots[j]).x == x && dots[j].y == y
}

spec fn on_canvas(dots: Seq<Dot>, geo: Geometry) -> bool {
    forall|j: int|
        0 <= j < dots.len() ==> 0 <= (#[trigger] dots[j]).x < geo.wp && 0 <= dots[j].y < geo.hp
}

spec fn all_of_color(dots: Seq<Dot>, color: u8) -> bool {
    forall|j: int| 0 <= j < dots.len() ==> (#[trigger] dots[j]).color == color
}

proof fn dots_of_two(a: Seq<Dot>, b: Seq<Dot>, geo: Geometry, color: u8, x: int, y: int)
    ensures
        has_dot(a + b, x, y) <==> has_dot(a, x, y) || has_dot(b, x, y),
        on_canvas(a, geo) && on_canvas(b, geo) ==> on_canvas(a + b, geo),
        all_of_color(a, color) && all_of_color(b, color) ==> all_of_color(a + b, color),
{
    let s = a + b;
    assert forall|j: int| 0 <= j < s.len() implies #[trigger] s[j] == (if j < a.len() {
        a[j]
    } else {
        b[j - a.len()]
    }) by {}
    if has_dot(a, x, y) {
        let j = choose|j: int| 0 <= j < a.len() && (#[trigger] a[j]).x == x && a[j].y == y;
        assert(s[j] == a[j]);
    }
    if has_dot(b, x, y) {
        let j = choose|j: int| 0 <= j < b.len() && (#[trigger] b[j]).x == x && b[j].y == y;
        assert(s[a.len() + j] == b[j]);
    }
    if has_dot(s, x, y) {
        let j = choose|j: int| 0 <= j < s.len() && (#[trigger] s[j]).x == x && s[j].y == y;
        if j < a.len() {
            assert(a[j] == s[j]);
        } else {
            assert(b[j - a.len()] == s[j]);
        }
    }
}

proof fn segment_has(p: [i64; 2], q: [i64; 2], geo: Geometry, color: u8, x: int, y: int)
    requires
        geo.valid(),
    ensures
        ({
            let dots = trainmap::segment_dots(p, q, geo, color);
            &&& has_dot(dots, x, y) <==> joins(p, q, geo, x, y)
            &&& on_canvas(dots, geo)
            &&& all_of_color(dots, color)
        }),
{
    let dots = trainmap::segment_dots(p, q, geo, color);
    project::law_projection_lands_on_canvas(p@[0], p@[1], geo);
    project::law_projection_lands_on_canvas(q@[0], q@[1], geo);
    match (project::projected(p@[0], p@[1], geo), project::projected(q@[0], q@[1], geo)) {
        (Some(a), Some(b)) => {
            let pixels = raster::segment(a.0, a.1, b.0, b.1);
            assert(dots.len() == pixels.len());
            assert forall|j: int| 0 <= j < dots.len() implies (#[trigger] dots[j]).x == pixels[j].0
                && dots[j].y == pixels[j].1 && dots[j].color == color && 0 <= dots[j].x < geo.wp
                && 0 <= dots[j].y < geo.hp by {
                assert(dots[j] == trainmap::dot_at(pixels[j], color));
                raster::law_segment_stays_between_its_endpoints(a.0, a.1, b.0, b.1, j);
            }
            if has_dot(dots, x, y) {
                let j = choose|j: int|
                    0 <= j < dots.len() && (#[trigger] dots[j]).x == x && dots[j].y == y;
                assert(pixels[j] == (x, y));
            }
            if pixels.contains((x, y)) {
                let j = choose|j: int| 0 <= j < pixels.len() && pixels[j] == (x, y);
                assert(dots[j].x == x && dots[j].y == y);
            }
        },
        _ => {},
    }
}

proof fn polyline_has(pts: Seq<[i64; 2]>, geo: Geometry, color: u8, x: int, y: int)
    requires
        geo.valid(),
    ensures
        ({
            let dots = trainmap::polyline_dots(pts, geo, color);
            &&& has_dot(dots, x, y) <==> on_leg(pts, geo, x, y)
            &&& on_canvas(dots, geo)
            &&& all_of_color(dots, color)
        }),
    decreases pts.len(),
{
    if pts.len() >= 2 {
        let n = pts.len() as int;
        let front = pts.drop_last();
        polyline_has(front, geo, color, x, y);
        segment_has(pts[n - 2], pts[n - 1], geo, color, x, y);
        let seg = trainmap::segment_dots(pts[n - 2], pts[n - 1], geo, color);
        dots_of_two(trainmap::polyline_dots(front, geo, color), seg, geo, color, x, y);
        if on_leg(front, geo, x, y) {
            let i = choose|i: int| 0 <= i < front.len() - 1 && #[trigger] leg(front, i, geo, x, y);
            assert(front[i] == pts[i] && front[i + 1] == pts[i + 1]);
            assert(leg(pts, i, geo, x, y));
        }
        if joins(pts[n - 2], pts[n - 1], geo, x, y) {
            assert(leg(pts, n - 2, geo, x, y));
        }
        if on_leg(pts, geo, x, y) {
            let i = choose|i: int| 0 <= i < pts.len() - 1 && #[trigger] leg(pts, i, geo, x, y);
            if i < n - 2 {
                assert(front[i] == pts[i] && front[i + 1] == pts[i + 1]);
                assert(leg(front, i, geo, x, y));
            }
        }
    }
}

proof fn roads_have(roads: Seq<Expressway>, geo: Geometry, x: int, y: int)
    requires
        geo.valid(),
    ensures
        ({
            let dots = trainmap::road_dots(roads, geo);
            &&& has_dot(dots, x, y) <==> on_road(roads, geo, x, y)
            &&& on_canvas(dots, geo)
            &&& all_of_color(dots, 240)
        }),
    decreases roads.len(),
{
    if roads.len() > 0 {
        let front = roads.drop_last();
        let last = roads.last();
        roads_have(front, geo, x, y);
        polyline_has(last.points@, geo, trainmap::GEO_ROAD_COLOR, x, y);
        dots_of_two(
            trainmap::road_dots(front, geo),
            trainmap::polyline_dots(last.points@, geo, trainmap::GEO_ROAD_COLOR),
            geo,
            240,
            x,
            y,
        );
        assert(roads[roads.len() - 1] == last);
        if on_road(front, geo, x, y) {
            let r = choose|r: int|
                0 <= r < front.len() && on_leg((#[trigger] front[r]).points@, geo, x, y);
            assert(roads[r] == front[r]);
        }
        if on_road(roads, geo, x, y) {
            let r = choose|r: int|
                0 <= r < roads.len() && on_leg((#[trigger] roads[r]).points@, geo, x, y);
            if r < front.len() {
                assert(roads[r] == front[r]);
            }
        }
    }
}

proof fn rivers_have(rivers: Seq<River>, geo: Geometry, x: int, y: int)
    requires
        geo.valid(),
    ensures
        ({
            let dots = trainmap::river_dots(rivers, geo);
            &&& has_dot(dots, x, y) <==> on_river(rivers, geo, x, y)
            &&& on_canvas(dots, geo)
            &&& all_of_color(dots, 44)
        }),
    decreases rivers.len(),
{
    if rivers.len() > 0 {
        let front = rivers.drop_last();
        let last = rivers.last();
        rivers_have(front, geo, x, y);
        polyline_has(last.points@, geo, trainmap::GEO_RIVER_COLOR, x, y);
        dots_of_two(
            trainmap::river_dots(front, geo),
            trainmap::polyline_dots(last.points@, geo, trainmap::GEO_RIVER_COLOR),
            geo,
            44,
            x,
            y,
        );
        assert(rivers[rivers.len() - 1] == last);
        if on_river(front, geo, x, y) {
            let r = choose|r: int|
                0 <= r < front.len() && on_leg((#[trigger] front[r]).points@, geo, x, y);
            assert(rivers[r] == front[r]);
        }
        if on_river(rivers, geo, x, y) {
            let r = choose|r: int|
                0 <= r < rivers.len() && on_leg((#[trigger] rivers[r]).points@, geo, x, y);
            if r < front.len() {
                assert(rivers[r] == front[r]);
            }
        }
    }
}

/// The dots of the roads, and those of the water.
proof fn skeleton_has(data: GeoData, geo: Geometry, x: int, y: int)
    requires
        geo.valid(),
    ensures
        ({
            let roads = trainmap::road_dots(data.expressways@, geo);
            let water = trainmap::polyline_dots(
                data.shoreline.points@,
                geo,
                trainmap::GEO_COAST_COLOR,
            ) + trainmap::river_dots(data.rivers@, geo);
            &&& trainmap::skeleton_dots(data, geo) == roads + water
            &&& has_dot(roads, x, y) <==> on_road(data.expressways@, geo, x, y)
            &&& has_dot(water, x, y) <==> on_water(data, geo, x, y)
            &&& on_canvas(roads, geo) && on_canvas(water, geo)
            &&& all_of_color(roads, 240) && all_of_color(water, 44)
            &&& on_canvas(roads + water, geo)
            &&& has_dot(roads + water, x, y) <==> has_dot(roads, x, y) || has_dot(water, x, y)
        }),
{
    let roads = trainmap::road_dots(data.expressways@, geo);
    let shore = trainmap::polyline_dots(data.shoreline.points@, geo, trainmap::GEO_COAST_COLOR);
    let rivers = trainmap::river_dots(data.rivers@, geo);
    roads_have(data.expressways@, geo, x, y);
    polyline_has(data.shoreline.points@, geo, trainmap::GEO_COAST_COLOR, x, y);
    rivers_have(data.rivers@, geo, x, y);
    dots_of_two(shore, rivers, geo, 44, x, y);
    dots_of_two(roads, shore + rivers, geo, 240, x, y);
    assert(roads + shore + rivers =~= roads + (shore + rivers));
}

proof fn dotted_are_lit(cells: Seq<u8>, geo: Geometry, dots: Seq<Dot>, x: int, y: int)
    requires
        geo.valid(),
        cells.len() == geo.wc * geo.hc,
        0 <= x < geo.wp,
        0 <= y < geo.hp,
    ensures
        ({
            let after = trainmap::dotted_all(cells, geo.wc as int, geo.hc as int, dots);
            braille::lit_in(after, geo.wc as int, x, y) <==> braille::lit_in(
                cells,
                geo.wc as int,
                x,
                y,
            ) || has_dot(dots, x, y)
        }),
    decreases dots.len(),
{
    let w = geo.wc as int;
    let h = geo.hc as int;
    if dots.len() > 0 {
        let front = dots.drop_last();
        let last = dots.last();
        dotted_are_lit(cells, geo, front, x, y);
        trainmap::dots_len(cells, cells, w, h, front);
        braille::law_a_dot_lights_its_pixel(
            trainmap::dotted_all(cells, w, h, front),
            w,
            h,
            last.x,
            last.y,
            x,
            y,
        );
        assert(dots[dots.len() - 1] == last);
        if has_dot(front, x, y) {
            let j = choose|j: int|
                0 <= j < front.len() && (#[trigger] front[j]).x == x && front[j].y == y;
            assert(dots[j] == front[j]);
        }
        if has_dot(dots, x, y) {
            let j = choose|j: int|
                0 <= j < dots.len() && (#[trigger] dots[j]).x == x && dots[j].y == y;
            if j < front.len() {
                assert(dots[j] == front[j]);
            }
        }
    }
}

/// The skeleton of the coloured map runs from anchor to anchor: a pixel is lit exactly
/// where it lies on the segment between two anchors that follow each other in the
/// shoreline, in a river or in an expressway, and both lie in the plotted area.
pub proof fn law_skeleton_runs_from_anchor_to_anchor(data: GeoData, geo: Geometry, x: int, y: int)
    requires
        geo.valid(),
        0 <= x < geo.wp,
        0 <= y < geo.hp,
    ensures
        ({
            let cells = trainmap::dotted_all(
                trainmap::zeros((geo.wc * geo.hc) as nat),
                geo.wc as int,
                geo.hc as int,
                trainmap::skeleton_dots(data, geo),
            );
            braille::lit_in(cells, geo.wc as int, x, y) <==> on_water(data, geo, x, y) || on_road(
                data.expressways@,
                geo,
                x,
                y,
            )
        }),
{
    skeleton_has(data, geo, x, y);
    trainmap::law_a_blank_map_is_dark(geo, x, y);
    dotted_are_lit(
        trainmap::zeros((geo.wc * geo.hc) as nat),
        geo,
        trainmap::skeleton_dots(data, geo),
        x,
        y,
    );
}

// ---------- colours ----------

/// Whether one of a list of dots falls into a cell.
spec fn in_cell(dots: Seq<Dot>, c: int, r: int) -> bool {
    exists|j: int| 0 <= j < dots.len() && (#[trigger] dots[j]).x / 2 == c && dots[j].y / 4 == r
}

proof fn in_cell_has(dots: Seq<Dot>, c: int, r: int)
    ensures
        in_cell(dots, c, r) <==> exists|x: int, y: int|
            #[trigger] has_dot(dots, x, y) && x / 2 == c && y / 4 == r,
{
    if in_cell(dots, c, r) {
        let j = choose|j: int|
            0 <= j < dots.len() && (#[trigger] dots[j]).x / 2 == c && dots[j].y / 4 == r;
        assert(has_dot(dots, dots[j].x, dots[j].y));
    }
    if exists|x: int, y: int| #[trigger] has_dot(dots, x, y) && x / 2 == c && y / 4 == r {
        let (x, y) = choose|x: int, y: int|
            #[trigger] has_dot(dots, x, y) && x / 2 == c && y / 4 == r;
        let j = choose|j: int| 0 <= j < dots.len() && (#[trigger] dots[j]).x == x && dots[j].y == y;
        assert(dots[j].x / 2 == c);
    }
}

/// A cell takes the colour of the last dot in it: that of a list all of one colour
/// where the list has a dot in the cell, and its own where it has none.
proof fn cell_takes_color(
    colors: Seq<u8>,
    geo: Geometry,
    dots: Seq<Dot>,
    color: u8,
    c: int,
    r: int,
)
    requires
        geo.valid(),
        colors.len() == geo.wc * geo.hc,
        on_canvas(dots, geo),
        0 <= c < geo.wc,
        0 <= r < geo.hc,
    ensures
        ({
            let after = trainmap::tinted_all(colors, geo.wc as int, dots);
            let i = grid::slot(c, r, geo.wc as int);
            &&& after.len() == colors.len()
            &&& !in_cell(dots, c, r) ==> after[i] == colors[i]
            &&& in_cell(dots, c, r) && all_of_color(dots, color) ==> after[i] == color
        }),
    decreases dots.len(),
{
    let w = geo.wc as int;
    let h = geo.hc as int;
    let i = grid::slot(c, r, w);
    grid::slot_in_range(c, r, w, h);
    if dots.len() > 0 {
        let front = dots.drop_last();
        let last = dots.last();
        assert(dots[dots.len() - 1] == last);
        assert forall|j: int| 0 <= j < front.len() implies 0 <= (#[trigger] front[j]).x < geo.wp
            && 0 <= front[j].y < geo.hp && front[j] == dots[j] by {
            assert(front[j] == dots[j]);
        }
        cell_takes_color(colors, geo, front, color, c, r);
        let lc = last.x / 2;
        let lr = last.y / 4;
        assert(0 <= lc < w && 0 <= lr < h);
        grid::slot_in_range(lc, lr, w, h);
        if grid::slot(lc, lr, w) == i {
            grid::slot_injective(lc, lr, c, r, w);
        }
        if in_cell(front, c, r) {
            let j = choose|j: int|
                0 <= j < front.len() && (#[trigger] front[j]).x / 2 == c && front[j].y / 4 == r;
            assert(dots[j] == front[j]);
        }
        if in_cell(dots, c, r) {
            let j = choose|j: int|
                0 <= j < dots.len() && (#[trigger] dots[j]).x / 2 == c && dots[j].y / 4 == r;
            if j < front.len() {
                assert(front[j] == dots[j]);
            } else {
                assert(lc == c && lr == r);
            }
        }
        if all_of_color(dots, color) {
            assert forall|j: int| 0 <= j < front.len() implies (#[trigger] front[j]).color
                == color by {
                assert(front[j] == dots[j]);
            }
        }
    }
}

proof fn tinted_of_two(colors: Seq<u8>, w: int, a: Seq<Dot>, b: Seq<Dot>)
    ensures
        trainmap::tinted_all(colors, w, a + b) == trainmap::tinted_all(
            trainmap::tinted_all(colors, w, a),
            w,
            b,
        ),
    decreases b.len(),
{
    if b.len() == 0 {
        assert(a + b =~= a);
    } else {
        assert((a + b).drop_last() =~= a + b.drop_last());
        tinted_of_two(colors, w, a, b.drop_last());
    }
}

/// A cell of the skeleton is cyan where water runs through it, otherwise dark grey
/// where an expressway does, and has no colour where nothing is drawn.
pub proof fn law_water_shows_over_roads(data: GeoData, geo: Geometry, c: int, r: int)
    requires
        geo.valid(),
        0 <= c < geo.wc,
        0 <= r < geo.hc,
    ensures
        ({
            let colors = trainmap::tinted_all(
                trainmap::zeros((geo.wc * geo.hc) as nat),
                geo.wc as int,
                trainmap::skeleton_dots(data, geo),
            );
            let color = colors[grid::slot(c, r, geo.wc as int)];
            let water = exists|x: int, y: int|
                #[trigger] on_water(data, geo, x, y) && x / 2 == c && y / 4 == r;
            let road = exists|x: int, y: int|
                #[trigger] on_road(data.expressways@, geo, x, y) && x / 2 == c && y / 4 == r;
            &&& color == 44 <==> water
            &&& color == 240 <==> road && !water
            &&& color == 0 <==> !road && !water
        }),
{
    let w = geo.wc as int;
    let none = trainmap::zeros((geo.wc * geo.hc) as nat);
    let roads = trainmap::road_dots(data.expressways@, geo);
    let water = trainmap::polyline_dots(data.shoreline.points@, geo, trainmap::GEO_COAST_COLOR)
        + trainmap::river_dots(data.rivers@, geo);
    skeleton_has(data, geo, 0, 0);
    assert forall|x: int, y: int|
        (#[trigger] has_dot(water, x, y) <==> on_water(data, geo, x, y)) && (has_dot(roads, x, y)
            <==> on_road(data.expressways@, geo, x, y)) by {
        skeleton_has(data, geo, x, y);
    }
    grid::slot_in_range(c, r, w, geo.hc as int);
    let some_water = exists|x: int, y: int|
        #[trigger] on_water(data, geo, x, y) && x / 2 == c && y / 4 == r;
    let some_road = exists|x: int, y: int|
        #[trigger] on_road(data.expressways@, geo, x, y) && x / 2 == c && y / 4 == r;
    in_cell_has(water, c, r);
    in_cell_has(roads, c, r);
    assert(in_cell(water, c, r) <==> some_water) by {
        if some_water {
            let (x, y) = choose|x: int, y: int|
                #[trigger] on_water(data, geo, x, y) && x / 2 == c && y / 4 == r;
            assert(has_dot(water, x, y));
        }
        if in_cell(water, c, r) {
            let (x, y) = choose|x: int, y: int|
                #[trigger] has_dot(water, x, y) && x / 2 == c && y / 4 == r;
            assert(on_water(data, geo, x, y));
        }
    }
    assert(in_cell(roads, c, r) <==> some_road) by {
        if some_road {
            let (x, y) = choose|x: int, y: int|
                #[trigger] on_road(data.expressways@, geo, x, y) && x / 2 == c && y / 4 == r;
            skeleton_has(data, geo, x, y);
            assert(has_dot(roads, x, y));
        }
        if in_cell(roads, c, r) {
            let (x, y) = choose|x: int, y: int|
                #[trigger] has_dot(roads, x, y) && x / 2 == c && y / 4 == r;
            skeleton_has(data, geo, x, y);
            assert(on_road(data.expressways@, geo, x, y));
        }
    }
    cell_takes_color(none, geo, roads, 240, c, r);
    cell_takes_color(trainmap::tinted_all(none, w, roads), geo, water, 44, c, r);
    tinted_of_two(none, w, roads, water);
}

/// A cell of the coloured map takes the colour of the line of the last train in it,
/// and keeps the colour of the skeleton where no train is in it.
pub proof fn law_cells_take_the_last_trains_colour(
    colors: Seq<u8>,
    geo: Geometry,
    trains: Seq<TrainView>,
    c: int,
    r: int,
    k: int,
)
    requires
        geo.valid(),
        colors.len() == geo.wc * geo.hc,
        0 <= c < geo.wc,
        0 <= r < geo.hc,
    ensures
        ({
            let after = trainmap::tinted_all(
                colors,
                geo.wc as int,
                trainmap::train_dots(trains, geo),
            )[grid::slot(c, r, geo.wc as int)];
            &&& (forall|j: int|
                0 <= j < trains.len() ==> !train_in_cell(#[trigger] trains[j], geo, c, r))
                ==> after == colors[grid::slot(c, r, geo.wc as int)]
            &&& 0 <= k < trains.len() && train_in_cell(trains[k], geo, c, r) && (forall|j: int|
                k < j < trains.len() ==> !train_in_cell(#[trigger] trains[j], geo, c, r)) ==> after
                == render::ansi_of(trains[k].line)
        }),
    decreases trains.len(),
{
    let w = geo.wc as int;
    let h = geo.hc as int;
    let i = grid::slot(c, r, w);
    grid::slot_in_range(c, r, w, h);
    if trains.len() > 0 {
        let front = trains.drop_last();
        let last = trains.last();
        assert(trains[trains.len() - 1] == last);
        law_cells_take_the_last_trains_colour(colors, geo, front, c, r, k);
        project::law_projection_lands_on_canvas(last.lat, last.lon, geo);
        let dots = trainmap::train_dots(front, geo);
        let zero = trainmap::zeros((geo.wc * geo.hc) as nat);
        assert(zero.len() == colors.len());
        trainmap::dots_len(zero, colors, w, h, dots);
        if (forall|j: int|
            0 <= j < trains.len() ==> !train_in_cell(#[trigger] trains[j], geo, c, r)) {
            assert forall|j: int| 0 <= j < front.len() implies !train_in_cell(
                #[trigger] front[j],
                geo,
                c,
                r,
            ) by {
                assert(front[j] == trains[j]);
            }
        }
        if 0 <= k < front.len() && (forall|j: int|
            k < j < trains.len() ==> !train_in_cell(#[trigger] trains[j], geo, c, r)) {
            assert(front[k] == trains[k]);
            assert forall|j: int| k < j < front.len() implies !train_in_cell(
                #[trigger] front[j],
                geo,
                c,
                r,
            ) by {
                assert(front[j] == trains[j]);
            }
        }
        match project::projected(last.lat, last.lon, geo) {
            Some((x, y)) => {
                let d = trainmap::dot_at((x, y), render::ansi_of(last.line));
                assert(trainmap::train_dots(trains, geo).drop_last() =~= dots);
                let lc = x / 2;
                let lr = y / 4;
                assert(0 <= lc < w && 0 <= lr < h);
                grid::slot_in_range(lc, lr, w, h);
                if grid::slot(lc, lr, w) == i {
                    grid::slot_injective(lc, lr, c, r, w);
                }
            },
            None => {},
        }
    }
}

/// Whether a train's pixel falls into a cell.
pub open spec fn train_in_cell(t: TrainView, geo: Geometry, c: int, r: int) -> bool {
    project::projected(t.lat, t.lon, geo) matches Some((x, y)) && x / 2 == c && y / 4 == r
}

// ---------- place codes ----------

/// Whether every cell that a code would take from a cell on is free, as far as it lies
/// in the frame.
pub open spec fn room_for(
    labels: Seq<Option<(char, u8)>>,
    geo: Geometry,
    c: int,
    r: int,
    code: Seq<char>,
) -> bool {
    forall|k: int|
        0 <= k < code.len() && 0 <= c + k < geo.wc ==> labels[#[trigger] grid::slot(
            c + k,
            r,
            geo.wc as int,
        )] is None
}

/// A place's code is written from the cell of the place to the right, as far as it
/// lies in the frame, exactly where every cell that it takes is free; otherwise the
/// layer stays as it is. Nothing else changes.
pub proof fn law_codes_stand_where_there_is_room(
    labels: Seq<Option<(char, u8)>>,
    geo: Geometry,
    p: Place,
    c: int,
    r: int,
    i: int,
)
    requires
        geo.valid(),
        labels.len() == geo.wc * geo.hc,
        project::projected(p.lat, p.lon, geo) matches Some((x, y)) && x / 2 == c && y / 4 == r,
        0 <= i < labels.len(),
    ensures
        ({
            let w = geo.wc as int;
            let after = trainmap::layer_after(labels, geo, seq![p]);
            &&& !room_for(labels, geo, c, r, p.code) ==> after == labels
            &&& room_for(labels, geo, c, r, p.code) ==> forall|k: int|
                0 <= k < p.code.len() && 0 <= c + k < w ==> after[#[trigger] grid::slot(
                    c + k,
                    r,
                    w,
                )] == Some((p.code[k], 231u8))
            &&& !(0 <= i - (r * w + c) < p.code.len() && i < r * w + w) ==> after[i] == labels[i]
            &&& trainmap::legend_after(labels, geo, seq![p]) == (if room_for(
                labels,
                geo,
                c,
                r,
                p.code,
            ) {
                seq![(p.code, p.name)]
            } else {
                Seq::empty()
            })
        }),
{
    let w = geo.wc as int;
    let h = geo.hc as int;
    let one = seq![p];
    assert(one.drop_last() =~= Seq::<Place>::empty());
    assert(one.last() == p);
    assert(trainmap::layer_after(labels, geo, one.drop_last()) == labels);
    project::law_projection_lands_on_canvas(p.lat, p.lon, geo);
    assert(0 <= c < w && 0 <= r < h);
    trainmap::law_the_two_maps_share_their_cells(p.lat, p.lon, geo);
    assert(atlas::cell_of(p.lat, p.lon, geo) == Some((c, r)));
    let can = trainmap::can_stand(labels, geo, c, r, p.code);
    assert(can <==> room_for(labels, geo, c, r, p.code)) by {
        if can {
            assert forall|k: int| 0 <= k < p.code.len() && 0 <= c + k < w implies labels[
            #[trigger] grid::slot(c + k, r, w)] is None by {
                let col = c + k;
                assert(labels[grid::slot(col, r, w)] is None);
            }
        }
        if room_for(labels, geo, c, r, p.code) {
            assert forall|col: int| 0 <= col < w && c <= col < c + p.code.len() implies labels[
            #[trigger] grid::slot(col, r, w)] is None by {
                let k = col - c;
                assert(grid::slot(c + k, r, w) == grid::slot(col, r, w));
                assert(labels[grid::slot(c + k, r, w)] is None);
            }
        }
    }
    let after = trainmap::layer_after(labels, geo, one);
    assert(after == trainmap::labelled(labels, geo, c, r, p.code, 231));
    if can {
        assert forall|k: int| 0 <= k < p.code.len() && 0 <= c + k < w implies after[
        #[trigger] grid::slot(c + k, r, w)] == Some((p.code[k], 231u8)) by {
            trainmap::law_labels_land_whole_or_not_at_all(labels, geo, c, r, p.code, 231, k);
        }
    }
    assert(trainmap::legend_after(labels, geo, one.drop_last()) =~= Seq::empty());
    assert(trainmap::legend_after(labels, geo, one) =~= if can {
        seq![(p.code, p.name)]
    } else {
        Seq::empty()
    });
}

/// Places are labelled one after the other, each over what stands there already, and
/// the legend lists those that found room, in that order. A place off the map gets
/// neither a code nor a line of the legend.
pub proof fn law_places_are_labelled_in_turn(
    labels: Seq<Option<(char, u8)>>,
    geo: Geometry,
    places: Seq<Place>,
    p: Place,
)
    ensures
        ({
            let before = trainmap::layer_after(labels, geo, places);
            &&& trainmap::layer_after(labels, geo, places.push(p)) == trainmap::layer_after(
                before,
                geo,
                seq![p],
            )
            &&& trainmap::legend_after(labels, geo, places.push(p)) == trainmap::legend_after(
                labels,
                geo,
                places,
            ) + trainmap::legend_after(before, geo, seq![p])
            &&& trainmap::layer_after(labels, geo, Seq::<Place>::empty()) == labels
            &&& project::projected(p.lat, p.lon, geo) is None ==> trainmap::layer_after(
                before,
                geo,
                seq![p],
            ) == before && trainmap::legend_after(before, geo, seq![p]).len() == 0
        }),
{
    let all = places.push(p);
    let before = trainmap::layer_after(labels, geo, places);
    assert(all.drop_last() =~= places);
    let one = seq![p];
    assert(one.drop_last() =~= Seq::<Place>::empty());
    assert(trainmap::layer_after(before, geo, one.drop_last()) == before);
    assert(trainmap::legend_after(before, geo, one.drop_last()) =~= Seq::empty());
    assert(one.last() == p && all.last() == p);
    assert(trainmap::legend_after(before, geo, one) =~= if trainmap::lands(before, geo, p) {
        seq![(p.code, p.name)]
    } else {
        Seq::empty()
    });
    assert(trainmap::legend_after(labels, geo, all) =~= trainmap::legend_after(labels, geo, places)
        + trainmap::legend_after(before, geo, one));
}

/// The places that are labelled are the areas of the overlay and then its landmarks,
/// each with its own code, name and position.
pub proof fn law_places_are_areas_and_landmarks(data: GeoData, k: int)
    ensures
        ({
            let places = trainmap::places_of(data);
            let n = data.areas@.len();
            &&& places.len() == n + data.landmarks@.len()
            &&& 0 <= k < n ==> places[k].code == data.areas@[k].code@ && places[k].name
                == data.areas@[k].name@ && places[k].lat == data.areas@[k].lat && places[k].lon
                == data.areas@[k].lon
            &&& 0 <= k < data.landmarks@.len() ==> places[n + k].code == data.landmarks@[k].code@
                && places[n + k].name == data.landmarks@[k].name@ && places[n + k].lat
                == data.landmarks@[k].lat && places[n + k].lon == data.landmarks@[k].lon
        }),
{
    let places = trainmap::places_of(data);
    let n = data.areas@.len();
    if 0 <= k < n {
        assert(places[k] == trainmap::area_place(data.areas@[k]));
    }
    if 0 <= k < data.landmarks@.len() {
        assert(places[n + k] == trainmap::landmark_place(data.landmarks@[k]));
    }
}

// ---------- the lake's name ----------

/// On the map the lake's name stands down the last column but one, in cyan, a
/// character to a cell and centred; nothing else is labelled at first.
pub proof fn law_lake_name_stands_on_the_map(geo: Geometry, n: nat, c: int, r: int)
    requires
        geo.valid(),
        n <= 13,
        0 <= c < geo.wc,
        0 <= r < geo.hc,
    ensures
        ({
            let layer = trainmap::lake_layer(
                trainmap::no_labels((geo.wc * geo.hc) as nat),
                geo,
                n,
            );
            let k = r - atlas::lake_start(geo.hc as int);
            &&& layer.len() == geo.wc * geo.hc
            &&& layer[grid::slot(c, r, geo.wc as int)] == (if c == geo.wc - 2 && 0 <= k < n {
                Some((lake_name()[k], 44u8))
            } else {
                None
            })
        }),
    decreases n,
{
    let w = geo.wc as int;
    let h = geo.hc as int;
    grid::slot_in_range(c, r, w, h);
    assert(0 <= w * h);
    law_lake_name_is_centred(h);
    if n > 0 {
        let m = (n - 1) as nat;
        let start = atlas::lake_start(h);
        let row = start + m;
        let col = w - 2;
        let before = trainmap::lake_layer(
            trainmap::no_labels((geo.wc * geo.hc) as nat),
            geo,
            m,
        );
        law_lake_name_stands_on_the_map(geo, m, c, r);
        let ch = seq![atlas::lake_letter(m as int)];
        assert(atlas::lake_letter(m as int) == lake_name()[m as int]);
        if 0 <= row < h {
            assert forall|q: int| 0 <= q < w && col <= q < col + ch.len() implies before[
            #[trigger] grid::slot(q, row, w)] is None by {
                law_lake_name_stands_on_the_map(geo, m, q, row);
            }
            assert(trainmap::can_stand(before, geo, col, row, ch));
            let i = grid::slot(c, r, w);
            let q = i - row * w;
            if 0 <= q < w && col <= q < col + 1 {
                assert(grid::slot(q, row, w) == i);
                grid::slot_injective(q, row, c, r, w);
                assert(trainmap::lettered(ch, q - col, 44) == Some((lake_name()[m as int], 44u8)));
            } else if c == col && r == row {
                assert(i == row * w + c);
            }
        }
    }
}

// ---------- the coloured plot ----------

/// What a cell of the coloured plot shows.
pub open spec fn shown_in(
    cells: Seq<u8>,
    labels: Seq<Option<(char, u8)>>,
    i: int,
) -> char {
    match labels[i] {
        Some((ch, _)) => ch,
        None => (0x2800 + cells[i]) as char,
    }
}

/// The colour that is set for a cell of the coloured plot, where one is.
pub open spec fn color_in(
    colors: Seq<u8>,
    labels: Seq<Option<(char, u8)>>,
    i: int,
) -> Seq<nat> {
    match labels[i] {
        Some((_, color)) => seq![color as nat],
        None => if colors[i] != 0 {
            seq![colors[i] as nat]
        } else {
            Seq::empty()
        },
    }
}

/// The colours that are set for `n` cells from cell `from` on.
pub open spec fn colors_from(
    colors: Seq<u8>,
    labels: Seq<Option<(char, u8)>>,
    from: int,
    n: nat,
) -> Seq<nat>
    decreases n,
{
    if n == 0 {
        Seq::empty()
    } else {
        colors_from(colors, labels, from, (n - 1) as nat) + color_in(colors, labels, from + n - 1)
    }
}

proof fn plot_row_is_read(
    cells: Seq<u8>,
    colors: Seq<u8>,
    labels: Seq<Option<(char, u8)>>,
    from: int,
    n: nat,
    rest: Seq<char>,
)
    requires
        0 <= from,
        from + n <= cells.len(),
        colors.len() == cells.len(),
        labels.len() == cells.len(),
        forall|i: int| 0 <= i < labels.len() ==> (#[trigger] labels[i] matches Some((ch, _)) ==> ch
            != '\x1b'),
    ensures
        ({
            let row = text::concat(
                Seq::new(n, |x: int| braille::colored_cell(cells, colors, labels, from + x)),
            );
            &&& chargrid::without_escapes(row + rest) == Seq::new(
                n,
                |x: int| shown_in(cells, labels, from + x),
            ) + chargrid::without_escapes(rest)
            &&& chargrid::openings(row + rest) == colors_from(colors, labels, from, n)
                + chargrid::openings(rest)
        }),
    decreases n,
{
    let parts = Seq::new(n, |x: int| braille::colored_cell(cells, colors, labels, from + x));
    let row = text::concat(parts);
    let shown = Seq::new(n, |x: int| shown_in(cells, labels, from + x));
    if n == 0 {
        assert(row + rest =~= rest);
        assert(shown + chargrid::without_escapes(rest) =~= chargrid::without_escapes(rest));
        assert(colors_from(colors, labels, from, n) + chargrid::openings(rest)
            =~= chargrid::openings(rest));
    } else {
        let m = (n - 1) as nat;
        let i = from + m;
        let cell = braille::colored_cell(cells, colors, labels, i);
        let front = Seq::new(m, |x: int| braille::colored_cell(cells, colors, labels, from + x));
        assert(parts.drop_last() =~= front);
        assert(parts.last() == cell);
        assert(row + rest =~= text::concat(front) + (cell + rest));
        plot_row_is_read(cells, colors, labels, from, m, cell + rest);
        let ch = shown_in(cells, labels, i);
        assert(ch != '\x1b');
        match labels[i] {
            Some((c, color)) => {
                chargrid::peel_sgr(color, c, rest);
            },
            None => {
                if colors[i] != 0 {
                    chargrid::peel_sgr(colors[i], braille::glyph(cells[i]), rest);
                } else {
                    chargrid::peel_char(braille::glyph(cells[i]), rest);
                    assert(Seq::<nat>::empty() + chargrid::openings(rest) =~= chargrid::openings(
                        rest,
                    ));
                }
            },
        }
        let before = Seq::new(m, |x: int| shown_in(cells, labels, from + x));
        assert(shown =~= before + seq![ch]);
        assert(before + (seq![ch] + chargrid::without_escapes(rest)) =~= shown
            + chargrid::without_escapes(rest));
        assert(colors_from(colors, labels, from, m) + (color_in(colors, labels, i)
            + chargrid::openings(rest)) =~= colors_from(colors, labels, from, n)
            + chargrid::openings(rest));
    }
}

/// A row of the coloured plot shows, cell by cell, the label that stands there or else
/// the dots, and sets the colour of the label or else that of the cell, where it has
/// one. This holds where no label is the escape character.
pub proof fn law_coloured_rows_show_their_cells(
    cells: Seq<u8>,
    colors: Seq<u8>,
    labels: Seq<Option<(char, u8)>>,
    geo: Geometry,
    y: int,
)
    requires
        geo.valid(),
        cells.len() == geo.wc * geo.hc,
        colors.len() == cells.len(),
        labels.len() == cells.len(),
        0 <= y < geo.hc,
        forall|i: int| 0 <= i < labels.len() ==> (#[trigger] labels[i] matches Some((ch, _)) ==> ch
            != '\x1b'),
    ensures
        ({
            let rows = trainmap::colored_plot_rows(cells, colors, labels, geo);
            let at = y * geo.wc;
            &&& rows.len() == geo.hc
            &&& chargrid::without_escapes(rows[y]) == Seq::new(
                geo.wc as nat,
                |x: int| shown_in(cells, labels, at + x),
            )
            &&& chargrid::openings(rows[y]) == colors_from(colors, labels, at, geo.wc as nat)
        }),
{
    let rows = trainmap::colored_plot_rows(cells, colors, labels, geo);
    let w = geo.wc as int;
    let at = y * w;
    let none = Seq::<char>::empty();
    grid::slot_in_range(0, y, w, geo.hc as int);
    plot_row_is_read(cells, colors, labels, at, geo.wc as nat, none);
    assert(Seq::new(
        geo.wc as nat,
        |x: int| braille::colored_cell(cells, colors, labels, grid::slot(x, y, w)),
    ) =~= Seq::new(
        geo.wc as nat,
        |x: int| braille::colored_cell(cells, colors, labels, at + x),
    ));
    assert(rows[y] + none =~= rows[y]);
    let shown = Seq::new(geo.wc as nat, |x: int| shown_in(cells, labels, at + x));
    assert(shown + chargrid::without_escapes(none) =~= shown);
    let set = colors_from(colors, labels, at, geo.wc as nat);
    assert(set + chargrid::openings(none) =~= set);
}

// ---------- the legend of places ----------

proof fn code_lines_are(legend: Seq<(Seq<char>, Seq<char>)>)
    requires
        forall|i: int|
            0 <= i < legend.len() ==> text::lacks((#[trigger] legend[i]).0, '\n') && text::lacks(
                legend[i].1,
                '\n',
            ),
    ensures
        lines(
            text::concat(
                legend.map_values(|e: (Seq<char>, Seq<char>)| trainmap::code_line(e)),
            ),
        ) == legend.map_values(
            |e: (Seq<char>, Seq<char>)| "  "@ + text::padded(e.0, 4) + " "@ + e.1,
        ).push(Seq::<char>::empty()),
    decreases legend.len(),
{
    broadcast use text::lacks_both;

    let e0 = Seq::<char>::empty();
    let g = |e: (Seq<char>, Seq<char>)| "  "@ + text::padded(e.0, 4) + " "@ + e.1;
    let f = |e: (Seq<char>, Seq<char>)| trainmap::code_line(e);
    let all = legend.map_values(f);
    reading::empty_lacks('\n');
    if legend.len() == 0 {
        reading::split_of_one(e0, '\n');
        assert(text::concat(all) =~= e0);
        assert(lines(e0) =~= legend.map_values(g).push(e0));
    } else {
        let front = legend.drop_last();
        let e = legend.last();
        assert(legend[legend.len() - 1] == e);
        assert forall|i: int| 0 <= i < front.len() implies text::lacks(
            (#[trigger] front[i]).0,
            '\n',
        ) && text::lacks(front[i].1, '\n') by {
            assert(front[i] == legend[i]);
        }
        code_lines_are(front);
        assert(all.drop_last() =~= front.map_values(f));
        let line = "  "@ + text::padded(e.0, 4) + " "@ + e.1;
        if e.0.len() < 4 {
            text::filled_lacks(' ', (4 - e.0.len()) as nat, '\n');
        }
        assert(text::lacks("  "@, '\n') && text::lacks(" "@, '\n')) by {
            reveal(text::lacks);
            reveal_strlit("  ");
            reveal_strlit(" ");
        }
        assert("\n"@ =~= seq!['\n']) by {
            reveal_strlit("\n");
        }
        assert(line + "\n"@ =~= line + seq!['\n'] + e0);
        let d = front.map_values(g);
        reading::line_break(text::concat(front.map_values(f)), d, e0, line + "\n"@, line, e0);
        assert(e0 + line =~= line);
        assert(legend.map_values(g) =~= d.push(line));
    }
}

/// Below the coloured map every place whose code stands on it is decoded, a line for
/// each, in order: the code and behind it the name. Where none stands there is no such
/// list. This holds where codes and names are one line each.
pub proof fn law_codes_are_decoded(legend: Seq<(Seq<char>, Seq<char>)>)
    requires
        forall|i: int|
            0 <= i < legend.len() ==> text::lacks((#[trigger] legend[i]).0, '\n') && text::lacks(
                legend[i].1,
                '\n',
            ),
    ensures
        ({
            let l = lines(trainmap::overlay_text(legend));
            let note =
                "overlay: water -- lake + river (cyan)  expressways (grey)  place codes (white)"@;
            &&& legend.len() == 0 ==> l == seq![note, Seq::<char>::empty()]
            &&& legend.len() > 0 ==> l == seq![
                note,
                Seq::<char>::empty(),
                "places (code -> name):"@,
            ] + legend.map_values(
                |e: (Seq<char>, Seq<char>)| "  "@ + text::padded(e.0, 4) + " "@ + e.1,
            ).push(Seq::<char>::empty())
        }),
{
    let note = "overlay: water -- lake + river (cyan)  expressways (grey)  place codes (white)"@;
    let full = "overlay: water -- lake + river (cyan)  expressways (grey)  place codes (white)\n"@;
    let title = "places (code -> name):"@;
    let e0 = Seq::<char>::empty();
    let nl = seq!['\n'];
    assert(full =~= note + nl + e0) by {
        reveal_strlit("overlay: water -- lake + river (cyan)  expressways (grey)  place codes (white)");
        reveal_strlit("overlay: water -- lake + river (cyan)  expressways (grey)  place codes (white)\n");
    }
    assert(text::lacks(note, '\n') && text::lacks(title, '\n')) by {
        reveal(text::lacks);
        reveal_strlit("overlay: water -- lake + river (cyan)  expressways (grey)  place codes (white)");
        reveal_strlit("places (code -> name):");
    }
    assert("\nplaces (code -> name):\n"@ =~= nl + title + nl) by {
        reveal_strlit("\nplaces (code -> name):\n");
        reveal_strlit("places (code -> name):");
    }
    reading::empty_lacks('\n');
    reading::split_of_one(note, '\n');
    reading::split_of_one(e0, '\n');
    reading::split_of_one(title, '\n');
    reading::split_of_two(note, e0, '\n');
    assert(seq![note] + seq![e0] =~= seq![note, e0]);
    if legend.len() > 0 {
        code_lines_are(legend);
        let codes = text::concat(
            legend.map_values(|e: (Seq<char>, Seq<char>)| trainmap::code_line(e)),
        );
        reading::split_of_two(note + nl + e0, title, '\n');
        reading::split_of_two(note + nl + e0 + nl + title, codes, '\n');
        assert(trainmap::overlay_text(legend) =~= note + nl + e0 + nl + title + nl + codes);
        assert(seq![note, e0] + seq![title] =~= seq![note, e0, title]);
    }
}

// ---------- the dots of a cell ----------

/// The number that the dot in a column and row of a braille cell goes by: one to three
/// down the left and four to six down the right, seven and eight below them.
pub open spec fn dot_number(col: int, row: int) -> int {
    if row == 3 {
        7 + col
    } else {
        1 + 3 * col + row
    }
}

/// The dots of a cell are numbered as braille numbers them, and a dot's bit is that of
/// its number.
pub proof fn law_dots_are_numbered_as_in_braille(col: int, row: int)
    requires
        0 <= col < 2,
        0 <= row < 4,
    ensures
        braille::bit_of(col, row) == vstd::arithmetic::power2::pow2(
            (dot_number(col, row) - 1) as nat,
        ),
{
    vstd::arithmetic::power2::lemma2_to64();
}

} // verus!
