//! Lat/lon -> braille-pixel projection for the CTA service area.
//!
//! Coordinates are degrees in binary fixed point, [`DEGREE`] to the degree. At
//! 47 fraction bits every double-precision latitude and longitude of the plotted
//! area is represented exactly, and everything below is integer arithmetic.
//!
//! The plot corrects for two distortions: at this latitude a degree of longitude
//! spans less ground than a degree of latitude (by the cosine of the latitude),
//! and a character cell is taller than it is wide. Both go into the row budget of
//! [`geometry`]; [`project`] itself is linear in each coordinate.

use crate::text;
use vstd::prelude::*;

verus! {

/// Units per degree (2 to the 47th).
pub const DEGREE: i64 = 140737488355328;

/// South edge of the plotted area: 41.65 degrees.
pub const LAT_MIN: i64 = 5861716389999411;

/// North edge: 42.07 degrees.
pub const LAT_MAX: i64 = 5920826135108649;

/// West edge: -87.90 degrees.
pub const LON_MIN: i64 = -12370825226433332;

/// East edge: -87.45 degrees, past the shoreline into open lake.
pub const LON_MAX: i64 = -12307493356673434;

/// Height of the plotted area in coordinate units.
pub const LAT_SPAN: i64 = 59109745109238;

/// Width of the plotted area in coordinate units.
pub const LON_SPAN: i64 = 63331869759898;

/// The cosine of the mid-latitude (41.86 degrees) in units of 2 to the -30th: how
/// much shorter a degree of longitude is than a degree of latitude.
pub const LON_SHRINK: u128 = 799698859;

/// One, in the units of [`LON_SHRINK`].
pub const SHRINK_ONE: u128 = 1073741824;

/// How many times taller than wide a character cell is.
pub const CELL_ASPECT: u128 = 2;

/// Column budget in character cells; the rows are derived from it.
pub const W: usize = 48;

/// Canvas size, in character cells and in braille pixels (2 x 4 to the cell).
#[derive(Debug, Clone, Copy, PartialEq, Eq, Structural)]
pub struct Geometry {
    pub wc: usize,
    pub hc: usize,
    pub wp: usize,
    pub hp: usize,
}

impl Geometry {
    /// The pixel sizes are those of the cell sizes, and there is at least one cell.
    pub open spec fn valid(self) -> bool {
        &&& self.wc > 0
        &&& self.hc > 0
        &&& self.wp == 2 * self.wc
        &&& self.hp == 4 * self.hc
        &&& self.wc * self.hc <= usize::MAX
    }

    /// There is a pixel row, the cells can be counted, and their coordinates fit the
    /// signed coordinates that the drawn layers use.
    pub open spec fn plottable(self) -> bool {
        &&& self.hp > 0
        &&& self.wc * self.hc <= usize::MAX
        &&& self.wc <= i32::MAX
        &&& self.hc <= i32::MAX
        &&& self.wp <= i32::MAX
        &&& self.hp <= i32::MAX
    }
}

/// `num / den` rounded to the nearest whole number, halves up.
pub open spec fn nearest(num: int, den: int) -> int {
    (2 * num + den) / (2 * den)
}

/// `k` is the rounded quotient where the quotient is within half of it.
proof fn nearest_is(num: int, den: int, k: int)
    requires
        0 < den,
        -den <= 2 * num - 2 * (k * den) < den,
    ensures
        nearest(num, den) == k,
{
    let n = 2 * num + den;
    let r = n - 2 * (k * den);
    assert(n == k * (2 * den) + r) by (nonlinear_arith)
        requires
            r == n - 2 * (k * den),
    ;
    vstd::arithmetic::div_mod::lemma_fundamental_div_mod_converse(n, 2 * den, k, r);
}

/// The row budget for `wc` columns: rows and columns span the same distance on
/// the ground once the cell aspect is taken into account.
pub open spec fn row_budget(wc: int) -> int {
    let rows = nearest(
        LAT_SPAN * SHRINK_ONE * wc,
        LON_SPAN * LON_SHRINK * CELL_ASPECT,
    );
    if rows < 1 {
        1
    } else {
        rows
    }
}

/// The canvas geometry for the plotted area and the column budget.
pub fn geometry() -> (g: Geometry)
    ensures
        g.wc == W,
        g.hc == row_budget(W as int),
        g.wp == 2 * g.wc,
        g.hp == 4 * g.hc,
        g == (Geometry { wc: 48, hc: 30, wp: 96, hp: 120 }),
        g.valid(),
        g.plottable(),
{
    let wc: usize = W;
    proof {
        assert(LAT_SPAN * SHRINK_ONE * W == 3046493065428877889765376int);
        assert(LON_SPAN * LON_SHRINK * CELL_ASPECT == 101292847970654069112764int);
        nearest_is(LAT_SPAN * SHRINK_ONE * W, LON_SPAN * LON_SHRINK * CELL_ASPECT, 30);
    }
    let num: u128 = (LAT_SPAN as u128) * SHRINK_ONE * (wc as u128);
    let den: u128 = (LON_SPAN as u128) * LON_SHRINK * CELL_ASPECT;
    let rows: u128 = (2 * num + den) / (2 * den);
    let hc: usize = if rows < 1 {
        1
    } else {
        rows as usize
    };
    Geometry { wc, hc, wp: wc * 2, hp: hc * 4 }
}

/// Whether a point lies in the plotted area, edges included.
pub open spec fn in_bbox(lat: i64, lon: i64) -> bool {
    LAT_MIN <= lat <= LAT_MAX && LON_MIN <= lon <= LON_MAX
}

/// The pixel column of a longitude on a canvas `wp` pixels wide.
pub open spec fn column(lon: i64, wp: nat) -> int {
    if wp == 0 {
        0
    } else {
        nearest((lon - LON_MIN) * (wp - 1), LON_SPAN as int)
    }
}

/// The pixel row of a latitude on a canvas `hp` pixels high, north up.
pub open spec fn row(lat: i64, hp: nat) -> int {
    (hp - 1) - nearest((lat - LAT_MIN) * (hp - 1), LAT_SPAN as int)
}

/// Where [`project`] puts a point.
pub open spec fn projected(lat: i64, lon: i64, geo: Geometry) -> Option<(int, int)> {
    if in_bbox(lat, lon) {
        Some((column(lon, geo.wp as nat), row(lat, geo.hp as nat)))
    } else {
        None
    }
}

/// A fraction of a whole scales to no more than the whole, rounding included.
pub proof fn nearest_in_range(d: int, span: int, scale: int)
    requires
        0 <= d <= span,
        0 < span,
        0 <= scale,
    ensures
        0 <= nearest(d * scale, span) <= scale,
{
    assert(0 <= d * scale <= span * scale) by (nonlinear_arith)
        requires
            0 <= d <= span,
            0 <= scale,
    ;
    let n = 2 * (d * scale) + span;
    assert(n <= 2 * (span * scale) + span);
    assert(n / (2 * span) <= scale) by (nonlinear_arith)
        requires
            n <= 2 * (span * scale) + span,
            0 < span,
    ;
    assert(n / (2 * span) >= 0) by (nonlinear_arith)
        requires
            n >= 0,
            0 < span,
    ;
}

/// `d * scale / span` to the nearest whole number.
fn scaled(d: u64, span: u64, scale: u64) -> (r: u64)
    requires
        d <= span,
        0 < span < 0x4000_0000_0000_0000,
    ensures
        r == nearest(d * scale, span as int),
        r <= scale,
{
    proof {
        nearest_in_range(d as int, span as int, scale as int);
        assert(d * scale <= 0x4000_0000_0000_0000 * 0x1_0000_0000_0000_0000) by (nonlinear_arith)
            requires
                d < 0x4000_0000_0000_0000,
                scale < 0x1_0000_0000_0000_0000,
        ;
    }
    let num: u128 = 2 * ((d as u128) * (scale as u128)) + span as u128;
    let den: u128 = 2 * (span as u128);
    (num / den) as u64
}

/// Project `(lat, lon)` to a braille pixel. `None` for points outside the plotted
/// area: they are dropped rather than clamped to an edge. North is up.
pub fn project(lat: i64, lon: i64, geo: &Geometry) -> (r: Option<(usize, usize)>)
    requires
        geo.hp > 0,
    ensures
        match r {
            Some((x, y)) => projected(lat, lon, *geo) == Some((x as int, y as int)),
            None => projected(lat, lon, *geo) is None,
        },
        r matches Some((x, y)) ==> y < geo.hp && (geo.wp > 0 ==> x < geo.wp),
{
    if lat < LAT_MIN || LAT_MAX < lat || lon < LON_MIN || LON_MAX < lon {
        return None;
    }
    let east: u64 = (lon - LON_MIN) as u64;
    let north: u64 = (lat - LAT_MIN) as u64;
    let x: usize = if geo.wp == 0 {
        0
    } else {
        scaled(east, LON_SPAN as u64, (geo.wp - 1) as u64) as usize
    };
    let up: usize = scaled(north, LAT_SPAN as u64, (geo.hp - 1) as u64) as usize;
    Some((x, (geo.hp - 1) - up))
}

// ---------- laws of the projection ----------

/// A point is plotted exactly when it lies in the plotted area, and a plotted
/// point lies on the canvas.
pub proof fn law_projection_lands_on_canvas(lat: i64, lon: i64, geo: Geometry)
    requires
        geo.valid(),
    ensures
        projected(lat, lon, geo) is Some <==> in_bbox(lat, lon),
        projected(lat, lon, geo) matches Some((x, y)) ==> 0 <= x < geo.wp && 0 <= y < geo.hp,
{
    if in_bbox(lat, lon) {
        nearest_in_range(lon - LON_MIN, LON_SPAN as int, geo.wp - 1);
        nearest_in_range(lat - LAT_MIN, LAT_SPAN as int, geo.hp - 1);
    }
}

/// The corners of the plotted area are the corners of the canvas, north up.
pub proof fn law_corners_map_to_corners(geo: Geometry)
    requires
        geo.valid(),
    ensures
        projected(LAT_MIN, LON_MIN, geo) == Some((0int, geo.hp - 1)),
        projected(LAT_MAX, LON_MAX, geo) == Some((geo.wp - 1, 0int)),
        projected(LAT_MAX, LON_MIN, geo) == Some((0int, 0int)),
        projected(LAT_MIN, LON_MAX, geo) == Some((geo.wp - 1, geo.hp - 1)),
{
    let a = geo.wp - 1;
    let b = geo.hp - 1;
    assert(0 * a == 0 && 0 * b == 0) by (nonlinear_arith);
    nearest_is(0, LON_SPAN as int, 0);
    nearest_is(0, LAT_SPAN as int, 0);
    nearest_is(LON_SPAN * a, LON_SPAN as int, a);
    nearest_is(LAT_SPAN * b, LAT_SPAN as int, b);
}

proof fn nearest_monotone(a: int, b: int, den: int)
    requires
        a <= b,
        0 < den,
    ensures
        nearest(a, den) <= nearest(b, den),
{
    vstd::arithmetic::div_mod::lemma_div_is_ordered(2 * a + den, 2 * b + den, 2 * den);
}

/// Further north is never lower on the canvas, further east never further left.
pub proof fn law_north_up_east_right(lat1: i64, lon1: i64, lat2: i64, lon2: i64, geo: Geometry)
    requires
        geo.valid(),
        in_bbox(lat1, lon1),
        in_bbox(lat2, lon2),
    ensures
        ({
            let (x1, y1) = projected(lat1, lon1, geo)->0;
            let (x2, y2) = projected(lat2, lon2, geo)->0;
            (lat1 <= lat2 ==> y2 <= y1) && (lon1 <= lon2 ==> x1 <= x2)
        }),
{
    let a = geo.wp - 1;
    let b = geo.hp - 1;
    if lat1 <= lat2 {
        assert((lat1 - LAT_MIN) * b <= (lat2 - LAT_MIN) * b) by (nonlinear_arith)
            requires
                lat1 <= lat2,
                b >= 0,
        ;
        nearest_monotone((lat1 - LAT_MIN) * b, (lat2 - LAT_MIN) * b, LAT_SPAN as int);
    }
    if lon1 <= lon2 {
        assert((lon1 - LON_MIN) * a <= (lon2 - LON_MIN) * a) by (nonlinear_arith)
            requires
                lon1 <= lon2,
                a >= 0,
        ;
        nearest_monotone((lon1 - LON_MIN) * a, (lon2 - LON_MIN) * a, LON_SPAN as int);
    }
}

proof fn nearest_is_near(num: int, den: int)
    requires
        0 < den,
    ensures
        -den < 2 * (nearest(num, den) * den - num) <= den,
{
    let n = 2 * num + den;
    let q = n / (2 * den);
    vstd::arithmetic::div_mod::lemma_fundamental_div_mod(n, 2 * den);
    vstd::arithmetic::div_mod::lemma_mod_bound(n, 2 * den);
    assert((2 * den) * q == 2 * (q * den)) by (nonlinear_arith);
}

/// The pixel of a plotted point is at most half a pixel away from where the point
/// lies on the canvas, in each direction; of two that are equally near it is the one
/// further north or east.
pub proof fn law_within_half_a_pixel(lat: i64, lon: i64, geo: Geometry)
    requires
        geo.valid(),
        in_bbox(lat, lon),
    ensures
        ({
            let (x, y) = projected(lat, lon, geo)->0;
            let up = geo.hp - 1 - y;
            &&& -LON_SPAN < 2 * (x * LON_SPAN - (lon - LON_MIN) * (geo.wp - 1)) <= LON_SPAN
            &&& -LAT_SPAN < 2 * (up * LAT_SPAN - (lat - LAT_MIN) * (geo.hp - 1)) <= LAT_SPAN
        }),
{
    nearest_is_near((lon - LON_MIN) * (geo.wp - 1), LON_SPAN as int);
    nearest_is_near((lat - LAT_MIN) * (geo.hp - 1), LAT_SPAN as int);
}

/// The plotted area reaches from 41.65 to 42.07 degrees north and from 87.90 to 87.45
/// degrees west, to within a unit, and is as wide and as high as its edges say.
pub proof fn law_edges_are_those_of_the_service_area()
    ensures
        DEGREE == vstd::arithmetic::power2::pow2(47),
        -50 <= 100 * LAT_MIN - 4165 * DEGREE <= 50,
        -50 <= 100 * LAT_MAX - 4207 * DEGREE <= 50,
        -100 <= 100 * LON_MIN + 8790 * DEGREE <= 100,
        -100 <= 100 * LON_MAX + 8745 * DEGREE <= 100,
        LAT_SPAN == LAT_MAX - LAT_MIN,
        LON_SPAN == LON_MAX - LON_MIN,
{
    vstd::arithmetic::power2::lemma2_to64();
    vstd::arithmetic::power2::lemma2_to64_rest();
}

/// A column and a row of the canvas are equally far apart on the ground: the rows are
/// at most half a row off what the columns call for.
pub proof fn law_rows_match_the_columns(wc: int)
    requires
        0 < wc,
    ensures
        ({
            let wide = LON_SPAN * LON_SHRINK * CELL_ASPECT;
            let high = LAT_SPAN * SHRINK_ONE * wc;
            &&& row_budget(wc) >= 1
            &&& 2 * (row_budget(wc) * wide - high) <= wide || row_budget(wc) == 1
            &&& -wide < 2 * (row_budget(wc) * wide - high)
        }),
{
    let wide = LON_SPAN * LON_SHRINK * CELL_ASPECT;
    nearest_is_near(LAT_SPAN * SHRINK_ONE * wc, wide);
    let n = nearest(LAT_SPAN * SHRINK_ONE * wc, wide);
    if n < 1 {
        assert(n * wide <= 0) by (nonlinear_arith)
            requires
                n < 1,
                wide > 0,
        ;
    }
}

// ---------- printing ----------

/// `|raw|` in units of a hundred-thousandth of a degree, rounded to the nearest
/// whole unit and to the even one of two that are equally near.
pub open spec fn rounded_e5(raw: i64) -> nat {
    let n = (if raw < 0 {
        -(raw as int)
    } else {
        raw as int
    }) * 100000;
    let q = n / (DEGREE as int);
    let r = n % (DEGREE as int);
    if 2 * r > DEGREE || (2 * r == DEGREE && q % 2 == 1) {
        (q + 1) as nat
    } else {
        q as nat
    }
}

/// A coordinate in degrees, with five decimal places.
pub open spec fn five_places(raw: i64) -> Seq<char> {
    let q = rounded_e5(raw);
    (if raw < 0 {
        "-"@
    } else {
        ""@
    }) + text::dec(q / 100000) + "."@ + text::low_digits(q, 5)
}

/// A coordinate in degrees, with five decimal places.
pub fn degrees_text(raw: i64) -> (r: String)
    ensures
        r@ == five_places(raw),
{
    let abs: u128 = if raw < 0 {
        (-(raw as i128)) as u128
    } else {
        raw as u128
    };
    let n: u128 = abs * 100000;
    let one: u128 = DEGREE as u128;
    let q0: u128 = n / one;
    let r: u128 = n % one;
    let q: u128 = if 2 * r > one || (2 * r == one && q0 % 2 == 1) {
        q0 + 1
    } else {
        q0
    };
    assert(q == rounded_e5(raw));
    let mut out = if raw < 0 {
        "-".to_owned()
    } else {
        "".to_owned()
    };
    text::push_dec(&mut out, q / 100000);
    vstd::string::StringExecFns::append(&mut out, ".");
    text::push_low_digits(&mut out, q, 5);
    out
}

} // verus!
