//! Straight lines on an integer grid.

use vstd::prelude::*;

verus! {

/// The distance between two coordinates.
pub open spec fn distance(a: int, b: int) -> int {
    if a <= b {
        b - a
    } else {
        a - b
    }
}

/// `k` steps from `from` in the direction of `to`.
pub open spec fn toward(from: int, to: int, k: int) -> int {
    if from < to {
        from + k
    } else {
        from - k
    }
}

/// How far a line that covers `major` steps one way and `minor` the other has come
/// the other way after `i` steps: `i * minor / major` to the nearest whole number,
/// halves up.
pub open spec fn minor_steps(i: int, minor: int, major: int) -> int {
    if major == 0 {
        0
    } else {
        (2 * (i * minor) + major) / (2 * major)
    }
}

/// How many steps the segment between two points takes.
pub open spec fn segment_steps(x0: int, y0: int, x1: int, y1: int) -> int {
    if distance(x0, x1) >= distance(y0, y1) {
        distance(x0, x1)
    } else {
        distance(y0, y1)
    }
}

/// The point of a segment after `i` steps: the longer of the two distances is
/// covered one unit per step, the shorter one in proportion.
pub open spec fn segment_point(x0: int, y0: int, x1: int, y1: int, i: int) -> (int, int) {
    let dx = distance(x0, x1);
    let dy = distance(y0, y1);
    if dx >= dy {
        (toward(x0, x1, i), toward(y0, y1, minor_steps(i, dy, dx)))
    } else {
        (toward(x0, x1, minor_steps(i, dx, dy)), toward(y0, y1, i))
    }
}

/// The points of the segment from `(x0, y0)` to `(x1, y1)`, in order.
pub open spec fn segment(x0: int, y0: int, x1: int, y1: int) -> Seq<(int, int)> {
    Seq::new(
        (segment_steps(x0, y0, x1, y1) + 1) as nat,
        |i: int| segment_point(x0, y0, x1, y1, i),
    )
}

/// The points that a list holds.
pub open spec fn points(v: Seq<(i32, i32)>) -> Seq<(int, int)> {
    v.map_values(|p: (i32, i32)| (p.0 as int, p.1 as int))
}

/// `b` is the rounded proportion where it misses the proportion by at most half.
proof fn minor_steps_is(i: int, minor: int, major: int, b: int)
    requires
        0 < major,
        -major < 2 * (b * major) - 2 * (i * minor) <= major,
    ensures
        minor_steps(i, minor, major) == b,
{
    let n = 2 * (i * minor) + major;
    let r = n - b * (2 * major);
    assert(b * (2 * major) == 2 * (b * major)) by (nonlinear_arith);
    vstd::arithmetic::div_mod::lemma_fundamental_div_mod_converse(n, 2 * major, b, r);
}

/// The rounded proportion misses the proportion by at most half.
proof fn minor_steps_near(i: int, minor: int, major: int)
    requires
        0 < major,
    ensures
        ({
            let b = minor_steps(i, minor, major);
            -major < 2 * (b * major) - 2 * (i * minor) <= major
        }),
{
    let n = 2 * (i * minor) + major;
    let b = n / (2 * major);
    vstd::arithmetic::div_mod::lemma_fundamental_div_mod(n, 2 * major);
    vstd::arithmetic::div_mod::lemma_mod_bound(n, 2 * major);
    assert((2 * major) * b == 2 * (b * major)) by (nonlinear_arith);
}

/// A multiple of `major` that is at most half of it away from `m * major` is it.
proof fn within_half(b: int, m: int, major: int)
    requires
        0 < major,
        -major < 2 * (b * major) - 2 * (major * m) <= major,
    ensures
        b == m,
{
    assert(b == m) by (nonlinear_arith)
        requires
            0 < major,
            -major < 2 * (b * major) - 2 * (major * m) <= major,
    ;
}

/// The points of the segment from `(x0, y0)` to `(x1, y1)`, by Bresenham's
/// algorithm. Works in any integer grid: char cells or raw pixels.
pub fn bresenham(x0: i32, y0: i32, x1: i32, y1: i32) -> (r: Vec<(i32, i32)>)
    ensures
        points(r@) == segment(x0 as int, y0 as int, x1 as int, y1 as int),
{
    let dx: i64 = if x0 <= x1 {
        x1 as i64 - x0 as i64
    } else {
        x0 as i64 - x1 as i64
    };
    let dy: i64 = if y0 <= y1 {
        y1 as i64 - y0 as i64
    } else {
        y0 as i64 - y1 as i64
    };
    let mut x: i32 = x0;
    let mut y: i32 = y0;
    let mut err: i64 = dx - dy;
    let mut out: Vec<(i32, i32)> = Vec::new();
    let ghost line = segment(x0 as int, y0 as int, x1 as int, y1 as int);
    // Steps taken so far in each direction.
    let ghost mut a: int = 0;
    let ghost mut b: int = 0;
    assert(0 * dy == 0 && 0 * dx == 0);
    assert(points(out@) =~= line.take(0));
    loop
        invariant
            dx == distance(x0 as int, x1 as int),
            dy == distance(y0 as int, y1 as int),
            line == segment(x0 as int, y0 as int, x1 as int, y1 as int),
            0 <= a <= dx,
            0 <= b <= dy,
            x == toward(x0 as int, x1 as int, a),
            y == toward(y0 as int, y1 as int, b),
            err == dx - dy + b * dx - a * dy,
            dx >= dy ==> a == out@.len() && -dx <= 2 * (b * dx) - 2 * (a * dy) <= dx && (dx > 0
                ==> -dx < 2 * (b * dx) - 2 * (a * dy)),
            dx < dy ==> b == out@.len() && -dy <= 2 * (b * dx) - 2 * (a * dy) < dy,
            points(out@) == line.take(out@.len() as int),
            out@.len() < line.len(),
        decreases dx + dy - a - b,
    {
        proof {
            let i = out@.len() as int;
            assert(line[i] == (x as int, y as int)) by {
                if dx >= dy {
                    if dx > 0 {
                        minor_steps_is(i, dy as int, dx as int, b);
                    }
                } else {
                    assert(a * dy == dy * a) by (nonlinear_arith);
                    minor_steps_is(i, dx as int, dy as int, a);
                }
            }
        }
        let ghost before = out@;
        out.push((x, y));
        proof {
            assert(points(out@) =~= points(before).push((x as int, y as int)));
            assert(line.take(before.len() as int).push(line[before.len() as int]) =~= line.take(
                out@.len() as int,
            ));
        }
        if x == x1 && y == y1 {
            proof {
                assert(a == dx && b == dy);
                assert(line.take(out@.len() as int) =~= line);
            }
            return out;
        }
        proof {
            // The longer way is not covered yet: at its end both are.
            if dx >= dy {
                if a == dx {
                    if dx > 0 {
                        within_half(b, dy as int, dx as int);
                    }
                    assert(false);
                }
            } else if b == dy {
                assert(2 * (dy * dx) == 2 * (dx * dy)) by (nonlinear_arith);
                assert(a == dx) by (nonlinear_arith)
                    requires
                        0 < dy,
                        -dy <= 2 * (dy * dx) - 2 * (a * dy) < dy,
                ;
                assert(false);
            }
            assert((a + 1) * dy == a * dy + dy) by (nonlinear_arith);
            assert((b + 1) * dx == b * dx + dx) by (nonlinear_arith);
        }
        let e2: i64 = 2 * err;
        if e2 >= -dy {
            proof {
                if a == dx {
                    assert(dx < dy);
                    assert(2 * (b * dx) - 2 * (dx * dy) >= dy - 2 * dx);
                    assert(b * dx - dx * dy == dx * (b - dy)) by (nonlinear_arith);
                    assert(dx * (b - dy) <= -dx) by (nonlinear_arith)
                        requires
                            b - dy <= -1,
                            0 <= dx,
                    ;
                    assert(false);
                }
                a = a + 1;
            }
            err = err - dy;
            if x0 < x1 {
                x = x + 1;
            } else {
                x = x - 1;
            }
        }
        if e2 <= dx {
            proof {
                if b == dy {
                    assert(dx >= dy);
                    assert(2 * (dy * dx) - 2 * ((a - 1) * dy) <= 2 * dy - dx);
                    assert(dy * dx - (a - 1) * dy == dy * (dx - (a - 1))) by (nonlinear_arith);
                    assert(dy * (dx - (a - 1)) >= dy) by (nonlinear_arith)
                        requires
                            dx - (a - 1) >= 1,
                            0 <= dy,
                    ;
                    assert(false);
                }
                b = b + 1;
            }
            err = err + dx;
            if y0 < y1 {
                y = y + 1;
            } else {
                y = y - 1;
            }
        }
    }
}

// ---------- laws of the segment ----------

/// The rounded proportion of a way is a part of it, none at the start and all at
/// the end.
proof fn minor_steps_in_range(i: int, minor: int, major: int)
    requires
        0 <= i <= major,
        0 <= minor <= major,
    ensures
        0 <= minor_steps(i, minor, major) <= minor,
        i == 0 ==> minor_steps(i, minor, major) == 0,
        i == major ==> minor_steps(i, minor, major) == minor,
{
    if major > 0 {
        let b = minor_steps(i, minor, major);
        minor_steps_near(i, minor, major);
        assert(0 <= i * minor <= major * minor) by (nonlinear_arith)
            requires
                0 <= i <= major,
                0 <= minor,
        ;
        assert(b >= 0) by (nonlinear_arith)
            requires
                0 < major,
                -major < 2 * (b * major) - 2 * (i * minor),
                0 <= i * minor,
        ;
        assert(b <= minor) by (nonlinear_arith)
            requires
                0 < major,
                2 * (b * major) - 2 * (i * minor) <= major,
                i * minor <= major * minor,
        ;
        if i == 0 {
            assert(0 * minor == 0);
            assert(0 * major == 0);
            minor_steps_is(0, minor, major, 0);
        }
        if i == major {
            within_half(b, minor, major);
        }
    }
}

/// A segment starts at its first endpoint and ends at its second.
pub proof fn law_segment_joins_its_endpoints(x0: int, y0: int, x1: int, y1: int)
    ensures
        segment(x0, y0, x1, y1).first() == (x0, y0),
        segment(x0, y0, x1, y1).last() == (x1, y1),
{
    let dx = distance(x0, x1);
    let dy = distance(y0, y1);
    if dx >= dy {
        minor_steps_in_range(0, dy, dx);
        minor_steps_in_range(dx, dy, dx);
    } else {
        minor_steps_in_range(0, dx, dy);
        minor_steps_in_range(dy, dx, dy);
    }
}

proof fn minor_steps_advance(i: int, minor: int, major: int)
    requires
        0 <= i,
        0 <= minor <= major,
        0 < major,
    ensures
        0 <= minor_steps(i + 1, minor, major) - minor_steps(i, minor, major) <= 1,
{
    let b = minor_steps(i, minor, major);
    let c = minor_steps(i + 1, minor, major);
    minor_steps_near(i, minor, major);
    minor_steps_near(i + 1, minor, major);
    assert((i + 1) * minor == i * minor + minor) by (nonlinear_arith);
    assert(c - b > -1 && c - b < 2) by (nonlinear_arith)
        requires
            0 < major,
            0 <= minor <= major,
            -major < 2 * (b * major) - 2 * (i * minor) <= major,
            -major < 2 * (c * major) - 2 * (i * minor + minor) <= major,
    ;
}

/// A segment has no gap: each point touches the one before it, by an edge or by a
/// corner, and is not the same point.
pub proof fn law_segment_is_connected(x0: int, y0: int, x1: int, y1: int, i: int)
    requires
        0 <= i < segment(x0, y0, x1, y1).len() - 1,
    ensures
        ({
            let (ax, ay) = segment(x0, y0, x1, y1)[i];
            let (bx, by) = segment(x0, y0, x1, y1)[i + 1];
            &&& distance(ax, bx) <= 1
            &&& distance(ay, by) <= 1
            &&& (ax, ay) != (bx, by)
        }),
{
    let dx = distance(x0, x1);
    let dy = distance(y0, y1);
    if dx >= dy {
        minor_steps_advance(i, dy, dx);
    } else {
        minor_steps_advance(i, dx, dy);
    }
}

/// No point of a segment lies outside the rectangle that its endpoints span.
pub proof fn law_segment_stays_between_its_endpoints(x0: int, y0: int, x1: int, y1: int, i: int)
    requires
        0 <= i < segment(x0, y0, x1, y1).len(),
    ensures
        ({
            let (x, y) = segment(x0, y0, x1, y1)[i];
            &&& x0 <= x <= x1 || x1 <= x <= x0
            &&& y0 <= y <= y1 || y1 <= y <= y0
        }),
{
    let dx = distance(x0, x1);
    let dy = distance(y0, y1);
    if dx >= dy {
        minor_steps_in_range(i, dy, dx);
    } else {
        minor_steps_in_range(i, dx, dy);
    }
}

/// Every point of a segment is at most half a unit off the straight line between
/// its endpoints, measured across the longer of the two distances.
pub proof fn law_segment_hugs_the_line(x0: int, y0: int, x1: int, y1: int, i: int)
    requires
        0 <= i < segment(x0, y0, x1, y1).len(),
    ensures
        ({
            let (x, y) = segment(x0, y0, x1, y1)[i];
            let dx = distance(x0, x1);
            let dy = distance(y0, y1);
            let off = distance(y0, y) * dx - distance(x0, x) * dy;
            -segment_steps(x0, y0, x1, y1) <= 2 * off <= segment_steps(x0, y0, x1, y1)
        }),
{
    let dx = distance(x0, x1);
    let dy = distance(y0, y1);
    if dx >= dy {
        minor_steps_in_range(i, dy, dx);
        if dx > 0 {
            minor_steps_near(i, dy, dx);
        }
    } else {
        minor_steps_in_range(i, dx, dy);
        minor_steps_near(i, dx, dy);
    }
}

} // verus!
