//! How a reader takes texts apart: lines, numbers, lists.

use crate::project;
use crate::render;
use crate::text;
use vstd::prelude::*;

verus! {

/// The lines of a text.
pub open spec fn lines(s: Seq<char>) -> Seq<Seq<char>> {
    text::split_on(s, '\n')
}

/// How many items of a list have a property.
pub open spec fn count<A>(list: Seq<A>, has: spec_fn(A) -> bool) -> nat
    decreases list.len(),
{
    if list.len() == 0 {
        0
    } else {
        count(list.drop_last(), has) + (if has(list.last()) {
            1nat
        } else {
            0nat
        })
    }
}

/// Splitting two parts with the separator between them splits each.
pub proof fn split_of_two(a: Seq<char>, b: Seq<char>, c: char)
    ensures
        text::split_on(a + seq![c] + b, c) == text::split_on(a, c) + text::split_on(b, c),
    decreases b.len(),
{
    let s = a + seq![c] + b;
    let p = text::split_on(a, c);
    if b.len() == 0 {
        assert(s.drop_last() =~= a);
        assert(s.last() == c);
        assert(text::split_on(s, c) =~= p + text::split_on(b, c));
    } else {
        let front = b.drop_last();
        split_of_two(a, front, c);
        assert(s.drop_last() =~= a + seq![c] + front);
        assert(s.last() == b.last());
        let q = text::split_on(front, c);
        text::split_on_nonempty(front, c);
        assert((p + q).last() == q.last());
        assert((p + q).drop_last() =~= p + q.drop_last());
        assert(text::split_on(s, c) =~= p + text::split_on(b, c));
    }
}

/// A text without the separator is one piece.
pub proof fn split_of_one(s: Seq<char>, c: char)
    requires
        text::lacks(s, c),
    ensures
        text::split_on(s, c) == seq![s],
    decreases s.len(),
{
    reveal(text::lacks);
    if s.len() > 0 {
        assert(s.last() == s[s.len() - 1]);
        split_of_one(s.drop_last(), c);
        assert(s.drop_last().push(s.last()) =~= s);
        assert(text::split_on(s, c) =~= seq![s]);
    } else {
        assert(s =~= Seq::<char>::empty());
        assert(text::split_on(s, c) =~= seq![s]);
    }
}

/// Splitting loses nothing and cuts at every separator: the pieces hold no
/// separator, and joined by it they are the text.
pub proof fn law_pieces_make_up_the_text(s: Seq<char>, c: char)
    ensures
        text::split_on(s, c).len() == count(s, |x: char| x == c) + 1,
        forall|i: int|
            0 <= i < text::split_on(s, c).len() ==> text::lacks(
                #[trigger] text::split_on(s, c)[i],
                c,
            ),
        text::joined(text::split_on(s, c), seq![c]) == s,
    decreases s.len(),
{
    reveal(text::lacks);
    let p = text::split_on(s, c);
    if s.len() == 0 {
        assert(text::joined(p, seq![c]) =~= s);
    } else {
        let front = s.drop_last();
        law_pieces_make_up_the_text(front, c);
        let q = text::split_on(front, c);
        text::split_on_nonempty(front, c);
        if s.last() == c {
            assert(p.drop_last() =~= q);
            assert(text::joined(p, seq![c]) =~= s);
            assert forall|i: int| 0 <= i < p.len() implies text::lacks(#[trigger] p[i], c) by {
                if i < q.len() {
                    assert(p[i] == q[i]);
                }
            }
        } else {
            let last = q.last().push(s.last());
            assert(p =~= q.drop_last().push(last));
            assert(p.drop_last() =~= q.drop_last());
            assert(text::lacks(q[q.len() - 1], c));
            assert forall|i: int| 0 <= i < p.len() implies text::lacks(#[trigger] p[i], c) by {
                if i < q.len() - 1 {
                    assert(p[i] == q[i]);
                }
            }
            if p.len() > 1 {
                assert(text::joined(p, seq![c]) =~= text::joined(q, seq![c]).push(s.last()));
            } else {
                assert(p =~= seq![last]);
                assert(q =~= seq![q.last()]);
            }
            assert(text::joined(p, seq![c]) =~= s);
        }
    }
}

/// The lines of a text that is made of a first line and the rest.
pub proof fn first_line(a: Seq<char>, b: Seq<char>)
    requires
        text::lacks(a, '\n'),
    ensures
        lines(a + seq!['\n'] + b) == seq![a] + lines(b),
{
    split_of_two(a, b, '\n');
    split_of_one(a, '\n');
}

/// A text that comes before another differs from it first by a smaller character, or
/// is the start of it.
pub proof fn law_first_difference_decides(s: Seq<char>, x: char, a: Seq<char>, y: char, b: Seq<char>)
    requires
        x != y,
    ensures
        text::text_le(s + seq![x] + a, s + seq![y] + b) <==> x < y,
        text::text_le(s, s + b),
        b.len() > 0 ==> !text::text_le(s + b, s),
    decreases s.len(),
{
    let p = s + seq![x] + a;
    let q = s + seq![y] + b;
    if s.len() > 0 {
        let t = s.drop_first();
        law_first_difference_decides(t, x, a, y, b);
        assert(p.drop_first() =~= t + seq![x] + a);
        assert(q.drop_first() =~= t + seq![y] + b);
        assert((s + b).drop_first() =~= t + b);
        assert(p[0] == s[0] && q[0] == s[0]);
        assert((s + b)[0] == s[0]);
    } else {
        assert(p[0] == x && q[0] == y);
    }
}

/// A run of digits with a zero in front stands for the same number, and each digit
/// behind a run for ten times the number and the digit.
pub proof fn law_digits_are_decimal(d: Seq<char>, c: char)
    requires
        text::all_digits(d),
        '0' <= c <= '9',
    ensures
        text::digits_value(d.push(c)) == 10 * text::digits_value(d) + (c as nat - '0' as nat),
        text::digits_value(seq!['0'] + d) == text::digits_value(d),
    decreases d.len(),
{
    assert(d.push(c).drop_last() =~= d);
    if d.len() > 0 {
        let front = d.drop_last();
        assert forall|i: int| 0 <= i < front.len() implies '0' <= #[trigger] front[i] <= '9' by {
            assert(front[i] == d[i]);
        }
        law_digits_are_decimal(front, c);
        assert((seq!['0'] + d).drop_last() =~= seq!['0'] + front);
        assert((seq!['0'] + d).last() == d.last());
    } else {
        reveal_with_fuel(text::digits_value, 2);
        assert((seq!['0'] + d).drop_last() =~= Seq::<char>::empty());
    }
}

/// A number that is written out is read back, with or without a plus sign, exactly
/// where it is within the bound; a text that holds anything but digits behind the sign
/// is no number.
pub proof fn law_numbers_are_read_back(n: nat, max: nat, s: Seq<char>)
    ensures
        n <= max ==> text::parsed_uint(text::dec(n), max) == Some(n),
        n <= max ==> text::parsed_uint(seq!['+'] + text::dec(n), max) == Some(n),
        n > max ==> text::parsed_uint(text::dec(n), max) is None,
        text::parsed_uint(s, max) matches Some(v) ==> v <= max && s.len() > 0,
        (exists|i: int| 0 <= i < s.len() && !('0' <= #[trigger] s[i] <= '9') && (i > 0 || s[i]
            != '+')) ==> text::parsed_uint(s, max) is None,
        s.len() == 0 ==> text::parsed_uint(s, max) is None,
{
    text::dec_is_digits(n);
    let d = text::dec(n);
    assert('0' <= d[0] <= '9');
    assert((seq!['+'] + d).drop_first() =~= d);
    if exists|i: int| 0 <= i < s.len() && !('0' <= #[trigger] s[i] <= '9') && (i > 0 || s[i]
        != '+') {
        let i = choose|i: int|
            0 <= i < s.len() && !('0' <= #[trigger] s[i] <= '9') && (i > 0 || s[i] != '+');
        let u = text::unsigned_part(s);
        if s[0] == '+' {
            assert(u[i - 1] == s[i]);
        } else {
            assert(u[i] == s[i]);
        }
    }
}

/// The number of hundred-thousandths that a number with five decimal places stands
/// for.
pub open spec fn hundred_thousandths(s: Seq<char>) -> int {
    let negative = s.len() > 0 && s[0] == '-';
    let body = if negative {
        s.drop_first()
    } else {
        s
    };
    let k = body.len() - 6;
    let v = text::digits_value(body.take(k)) * 100000 + text::digits_value(body.skip(k + 1));
    if negative {
        -v
    } else {
        v as int
    }
}

proof fn low_digits_are(n: nat, w: nat)
    ensures
        text::low_digits(n, w).len() == w,
        text::all_digits(text::low_digits(n, w)),
    decreases w,
{
    if w > 0 {
        low_digits_are(n / 10, (w - 1) as nat);
        let d = text::low_digits(n, w);
        let h = text::low_digits(n / 10, (w - 1) as nat);
        assert forall|i: int| 0 <= i < d.len() implies '0' <= #[trigger] d[i] <= '9' by {
            if i < h.len() {
                assert(d[i] == h[i]);
            }
        }
    }
}

proof fn five_digits_read(n: nat)
    ensures
        text::digits_value(text::low_digits(n, 5)) == n % 100000,
{
    reveal_with_fuel(text::low_digits, 6);
    reveal_with_fuel(text::digits_value, 6);
    let a = text::low_digits(n / 10000, 1);
    let b = text::low_digits(n / 1000, 2);
    let c = text::low_digits(n / 100, 3);
    let d = text::low_digits(n / 10, 4);
    let e = text::low_digits(n, 5);
    assert(n / 10 / 10 == n / 100 && n / 100 / 10 == n / 1000 && n / 1000 / 10 == n / 10000);
    assert(e.drop_last() =~= d);
    assert(d.drop_last() =~= c);
    assert(c.drop_last() =~= b);
    assert(b.drop_last() =~= a);
    assert(a.drop_last() =~= Seq::<char>::empty());
}

proof fn rounded_is_nearest(raw: i64)
    ensures
        ({
            let one = project::DEGREE as int;
            let q = project::rounded_e5(raw) as int;
            let n = (if raw < 0 {
                -(raw as int)
            } else {
                raw as int
            }) * 100000;
            &&& -one <= 2 * (q * one - n) <= one
            &&& (2 * (q * one - n) == one || 2 * (q * one - n) == -one) ==> q % 2 == 0
        }),
{
    let one = project::DEGREE as int;
    let n = (if raw < 0 {
        -(raw as int)
    } else {
        raw as int
    }) * 100000;
    assert(n == (n / one) * one + n % one);
}

proof fn printed_is_rounded(raw: i64)
    ensures
        ({
            let s = project::five_places(raw);
            let q = project::rounded_e5(raw) as int;
            &&& s.len() >= 7
            &&& s[s.len() - 6] == '.'
            &&& (s[0] == '-' <==> raw < 0)
            &&& hundred_thousandths(s) == (if raw < 0 {
                -q
            } else {
                q
            })
        }),
{
    reveal_strlit("-");
    reveal_strlit("");
    reveal_strlit(".");
    let q = project::rounded_e5(raw);
    let s = project::five_places(raw);
    let head = text::dec(q / 100000);
    let tail = text::low_digits(q, 5);
    text::dec_is_digits(q / 100000);
    low_digits_are(q, 5);
    five_digits_read(q);
    let body = head + "."@ + tail;
    assert('0' <= head[0] <= '9');
    if raw < 0 {
        assert(s.drop_first() =~= body);
        assert(s[0] == '-');
    } else {
        assert(s =~= body);
        assert(s[0] == head[0]);
    }
    let k = body.len() - 6;
    assert(body.take(k) =~= head);
    assert(body.skip(k + 1) =~= tail);
    assert(body[k] == '.');
    assert(q / 100000 * 100000 + q % 100000 == q);
}

/// A coordinate is printed with five decimal places, to the nearest: what is read
/// back is at most half a hundred-thousandth of a degree off, and of two that are
/// equally near it is the even one.
pub proof fn law_degrees_print_to_the_nearest(raw: i64)
    ensures
        ({
            let s = project::five_places(raw);
            let v = hundred_thousandths(s);
            let off = v * project::DEGREE - raw * 100000;
            &&& s.len() >= 7
            &&& s[s.len() - 6] == '.'
            &&& (s[0] == '-' <==> raw < 0)
            &&& -(project::DEGREE as int) <= 2 * off <= project::DEGREE
            &&& (2 * off == project::DEGREE || 2 * off == -(project::DEGREE as int)) ==> v % 2 == 0
        }),
{
    printed_is_rounded(raw);
    rounded_is_nearest(raw);
}

proof fn three_digits_read(n: nat)
    requires
        n < 1000,
    ensures
        text::digits_value(text::low_digits(n, 3)) == n,
{
    reveal_with_fuel(text::low_digits, 4);
    reveal_with_fuel(text::digits_value, 4);
    let a = text::low_digits(n / 100, 1);
    let b = text::low_digits(n / 10, 2);
    let c = text::low_digits(n, 3);
    assert(n / 10 / 10 == n / 100);
    assert(c.drop_last() =~= b);
    assert(b.drop_last() =~= a);
    assert(a.drop_last() =~= Seq::<char>::empty());
}

/// A heading is written with at least three digits, which stand for it.
pub proof fn law_headings_are_read_back(n: nat)
    ensures
        text::all_digits(render::three_digits(n)),
        text::digits_value(render::three_digits(n)) == n,
        n < 1000 ==> render::three_digits(n).len() == 3,
{
    low_digits_are(n, 3);
    text::dec_is_digits(n);
    if n < 1000 {
        three_digits_read(n);
    }
}

/// The direction, in degrees, that a point of the compass names.
pub open spec fn bearing(point: Seq<char>) -> int {
    if point == "N"@ {
        0
    } else if point == "NE"@ {
        45
    } else if point == "E"@ {
        90
    } else if point == "SE"@ {
        135
    } else if point == "S"@ {
        180
    } else if point == "SW"@ {
        225
    } else if point == "W"@ {
        270
    } else {
        315
    }
}

/// How far apart two directions are, the short way round.
pub open spec fn apart(a: int, b: int) -> int {
    let d = (a - b) % 360;
    if d <= 180 {
        d
    } else {
        360 - d
    }
}

/// A heading is named by the nearest of the eight points of the compass.
pub proof fn law_compass_point_is_the_nearest(deg: u16)
    ensures
        2 * apart(deg as int, bearing(render::compass_of(deg))) <= 45,
        render::compass_points().contains(render::compass_of(deg)),
        render::compass_of(deg) == "NW"@ || bearing(render::compass_of(deg)) != 315,
{
    reveal_strlit("N");
    reveal_strlit("NE");
    reveal_strlit("E");
    reveal_strlit("SE");
    reveal_strlit("S");
    reveal_strlit("SW");
    reveal_strlit("W");
    reveal_strlit("NW");
    let k = ((deg as int % 360) + 22) / 45 % 8;
    assert("N"@ != "NE"@ && "N"@ != "E"@ && "N"@ != "SE"@ && "N"@ != "S"@ && "N"@ != "SW"@ && "N"@
        != "W"@ && "N"@ != "NW"@) by {
        assert("N"@[0] == 'N' && "E"@[0] == 'E' && "S"@[0] == 'S' && "W"@[0] == 'W');
        assert("NE"@.len() == 2 && "SE"@.len() == 2 && "SW"@.len() == 2 && "NW"@.len() == 2);
    }
    assert("E"@ != "NE"@ && "E"@ != "SE"@ && "E"@ != "S"@ && "E"@ != "SW"@ && "E"@ != "W"@ && "E"@
        != "NW"@) by {
        assert("E"@[0] == 'E' && "S"@[0] == 'S' && "W"@[0] == 'W');
    }
    assert("S"@ != "W"@) by {
        assert("S"@[0] == 'S' && "W"@[0] == 'W');
    }
    assert("NE"@ != "SE"@ && "NE"@ != "SW"@ && "NE"@ != "NW"@ && "SE"@ != "SW"@ && "SE"@ != "NW"@
        && "SW"@ != "NW"@) by {
        assert("NE"@[0] == 'N' && "NE"@[1] == 'E' && "SE"@[0] == 'S' && "SE"@[1] == 'E' && "SW"@[0]
            == 'S' && "SW"@[1] == 'W' && "NW"@[0] == 'N' && "NW"@[1] == 'W');
    }
    assert(render::compass_points()[k] == render::compass_of(deg));
}

// ---------- lines, part by part ----------

/// An empty text holds no character.
pub proof fn empty_lacks(c: char)
    ensures
        text::lacks(Seq::<char>::empty(), c),
{
    reveal(text::lacks);
}

/// A text without a line end is one line.
pub proof fn start_of_lines(s: Seq<char>)
    requires
        text::lacks(s, '\n'),
    ensures
        lines(s) == Seq::<Seq<char>>::empty().push(s),
{
    split_of_one(s, '\n');
    assert(seq![s] =~= Seq::<Seq<char>>::empty().push(s));
}

/// What is put behind a text without a line end stands in its last line.
pub proof fn more_of_a_line(x: Seq<char>, d: Seq<Seq<char>>, c: Seq<char>, s: Seq<char>)
    requires
        lines(x) == d.push(c),
        text::lacks(s, '\n'),
    ensures
        lines(x + s) == d.push(c + s),
    decreases s.len(),
{
    if s.len() == 0 {
        assert(x + s =~= x);
        assert(c + s =~= c);
    } else {
        let f = s.drop_last();
        assert(text::lacks(f, '\n') && s.last() != '\n') by {
            reveal(text::lacks);
            assert(s.last() == s[s.len() - 1]);
        }
        more_of_a_line(x, d, c, f);
        assert((x + s).drop_last() =~= x + f);
        assert(d.push(c + f).drop_last() =~= d);
        assert((c + f).push(s.last()) =~= c + s);
    }
}

/// A line end and a text behind it are a line more.
pub proof fn next_line(x: Seq<char>, d: Seq<Seq<char>>, c: Seq<char>, s: Seq<char>)
    requires
        lines(x) == d.push(c),
        text::lacks(s, '\n'),
    ensures
        lines(x + seq!['\n'] + s) == d.push(c).push(s),
{
    split_of_two(x, s, '\n');
    split_of_one(s, '\n');
    assert(d.push(c) + seq![s] =~= d.push(c).push(s));
}

/// A text with a line end in it, put behind another.
pub proof fn line_break(
    x: Seq<char>,
    d: Seq<Seq<char>>,
    c: Seq<char>,
    s: Seq<char>,
    u: Seq<char>,
    v: Seq<char>,
)
    requires
        lines(x) == d.push(c),
        s == u + seq!['\n'] + v,
        text::lacks(u, '\n'),
        text::lacks(v, '\n'),
    ensures
        lines(x + s) == d.push(c + u).push(v),
{
    more_of_a_line(x, d, c, u);
    next_line(x + u, d, c + u, v);
    assert(x + s =~= x + u + seq!['\n'] + v);
}

/// A text with two line ends in it, put behind another.
pub proof fn two_line_breaks(
    x: Seq<char>,
    d: Seq<Seq<char>>,
    c: Seq<char>,
    s: Seq<char>,
    u: Seq<char>,
    m: Seq<char>,
    v: Seq<char>,
)
    requires
        lines(x) == d.push(c),
        s == u + seq!['\n'] + m + seq!['\n'] + v,
        text::lacks(u, '\n'),
        text::lacks(m, '\n'),
        text::lacks(v, '\n'),
    ensures
        lines(x + s) == d.push(c + u).push(m).push(v),
{
    let s1 = u + seq!['\n'] + m;
    line_break(x, d, c, s1, u, m);
    next_line(x + s1, d.push(c + u), m, v);
    assert(x + s =~= x + s1 + seq!['\n'] + v);
}

/// A text with three line ends in it, put behind another.
pub proof fn three_line_breaks(
    x: Seq<char>,
    d: Seq<Seq<char>>,
    c: Seq<char>,
    s: Seq<char>,
    u: Seq<char>,
    m: Seq<char>,
    n: Seq<char>,
    v: Seq<char>,
)
    requires
        lines(x) == d.push(c),
        s == u + seq!['\n'] + m + seq!['\n'] + n + seq!['\n'] + v,
        text::lacks(u, '\n'),
        text::lacks(m, '\n'),
        text::lacks(n, '\n'),
        text::lacks(v, '\n'),
    ensures
        lines(x + s) == d.push(c + u).push(m).push(n).push(v),
{
    let s1 = u + seq!['\n'] + m + seq!['\n'] + n;
    two_line_breaks(x, d, c, s1, u, m, n);
    next_line(x + s1, d.push(c + u).push(m), n, v);
    assert(x + s =~= x + s1 + seq!['\n'] + v);
}

/// A text of several lines put at the start of a line.
pub proof fn more_lines(x: Seq<char>, d: Seq<Seq<char>>, s: Seq<char>)
    requires
        lines(x) == d.push(Seq::<char>::empty()),
    ensures
        lines(x + s) == d + lines(s),
    decreases s.len(),
{
    if s.len() == 0 {
        assert(x + s =~= x);
        assert(d + lines(s) =~= d.push(Seq::<char>::empty()));
    } else {
        let f = s.drop_last();
        more_lines(x, d, f);
        assert((x + s).drop_last() =~= x + f);
        text::split_on_nonempty(f, '\n');
        let q = lines(f);
        assert((d + q).drop_last() =~= d + q.drop_last());
        assert(lines(x + s) =~= d + lines(s));
    }
}

/// Parts joined with a character between them are the parts that the character parts
/// the whole into, where none of them holds it.
pub proof fn law_joined_parts_can_be_parted(list: Seq<Seq<char>>, c: char)
    requires
        list.len() > 0,
        forall|i: int| 0 <= i < list.len() ==> text::lacks(#[trigger] list[i], c),
    ensures
        text::split_on(text::joined(list, seq![c]), c) == list,
    decreases list.len(),
{
    if list.len() == 1 {
        split_of_one(list[0], c);
        assert(list =~= seq![list[0]]);
    } else {
        let f = list.drop_last();
        assert forall|i: int| 0 <= i < f.len() implies text::lacks(#[trigger] f[i], c) by {
            assert(f[i] == list[i]);
        }
        law_joined_parts_can_be_parted(f, c);
        assert(list[list.len() - 1] == list.last());
        split_of_two(text::joined(f, seq![c]), list.last(), c);
        split_of_one(list.last(), c);
        assert(f + seq![list.last()] =~= list);
    }
}

/// A text joined from lines falls into these lines.
pub proof fn lines_of_joined(list: Seq<Seq<char>>)
    requires
        list.len() > 0,
        forall|i: int| 0 <= i < list.len() ==> text::lacks(#[trigger] list[i], '\n'),
    ensures
        lines(text::joined(list, "\n"@)) == list,
{
    reveal_strlit("\n");
    assert("\n"@ =~= seq!['\n']);
    law_joined_parts_can_be_parted(list, '\n');
}

/// A coordinate holds no line end.
pub proof fn degrees_are_one_line(raw: i64)
    ensures
        text::lacks(project::five_places(raw), '\n'),
{
    broadcast use text::lacks_both;

    let q = project::rounded_e5(raw);
    text::dec_lacks(q / 100000, '\n');
    low_digits_are(q, 5);
    assert(text::lacks("-"@, '\n') && text::lacks(""@, '\n') && text::lacks("."@, '\n')
        && text::lacks(text::low_digits(q, 5), '\n')) by {
        reveal(text::lacks);
        reveal_strlit("-");
        reveal_strlit("");
        reveal_strlit(".");
    }
}

/// The name and the colour of a line hold no line end where its key holds none.
pub proof fn labels_are_one_line(key: Seq<char>)
    requires
        text::lacks(key, '\n'),
    ensures
        text::lacks(render::label_of(key), '\n'),
        text::lacks(render::hex_of(key), '\n'),
{
    reveal(text::lacks);
    reveal_strlit("Red");
    reveal_strlit("Blue");
    reveal_strlit("Brown");
    reveal_strlit("Green");
    reveal_strlit("Orange");
    reveal_strlit("Purple");
    reveal_strlit("Pink");
    reveal_strlit("Yellow");
    reveal_strlit("#c60c30");
    reveal_strlit("#00a1de");
    reveal_strlit("#62361b");
    reveal_strlit("#009b3a");
    reveal_strlit("#f9461c");
    reveal_strlit("#522398");
    reveal_strlit("#e27ea6");
    reveal_strlit("#f9e300");
    reveal_strlit("#888888");
}

/// A heading holds no line end.
pub proof fn headings_are_one_line(n: nat)
    ensures
        text::lacks(render::three_digits(n), '\n'),
{
    reveal(text::lacks);
    law_headings_are_read_back(n);
}

/// Padding only adds blanks, behind the text, up to the width asked for.
pub proof fn law_padding_adds_blanks_behind(s: Seq<char>, w: nat, i: int)
    requires
        0 <= i < text::padded(s, w).len(),
    ensures
        text::padded(s, w).len() == (if s.len() < w {
            w
        } else {
            s.len()
        }),
        text::padded(s, w)[i] == (if i < s.len() {
            s[i]
        } else {
            ' '
        }),
{
}

/// A text starts with another exactly where it is that text and something behind it.
pub proof fn law_prefixes_are_followed_by_the_rest(s: Seq<char>, p: Seq<char>, t: Seq<char>)
    ensures
        text::starts_with(p + t, p),
        text::starts_with(s, p) ==> s == p + s.skip(p.len() as int),
{
    assert((p + t).take(p.len() as int) =~= p);
    if text::starts_with(s, p) {
        assert(s =~= s.take(p.len() as int) + s.skip(p.len() as int));
    }
}

/// Case is ignored for the letters from A to Z and for no other character.
pub proof fn law_only_the_case_of_letters_is_ignored(a: char, b: char)
    ensures
        ({
            let same = text::same_but_case(seq![a], seq![b]);
            let pair = ('A' <= a <= 'Z' && b as int == a as int + 32) || ('A' <= b <= 'Z' && a as int
                == b as int + 32);
            same <==> a == b || pair
        }),
{
    assert(text::same_but_case(seq![a], seq![b]) <==> text::lower(a) == text::lower(b)) by {
        assert(seq![a][0] == a && seq![b][0] == b);
    }
}

/// Of the ASCII characters the blank and those from the tab to the return are white
/// space, and no other one.
pub proof fn law_ascii_white_space(c: char)
    requires
        c as int <= 127,
    ensures
        text::is_space(c) <==> c == ' ' || c == '\t' || c == '\n' || c == '\x0b' || c == '\x0c' || c
            == '\r',
{
}

} // verus!
