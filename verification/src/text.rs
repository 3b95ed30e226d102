//! Text building blocks: comparison, trimming, splitting, padding and decimal
//! numbers, each stated over the sequence of characters that a string holds.

use vstd::prelude::*;
use vstd::string::StrSliceExecFns;
use vstd::string::StringExecFns;

verus! {

// ---------- the two std functions the rest of this module stands on ----------

/// `String::push`: appends one character to the end of the string.
pub assume_specification[ String::push ](s: &mut String, c: char)
    ensures
        final(s)@ == old(s)@.push(c),
;

/// `char::from_u32`: the character with the given code, or `None` where the code
/// is a surrogate or above `0x10FFFF`.
pub assume_specification[ char::from_u32 ](i: u32) -> (r: Option<char>)
    ensures
        (i <= 0xD7FF || 0xE000 <= i <= 0x10FFFF) ==> r == Some(i as char),
        !(i <= 0xD7FF || 0xE000 <= i <= 0x10FFFF) ==> r is None,
;

// ---------- characters of a text ----------

/// The characters of `s`, one per slot.
pub fn chars_of(s: &str) -> (v: Vec<char>)
    ensures
        v@ == s@,
{
    let mut it = s.chars();
    let mut v: Vec<char> = Vec::new();
    loop
        invariant
            v@.len() <= s@.len(),
            v@ == s@.take(v@.len() as int),
            vstd::std_specs::iter::IteratorSpec::remaining(&it) == s@.skip(v@.len() as int),
        decreases s@.len() - v@.len(),
    {
        match it.next() {
            Some(c) => {
                v.push(c);
            },
            None => {
                assert(s@.skip(v@.len() as int).len() == 0);
                assert(v@ =~= s@);
                return v;
            },
        }
    }
}

/// The text made of the characters `v[from..to]`.
pub fn text_of(v: &Vec<char>, from: usize, to: usize) -> (s: String)
    requires
        from <= to <= v@.len(),
    ensures
        s@ == v@.subrange(from as int, to as int),
{
    let mut s = String::new();
    let mut i: usize = from;
    while i < to
        invariant
            from <= i <= to <= v@.len(),
            s@ == v@.subrange(from as int, i as int),
        decreases to - i,
    {
        s.push(v[i]);
        i = i + 1;
        assert(s@ =~= v@.subrange(from as int, i as int));
    }
    s
}

/// Whether two texts hold the same characters.
pub fn text_eq(a: &str, b: &str) -> (r: bool)
    ensures
        r == (a@ == b@),
{
    let mut x = a.chars();
    let mut y = b.chars();
    let ghost mut k: int = 0;
    loop
        invariant
            0 <= k <= a@.len(),
            k <= b@.len(),
            vstd::std_specs::iter::IteratorSpec::remaining(&x) == a@.skip(k),
            vstd::std_specs::iter::IteratorSpec::remaining(&y) == b@.skip(k),
            a@.take(k) == b@.take(k),
        decreases a@.len() - k,
    {
        let p = x.next();
        let q = y.next();
        match (p, q) {
            (Some(c), Some(d)) => {
                if c != d {
                    assert(a@[k] == a@.skip(k)[0]);
                    assert(b@[k] == b@.skip(k)[0]);
                    return false;
                }
                proof {
                    assert(a@.take(k + 1) =~= a@.take(k).push(c));
                    assert(b@.take(k + 1) =~= b@.take(k).push(c));
                    k = k + 1;
                }
            },
            (None, None) => {
                assert(a@.skip(k).len() == 0 && b@.skip(k).len() == 0);
                assert(a@ =~= a@.take(k));
                assert(b@ =~= b@.take(k));
                return true;
            },
            (Some(_), None) => {
                assert(b@.skip(k).len() == 0 && a@.skip(k).len() > 0);
                return false;
            },
            (None, Some(_)) => {
                assert(a@.skip(k).len() == 0 && b@.skip(k).len() > 0);
                return false;
            },
        }
    }
}

/// Code-point order on texts: `a` comes no later than `b`. For strings this is
/// also the order of their UTF-8 bytes.
pub open spec fn text_le(a: Seq<char>, b: Seq<char>) -> bool
    decreases a.len(),
{
    if a.len() == 0 {
        true
    } else if b.len() == 0 {
        false
    } else {
        a[0] < b[0] || (a[0] == b[0] && text_le(a.drop_first(), b.drop_first()))
    }
}

/// Of two texts one comes no later than the other, and a text no later than itself.
pub proof fn text_le_total(a: Seq<char>, b: Seq<char>)
    ensures
        text_le(a, b) || text_le(b, a),
        text_le(a, a),
    decreases a.len(),
{
    if a.len() > 0 {
        if b.len() > 0 {
            text_le_total(a.drop_first(), b.drop_first());
        } else {
            text_le_total(a.drop_first(), a.drop_first());
        }
    }
}

/// Code-point order is transitive.
pub proof fn text_le_transitive(a: Seq<char>, b: Seq<char>, c: Seq<char>)
    requires
        text_le(a, b),
        text_le(b, c),
    ensures
        text_le(a, c),
    decreases a.len(),
{
    if a.len() > 0 && a[0] == b[0] && b[0] == c[0] {
        text_le_transitive(a.drop_first(), b.drop_first(), c.drop_first());
    }
}

/// Whether `a` comes no later than `b` in code-point order.
pub fn no_later(a: &str, b: &str) -> (r: bool)
    ensures
        r == text_le(a@, b@),
{
    let x = chars_of(a);
    let y = chars_of(b);
    let mut i: usize = 0;
    assert(x@.skip(0) =~= x@);
    assert(y@.skip(0) =~= y@);
    while i < x.len() && i < y.len()
        invariant
            x@ == a@,
            y@ == b@,
            i <= x@.len(),
            i <= y@.len(),
            text_le(a@, b@) == text_le(x@.skip(i as int), y@.skip(i as int)),
        decreases x@.len() - i,
    {
        assert(x@.skip(i as int)[0] == x@[i as int]);
        assert(y@.skip(i as int)[0] == y@[i as int]);
        assert(x@.skip(i as int).drop_first() =~= x@.skip(i + 1));
        assert(y@.skip(i as int).drop_first() =~= y@.skip(i + 1));
        let c: char = x[i];
        let d: char = y[i];
        if c != d {
            return c < d;
        }
        i = i + 1;
    }
    i == x.len()
}

/// An ASCII letter in lower case; any other character as it is.
pub open spec fn lower(c: char) -> char {
    if 'A' <= c <= 'Z' {
        (c as u8 + 32) as char
    } else {
        c
    }
}

/// Whether two texts are the same but for the case of ASCII letters.
pub open spec fn same_but_case(a: Seq<char>, b: Seq<char>) -> bool {
    a.len() == b.len() && forall|i: int|
        0 <= i < a.len() ==> lower(#[trigger] a[i]) == lower(b[i])
}

fn lower_char(c: char) -> (r: char)
    ensures
        r == lower(c),
{
    if 'A' <= c && c <= 'Z' {
        (c as u8 + 32) as char
    } else {
        c
    }
}

/// Whether two texts are the same but for the case of ASCII letters.
pub fn eq_ignoring_case(a: &str, b: &str) -> (r: bool)
    ensures
        r == same_but_case(a@, b@),
{
    let x = chars_of(a);
    let y = chars_of(b);
    if x.len() != y.len() {
        return false;
    }
    let mut i: usize = 0;
    while i < x.len()
        invariant
            i <= x@.len(),
            x@ == a@,
            y@ == b@,
            x@.len() == y@.len(),
            forall|k: int| 0 <= k < i ==> lower(#[trigger] a@[k]) == lower(b@[k]),
        decreases x@.len() - i,
    {
        if lower_char(x[i]) != lower_char(y[i]) {
            assert(lower(a@[i as int]) != lower(b@[i as int]));
            return false;
        }
        i = i + 1;
    }
    true
}

/// Whether every character of `s` is an ASCII letter or digit.
pub open spec fn is_alnum(s: Seq<char>) -> bool {
    forall|i: int| 0 <= i < s.len() ==> alnum(#[trigger] s[i])
}

/// Whether `c` is an ASCII letter or digit.
pub open spec fn alnum(c: char) -> bool {
    'A' <= c <= 'Z' || 'a' <= c <= 'z' || '0' <= c <= '9'
}

/// Whether `c` is an ASCII letter or digit.
pub fn alnum_char(c: char) -> (r: bool)
    ensures
        r == alnum(c),
{
    ('A' <= c && c <= 'Z') || ('a' <= c && c <= 'z') || ('0' <= c && c <= '9')
}

/// Whether every character of `s` is an ASCII letter or digit.
pub fn all_alnum(s: &str) -> (r: bool)
    ensures
        r == is_alnum(s@),
{
    let v = chars_of(s);
    let mut i: usize = 0;
    while i < v.len()
        invariant
            i <= v@.len(),
            v@ == s@,
            forall|k: int| 0 <= k < i ==> alnum(#[trigger] s@[k]),
        decreases v@.len() - i,
    {
        if !alnum_char(v[i]) {
            assert(!alnum(s@[i as int]));
            return false;
        }
        i = i + 1;
    }
    true
}

// ---------- white space ----------

/// The characters with the Unicode property `White_Space`.
pub open spec fn is_space(c: char) -> bool {
    let u = c as u32;
    ||| 0x09 <= u <= 0x0D
    ||| u == 0x20
    ||| u == 0x85
    ||| u == 0xA0
    ||| u == 0x1680
    ||| 0x2000 <= u <= 0x200A
    ||| u == 0x2028
    ||| u == 0x2029
    ||| u == 0x202F
    ||| u == 0x205F
    ||| u == 0x3000
}

/// Whether `c` is white space.
pub fn white(c: char) -> (r: bool)
    ensures
        r == is_space(c),
{
    let u: u32 = c as u32;
    (0x09 <= u && u <= 0x0D) || u == 0x20 || u == 0x85 || u == 0xA0 || u == 0x1680 || (0x2000 <= u
        && u <= 0x200A) || u == 0x2028 || u == 0x2029 || u == 0x202F || u == 0x205F || u == 0x3000
}

/// `s` without the white space at its end.
pub open spec fn trim_end(s: Seq<char>) -> Seq<char>
    decreases s.len(),
{
    if s.len() > 0 && is_space(s.last()) {
        trim_end(s.drop_last())
    } else {
        s
    }
}

/// `s` without the white space at its start.
pub open spec fn trim_start(s: Seq<char>) -> Seq<char>
    decreases s.len(),
{
    if s.len() > 0 && is_space(s[0]) {
        trim_start(s.drop_first())
    } else {
        s
    }
}

/// `s` without the white space at its two ends.
pub open spec fn trimmed(s: Seq<char>) -> Seq<char> {
    trim_end(trim_start(s))
}

/// How many characters of `v[from..to]` are left once the white space at its end
/// is dropped, as the index behind the last of them.
pub fn content_end(v: &Vec<char>, from: usize, to: usize) -> (e: usize)
    requires
        from <= to <= v@.len(),
    ensures
        from <= e <= to,
        v@.subrange(from as int, e as int) == trim_end(v@.subrange(from as int, to as int)),
{
    let mut e: usize = to;
    while e > from && white(v[e - 1])
        invariant
            from <= e <= to <= v@.len(),
            trim_end(v@.subrange(from as int, e as int)) == trim_end(
                v@.subrange(from as int, to as int),
            ),
        decreases e,
    {
        let ghost s = v@.subrange(from as int, e as int);
        assert(s.last() == v@[e - 1]);
        assert(s.drop_last() =~= v@.subrange(from as int, e - 1));
        e = e - 1;
    }
    proof {
        let s = v@.subrange(from as int, e as int);
        if e > from {
            assert(s.last() == v@[e - 1]);
        }
    }
    e
}

/// `s` without the white space at its two ends.
pub fn trim(s: &str) -> (r: &str)
    ensures
        r@ == trimmed(s@),
{
    let v = chars_of(s);
    let n: usize = v.len();
    let mut from: usize = 0;
    assert(v@.subrange(0, n as int) =~= v@);
    while from < n && white(v[from])
        invariant
            v@ == s@,
            n == v@.len(),
            from <= n,
            trim_start(v@.subrange(from as int, n as int)) == trim_start(s@),
        decreases n - from,
    {
        let ghost t = v@.subrange(from as int, n as int);
        assert(t[0] == v@[from as int]);
        assert(t.drop_first() =~= v@.subrange(from + 1, n as int));
        from = from + 1;
    }
    proof {
        let t = v@.subrange(from as int, n as int);
        if from < n {
            assert(t[0] == v@[from as int]);
        }
    }
    let to = content_end(&v, from, n);
    s.substring_char(from, to)
}

// ---------- searching and splitting ----------

/// Where `c` first stands in `s`, or `s.len()` where it stands nowhere.
pub open spec fn first_index(s: Seq<char>, c: char) -> int
    decreases s.len(),
{
    if s.len() == 0 {
        0
    } else if s[0] == c {
        0
    } else {
        1 + first_index(s.drop_first(), c)
    }
}

/// Where `c` last stands in `s`, or `-1` where it stands nowhere.
pub open spec fn last_index(s: Seq<char>, c: char) -> int
    decreases s.len(),
{
    if s.len() == 0 {
        -1
    } else if s.last() == c {
        s.len() - 1
    } else {
        last_index(s.drop_last(), c)
    }
}

/// Where `c` first stands in `v`, or `v.len()` where it stands nowhere.
pub fn find_first(v: &Vec<char>, c: char) -> (i: usize)
    ensures
        i == first_index(v@, c),
        i <= v@.len(),
        i < v@.len() ==> v@[i as int] == c,
{
    let mut i: usize = 0;
    assert(v@.skip(0) =~= v@);
    while i < v.len() && v[i] != c
        invariant
            i <= v@.len(),
            first_index(v@, c) == i + first_index(v@.skip(i as int), c),
        decreases v@.len() - i,
    {
        assert(v@.skip(i as int)[0] == v@[i as int]);
        assert(v@.skip(i as int).drop_first() =~= v@.skip(i + 1));
        i = i + 1;
    }
    proof {
        if i < v@.len() {
            assert(v@.skip(i as int)[0] == v@[i as int]);
        }
    }
    i
}

/// Where `c` last stands in `v[..n]`, if it stands there at all.
pub fn find_last(v: &Vec<char>, n: usize, c: char) -> (i: Option<usize>)
    requires
        n <= v@.len(),
    ensures
        match i {
            Some(k) => k < n && k == last_index(v@.take(n as int), c) && v@[k as int] == c,
            None => last_index(v@.take(n as int), c) == -1,
        },
{
    let mut i: usize = n;
    while i > 0
        invariant
            i <= n <= v@.len(),
            last_index(v@.take(n as int), c) == last_index(v@.take(i as int), c),
        decreases i,
    {
        let ghost t = v@.take(i as int);
        assert(t.last() == v@[i - 1]);
        assert(t.drop_last() =~= v@.take(i - 1));
        if v[i - 1] == c {
            return Some(i - 1);
        }
        i = i - 1;
    }
    None
}

/// Whether `s` starts with `p`.
pub open spec fn starts_with(s: Seq<char>, p: Seq<char>) -> bool {
    s.len() >= p.len() && s.take(p.len() as int) == p
}

/// What stands in `s` behind `p`, where `s` starts with `p`.
pub fn after_prefix<'a>(s: &'a str, p: &str) -> (r: Option<&'a str>)
    ensures
        match r {
            Some(t) => starts_with(s@, p@) && t@ == s@.skip(p@.len() as int),
            None => !starts_with(s@, p@),
        },
{
    let n: usize = p.unicode_len();
    let m: usize = s.unicode_len();
    if m < n {
        return None;
    }
    let head = s.substring_char(0, n);
    assert(head@ =~= s@.take(n as int));
    if text_eq(head, p) {
        let rest = s.substring_char(n, m);
        assert(rest@ =~= s@.skip(n as int));
        Some(rest)
    } else {
        None
    }
}

/// The pieces of `s` between the occurrences of `c`: one more than `c` occurs.
pub open spec fn split_on(s: Seq<char>, c: char) -> Seq<Seq<char>>
    decreases s.len(),
{
    if s.len() == 0 {
        seq![Seq::empty()]
    } else {
        let p = split_on(s.drop_last(), c);
        if s.last() == c {
            p.push(Seq::empty())
        } else {
            p.drop_last().push(p.last().push(s.last()))
        }
    }
}

/// The characters that each text of a list holds.
pub open spec fn views(v: Seq<String>) -> Seq<Seq<char>> {
    v.map_values(|s: String| s@)
}

/// Splitting always gives at least one piece.
pub proof fn split_on_nonempty(s: Seq<char>, c: char)
    ensures
        split_on(s, c).len() > 0,
    decreases s.len(),
{
    if s.len() > 0 {
        split_on_nonempty(s.drop_last(), c);
    }
}

/// The pieces of `s` between the occurrences of `c`.
pub fn split(s: &str, c: char) -> (r: Vec<String>)
    ensures
        views(r@) == split_on(s@, c),
{
    let v = chars_of(s);
    let mut done: Vec<String> = Vec::new();
    let mut cur = String::new();
    let mut i: usize = 0;
    assert(views(done@).push(cur@) =~= split_on(v@.take(0), c));
    while i < v.len()
        invariant
            v@ == s@,
            i <= v@.len(),
            views(done@).push(cur@) == split_on(v@.take(i as int), c),
        decreases v@.len() - i,
    {
        let ghost t = v@.take(i + 1);
        assert(t.last() == v@[i as int]);
        assert(t.drop_last() =~= v@.take(i as int));
        let ghost before = views(done@).push(cur@);
        assert(before.last() == cur@);
        assert(before.drop_last() =~= views(done@));
        if v[i] == c {
            let ghost d0 = done@;
            done.push(cur);
            assert(views(done@) =~= views(d0).push(before.last()));
            cur = String::new();
        } else {
            cur.push(v[i]);
        }
        i = i + 1;
        assert(views(done@).push(cur@) =~= split_on(v@.take(i as int), c));
    }
    assert(v@.take(i as int) =~= s@);
    let ghost d0 = done@;
    let ghost last = cur@;
    done.push(cur);
    assert(views(done@) =~= views(d0).push(last));
    done
}

/// The texts of a list with `sep` between each two of them.
pub open spec fn joined(list: Seq<Seq<char>>, sep: Seq<char>) -> Seq<char>
    decreases list.len(),
{
    if list.len() == 0 {
        Seq::empty()
    } else if list.len() == 1 {
        list[0]
    } else {
        joined(list.drop_last(), sep) + sep + list.last()
    }
}

/// The texts of `list` with `sep` between each two of them.
pub fn join(list: &Vec<String>, sep: &str) -> (r: String)
    ensures
        r@ == joined(views(list@), sep@),
{
    let mut out = String::new();
    let mut i: usize = 0;
    assert(views(list@).take(0) =~= Seq::<Seq<char>>::empty());
    while i < list.len()
        invariant
            i <= list@.len(),
            out@ == joined(views(list@).take(i as int), sep@),
        decreases list@.len() - i,
    {
        let ghost t = views(list@).take(i + 1);
        assert(t.drop_last() =~= views(list@).take(i as int));
        assert(t.last() == list@[i as int]@);
        if i > 0 {
            out.append(sep);
            out.append(list[i].as_str());
        } else {
            out.append(list[i].as_str());
            assert(out@ =~= list@[0]@);
        }
        i = i + 1;
    }
    assert(views(list@).take(i as int) =~= views(list@));
    out
}

/// The texts of a list one behind the other.
pub open spec fn concat(list: Seq<Seq<char>>) -> Seq<char>
    decreases list.len(),
{
    if list.len() == 0 {
        Seq::empty()
    } else {
        concat(list.drop_last()) + list.last()
    }
}

/// Appends the text `item` as entry `k` of a joined list.
pub(crate) fn push_joined(out: &mut String, item: &str, sep: &str, list: Ghost<Seq<Seq<char>>>, k: usize)
    requires
        k < list@.len(),
        item@ == list@[k as int],
        old(out)@ == joined(list@.take(k as int), sep@),
    ensures
        final(out)@ == joined(list@.take(k + 1), sep@),
{
    proof {
        assert(list@.take(k + 1).drop_last() =~= list@.take(k as int));
    }
    if k > 0 {
        out.append(sep);
        out.append(item);
    } else {
        out.append(item);
        assert(out@ =~= item@);
    }
}

// ---------- filling ----------

/// Appends one character.
pub fn push_char(out: &mut String, c: char)
    ensures
        final(out)@ == old(out)@ + seq![c],
{
    out.push(c);
    assert(out@ =~= old(out)@ + seq![c]);
}

/// `n` times the character `c`.
pub open spec fn filled(c: char, n: nat) -> Seq<char> {
    Seq::new(n, |i: int| c)
}

/// `n` times the character `c`.
pub fn repeat(c: char, n: usize) -> (r: String)
    ensures
        r@ == filled(c, n as nat),
{
    let mut out = String::new();
    let mut i: usize = 0;
    assert(out@ =~= filled(c, 0));
    while i < n
        invariant
            i <= n,
            out@ == filled(c, i as nat),
        decreases n - i,
    {
        out.push(c);
        i = i + 1;
        assert(out@ =~= filled(c, i as nat));
    }
    out
}

/// `s`, with blanks behind it where it holds fewer than `w` characters.
pub open spec fn padded(s: Seq<char>, w: nat) -> Seq<char> {
    if s.len() < w {
        s + filled(' ', (w - s.len()) as nat)
    } else {
        s
    }
}

/// `s`, with blanks behind it where it holds fewer than `w` characters.
pub fn pad(s: &str, w: usize) -> (r: String)
    ensures
        r@ == padded(s@, w as nat),
{
    let mut out = s.to_owned();
    let n: usize = s.unicode_len();
    if n < w {
        let fill = repeat(' ', w - n);
        out.append(fill.as_str());
    }
    out
}

// ---------- numbers ----------

/// The decimal digit for `n % 10`.
pub open spec fn digit(n: nat) -> char {
    (('0' as nat) + n % 10) as char
}

/// `n` in decimal, without leading zeros.
pub open spec fn dec(n: nat) -> Seq<char>
    decreases n,
{
    if n < 10 {
        seq![digit(n)]
    } else {
        dec(n / 10).push(digit(n))
    }
}

/// The last `w` decimal digits of `n`, with leading zeros.
pub open spec fn low_digits(n: nat, w: nat) -> Seq<char>
    decreases w,
{
    if w == 0 {
        Seq::empty()
    } else {
        low_digits(n / 10, (w - 1) as nat).push(digit(n))
    }
}

/// Appends `n` in decimal.
pub fn push_dec(out: &mut String, n: u128)
    ensures
        final(out)@ == old(out)@ + dec(n as nat),
    decreases n,
{
    if n >= 10 {
        push_dec(out, n / 10);
    }
    let d: u8 = (n % 10) as u8;
    let c: char = (48u8 + d) as char;
    assert(c == digit(n as nat));
    out.push(c);
    assert(out@ =~= old(out)@ + dec(n as nat));
}

/// `n` in decimal.
pub fn dec_text(n: u128) -> (r: String)
    ensures
        r@ == dec(n as nat),
{
    let mut out = String::new();
    push_dec(&mut out, n);
    assert(out@ =~= dec(n as nat));
    out
}

/// Appends the last `w` decimal digits of `n`, with leading zeros.
pub fn push_low_digits(out: &mut String, n: u128, w: usize)
    ensures
        final(out)@ == old(out)@ + low_digits(n as nat, w as nat),
    decreases w,
{
    if w > 0 {
        push_low_digits(out, n / 10, w - 1);
        let d: u8 = (n % 10) as u8;
        let c: char = (48u8 + d) as char;
        assert(c == digit(n as nat));
        out.push(c);
    }
    assert(out@ =~= old(out)@ + low_digits(n as nat, w as nat));
}

/// Whether every character of `s` is an ASCII digit.
pub open spec fn all_digits(s: Seq<char>) -> bool {
    forall|i: int| 0 <= i < s.len() ==> '0' <= #[trigger] s[i] <= '9'
}

/// The number that a run of decimal digits stands for.
pub open spec fn digits_value(s: Seq<char>) -> nat
    decreases s.len(),
{
    if s.len() == 0 {
        0
    } else {
        (digits_value(s.drop_last()) * 10 + (s.last() as nat - '0' as nat)) as nat
    }
}

/// The digits of a number are read back as the number.
pub proof fn dec_is_digits(n: nat)
    ensures
        dec(n).len() > 0,
        all_digits(dec(n)),
        digits_value(dec(n)) == n,
    decreases n,
{
    let d = dec(n);
    if n < 10 {
        reveal_with_fuel(digits_value, 2);
        assert(d.drop_last() =~= Seq::<char>::empty());
        assert(d.last() == digit(n));
    } else {
        dec_is_digits(n / 10);
        let h = dec(n / 10);
        assert(d.drop_last() =~= h);
        assert(d.last() == digit(n));
        assert forall|i: int| 0 <= i < d.len() implies '0' <= #[trigger] d[i] <= '9' by {
            if i < h.len() {
                assert(d[i] == h[i]);
            }
        }
    }
}

/// `s` without a leading plus sign.
pub open spec fn unsigned_part(s: Seq<char>) -> Seq<char> {
    if s.len() > 0 && s[0] == '+' {
        s.drop_first()
    } else {
        s
    }
}

/// The unsigned number that `s` writes out: an optional plus sign and at least one
/// decimal digit, with a value of at most `max`.
pub open spec fn parsed_uint(s: Seq<char>, max: nat) -> Option<nat> {
    let d = unsigned_part(s);
    if d.len() > 0 && all_digits(d) && digits_value(d) <= max {
        Some(digits_value(d))
    } else {
        None
    }
}

proof fn digits_value_grows(s: Seq<char>, k: int)
    requires
        0 <= k <= s.len(),
        all_digits(s),
    ensures
        digits_value(s.take(k)) <= digits_value(s),
    decreases s.len(),
{
    if k < s.len() {
        assert(s.drop_last().take(k) =~= s.take(k));
        assert(s.last() == s[s.len() - 1]);
        assert forall|i: int| 0 <= i < s.drop_last().len() implies '0'
            <= #[trigger] s.drop_last()[i] <= '9' by {
            assert(s.drop_last()[i] == s[i]);
        }
        digits_value_grows(s.drop_last(), k);
    } else {
        assert(s.take(k) =~= s);
    }
}

/// Reads an unsigned decimal number of at most `max`.
pub fn parse_uint(s: &str, max: u128) -> (r: Option<u128>)
    ensures
        match r {
            Some(n) => parsed_uint(s@, max as nat) == Some(n as nat),
            None => parsed_uint(s@, max as nat) is None,
        },
{
    let v = chars_of(s);
    let n: usize = v.len();
    let start: usize = if n > 0 && v[0] == '+' {
        1
    } else {
        0
    };
    let ghost d = unsigned_part(s@);
    assert(d =~= v@.subrange(start as int, n as int));
    if start == n {
        return None;
    }
    let mut acc: u128 = 0;
    let mut i: usize = start;
    while i < n
        invariant
            start <= i <= n,
            n == v@.len(),
            d == v@.subrange(start as int, n as int),
            acc == digits_value(d.take(i - start)),
            acc <= max,
            forall|j: int| 0 <= j < i - start ==> '0' <= #[trigger] d[j] <= '9',
            d == unsigned_part(s@),
        decreases n - i,
    {
        let c = v[i];
        assert(d[i - start] == c);
        if !('0' <= c && c <= '9') {
            return None;
        }
        let x: u128 = (c as u32 - 48) as u128;
        let ghost t = d.take(i - start + 1);
        assert(t.drop_last() =~= d.take(i - start));
        assert(t.last() == c);
        assert(acc * 10 + x == digits_value(t));
        if x > max || acc > (max - x) / 10 {
            proof {
                if all_digits(d) {
                    digits_value_grows(d, i - start + 1);
                }
            }
            return None;
        }
        acc = acc * 10 + x;
        i = i + 1;
    }
    assert(d.take(n - start) =~= d);
    Some(acc)
}

// ---------- characters that a text lacks ----------

/// Whether a character occurs nowhere in a text.
#[verifier::opaque]
pub open spec fn lacks(s: Seq<char>, c: char) -> bool {
    forall|i: int| 0 <= i < s.len() ==> #[trigger] s[i] != c
}

/// A text made of two parts lacks what both parts lack.
pub broadcast proof fn lacks_both(a: Seq<char>, b: Seq<char>, c: char)
    ensures
        #[trigger] lacks(a + b, c) == (lacks(a, c) && lacks(b, c)),
{
    reveal(lacks);
    if lacks(a + b, c) {
        assert forall|i: int| 0 <= i < a.len() implies #[trigger] a[i] != c by {
            assert((a + b)[i] == a[i]);
        }
        assert forall|i: int| 0 <= i < b.len() implies #[trigger] b[i] != c by {
            assert((a + b)[a.len() + i] == b[i]);
        }
    }
}

/// Texts put one behind the other lack what each of them lacks.
pub proof fn concat_lacks(list: Seq<Seq<char>>, c: char)
    requires
        forall|i: int| 0 <= i < list.len() ==> lacks(#[trigger] list[i], c),
    ensures
        lacks(concat(list), c),
    decreases list.len(),
{
    broadcast use lacks_both;

    if list.len() == 0 {
        reveal(lacks);
    } else {
        let front = list.drop_last();
        assert forall|i: int| 0 <= i < front.len() implies lacks(#[trigger] front[i], c) by {
            assert(front[i] == list[i]);
        }
        concat_lacks(front, c);
        assert(list.last() == list[list.len() - 1]);
    }
}

/// Joined texts lack what each of them and the separator lack.
pub proof fn joined_lacks(list: Seq<Seq<char>>, sep: Seq<char>, c: char)
    requires
        lacks(sep, c),
        forall|i: int| 0 <= i < list.len() ==> lacks(#[trigger] list[i], c),
    ensures
        lacks(joined(list, sep), c),
    decreases list.len(),
{
    broadcast use lacks_both;

    if list.len() == 0 {
        reveal(lacks);
    } else if list.len() > 1 {
        let front = list.drop_last();
        assert forall|i: int| 0 <= i < front.len() implies lacks(#[trigger] front[i], c) by {
            assert(front[i] == list[i]);
        }
        joined_lacks(front, sep, c);
        assert(list.last() == list[list.len() - 1]);
    } else {
        assert(lacks(list[0], c));
    }
}

/// A number written out lacks what is no digit.
pub proof fn dec_lacks(n: nat, c: char)
    requires
        !('0' <= c <= '9'),
    ensures
        lacks(dec(n), c),
{
    reveal(lacks);
    dec_is_digits(n);
}

/// A run of one character lacks every other one.
pub proof fn filled_lacks(d: char, n: nat, c: char)
    requires
        d != c,
    ensures
        lacks(filled(d, n), c),
{
    reveal(lacks);
}

/// Trimming a text takes in nothing.
pub proof fn trim_end_lacks(s: Seq<char>, c: char)
    requires
        lacks(s, c),
    ensures
        lacks(trim_end(s), c),
    decreases s.len(),
{
    if s.len() > 0 && is_space(s.last()) {
        assert(lacks(s.drop_last(), c)) by {
            reveal(lacks);
        }
        trim_end_lacks(s.drop_last(), c);
    }
}

/// Whether `p` stands in `s` at index `i`.
pub open spec fn holds_at(s: Seq<char>, p: Seq<char>, i: int) -> bool {
    0 <= i && i + p.len() <= s.len() && s.subrange(i, i + p.len()) == p
}

/// Whether `p` stands somewhere in `s`.
pub open spec fn holds(s: Seq<char>, p: Seq<char>) -> bool {
    exists|i: int| holds_at(s, p, i)
}

} // verus!
