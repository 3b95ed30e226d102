//! Gopher protocol (RFC 1436) wire types and serialization.
//!
//! A client sends one selector string terminated by CRLF; the server replies with
//! either a menu (a sequence of tab-delimited item lines, terminated by a line
//! containing a single `.`) or a text block, terminated likewise. Every line ends
//! with CRLF. Forgetting the trailing dot hangs clients, so the terminator is part
//! of the builders here.

use crate::laws::settings;
use crate::text;
use vstd::prelude::*;
use vstd::string::StrSliceExecFns;
use vstd::string::StringExecFns;

verus! {

/// Gopher item types. The wire byte is the leading character of a menu line.
#[derive(Debug, Clone, Copy, PartialEq, Eq, Structural)]
pub enum ItemType {
    /// '0': text file.
    Text,
    /// '1': submenu / directory.
    Menu,
    /// 'i': informational line, not selectable.
    Info,
    /// '7': full-text search.
    Search,
}

impl ItemType {
    /// The leading character of a menu line of this type.
    pub open spec fn letter(self) -> char {
        match self {
            ItemType::Text => '0',
            ItemType::Menu => '1',
            ItemType::Info => 'i',
            ItemType::Search => '7',
        }
    }

    /// The leading character of a menu line of this type.
    pub fn code(self) -> (c: char)
        ensures
            c == self.letter(),
    {
        match self {
            ItemType::Text => '0',
            ItemType::Menu => '1',
            ItemType::Info => 'i',
            ItemType::Search => '7',
        }
    }
}

/// One line of a gopher menu.
#[derive(Debug, Clone)]
pub struct MenuItem {
    pub itype: ItemType,
    pub display: String,
    pub selector: String,
    pub host: String,
    pub port: u16,
}

/// What a [`MenuItem`] holds.
pub struct MenuItemView {
    pub itype: ItemType,
    pub display: Seq<char>,
    pub selector: Seq<char>,
    pub host: Seq<char>,
    pub port: u16,
}

impl View for MenuItem {
    type V = MenuItemView;

    open spec fn view(&self) -> MenuItemView {
        MenuItemView {
            itype: self.itype,
            display: self.display@,
            selector: self.selector@,
            host: self.host@,
            port: self.port,
        }
    }
}

/// What each item of a list holds.
pub open spec fn item_views(v: Seq<MenuItem>) -> Seq<MenuItemView> {
    v.map_values(|m: MenuItem| m@)
}

/// A character of a display text on the wire: a tab would end the field, so it
/// becomes a blank.
pub open spec fn no_tab(c: char) -> char {
    if c == '\t' {
        ' '
    } else {
        c
    }
}

/// A display text on the wire.
pub open spec fn untabbed(s: Seq<char>) -> Seq<char> {
    s.map_values(|c: char| no_tab(c))
}

/// The wire line of a menu item.
pub open spec fn wire(m: MenuItemView) -> Seq<char> {
    seq![m.itype.letter()] + untabbed(m.display) + "\t"@ + m.selector + "\t"@ + m.host + "\t"@
        + text::dec(m.port as nat) + "\r\n"@
}

impl MenuItem {
    /// A selectable item (text/menu/search) pointing at this server.
    pub fn link(itype: ItemType, display: &str, selector: &str, host: &str, port: u16) -> (r: Self)
        ensures
            r@ == (MenuItemView { itype, display: display@, selector: selector@, host: host@, port }),
    {
        MenuItem {
            itype,
            display: display.to_owned(),
            selector: selector.to_owned(),
            host: host.to_owned(),
            port,
        }
    }

    /// An `i`-line: informational text, not a link. By convention the selector is a
    /// placeholder and host/port are dummy values; clients ignore them.
    pub fn info(display: &str) -> (r: Self)
        ensures
            r@ == info_item(display@),
    {
        MenuItem {
            itype: ItemType::Info,
            display: display.to_owned(),
            selector: "fake".to_owned(),
            host: "(NULL)".to_owned(),
            port: 0,
        }
    }

    /// Serialize to `<type><display>\tSELECTOR\tHOST\tPORT\r\n`. Tabs in the display
    /// text would corrupt the field layout, so they become blanks.
    pub fn to_wire(&self) -> (r: String)
        ensures
            r@ == wire(self@),
    {
        let v = text::chars_of(self.display.as_str());
        let mut out = String::new();
        text::push_char(&mut out, self.itype.code());
        let mut i: usize = 0;
        let ghost shown = untabbed(self.display@);
        assert(out@ =~= seq![self.itype.letter()] + shown.take(0));
        while i < v.len()
            invariant
                i <= v@.len(),
                v@ == self.display@,
                shown == untabbed(self.display@),
                out@ == seq![self.itype.letter()] + shown.take(i as int),
            decreases v@.len() - i,
        {
            let c: char = if v[i] == '\t' {
                ' '
            } else {
                v[i]
            };
            out.push(c);
            assert(c == no_tab(v@[i as int]));
            i = i + 1;
            assert(out@ =~= seq![self.itype.letter()] + shown.take(i as int));
        }
        assert(shown.take(i as int) =~= shown);
        out.append("\t");
        out.append(self.selector.as_str());
        out.append("\t");
        out.append(self.host.as_str());
        out.append("\t");
        text::push_dec(&mut out, self.port as u128);
        out.append("\r\n");
        out
    }
}

/// What an info line holds.
pub open spec fn info_item(display: Seq<char>) -> MenuItemView {
    MenuItemView { itype: ItemType::Info, display, selector: "fake"@, host: "(NULL)"@, port: 0 }
}

/// The wire lines of a menu, without the terminator.
pub open spec fn menu_lines(items: Seq<MenuItemView>) -> Seq<Seq<char>> {
    items.map_values(|m: MenuItemView| wire(m))
}

/// A whole menu payload.
pub open spec fn menu_wire(items: Seq<MenuItemView>) -> Seq<char> {
    text::concat(menu_lines(items)) + ".\r\n"@
}

/// Build a full menu payload: every item line followed by the terminating `.\r\n`.
pub fn render_menu(items: &[MenuItem]) -> (r: String)
    ensures
        r@ == menu_wire(item_views(items@)),
{
    let ghost lines = menu_lines(item_views(items@));
    let mut out = String::new();
    let mut i: usize = 0;
    assert(lines.take(0) =~= Seq::<Seq<char>>::empty());
    while i < items.len()
        invariant
            i <= items@.len(),
            lines == menu_lines(item_views(items@)),
            out@ == text::concat(lines.take(i as int)),
        decreases items@.len() - i,
    {
        let line = items[i].to_wire();
        out.append(line.as_str());
        proof {
            assert(lines.take(i + 1).drop_last() =~= lines.take(i as int));
            assert(lines[i as int] == wire(items@[i as int]@));
        }
        i = i + 1;
    }
    assert(lines.take(i as int) =~= lines);
    out.append(".\r\n");
    out
}

/// A line without a carriage return at its end.
pub open spec fn no_return(line: Seq<char>) -> Seq<char> {
    if line.len() > 0 && line.last() == '\r' {
        line.drop_last()
    } else {
        line
    }
}

/// A line of a text body on the wire, without its line end: a lone dot is doubled,
/// so that it is not read as the end.
pub open spec fn escaped(line: Seq<char>) -> Seq<char> {
    let l = no_return(line);
    if l == seq!['.'] {
        seq!['.', '.']
    } else {
        l
    }
}

/// The lines of a text body on the wire, without their line ends.
pub open spec fn text_lines(body: Seq<char>) -> Seq<Seq<char>> {
    text::split_on(body, '\n').map_values(|l: Seq<char>| escaped(l))
}

/// A line with its line end.
pub open spec fn crlf(line: Seq<char>) -> Seq<char> {
    line + "\r\n"@
}

/// A whole text payload.
pub open spec fn text_wire(body: Seq<char>) -> Seq<char> {
    text::concat(text_lines(body).map_values(|l: Seq<char>| crlf(l))) + ".\r\n"@
}

/// Build a text-file payload from a plain body. Lines are normalized to CRLF and
/// the lone-dot terminator is appended. A line in the body that is exactly `.` is
/// escaped to `..` so that it isn't read as the end.
pub fn render_text(body: &str) -> (r: String)
    ensures
        r@ == text_wire(body@),
{
    let raw = text::split(body, '\n');
    let ghost pieces = text::views(raw@);
    let ghost lines = text_lines(body@).map_values(|l: Seq<char>| crlf(l));
    let mut out = String::new();
    let mut i: usize = 0;
    assert(lines.take(0) =~= Seq::<Seq<char>>::empty());
    while i < raw.len()
        invariant
            i <= raw@.len(),
            pieces == text::views(raw@),
            pieces == text::split_on(body@, '\n'),
            lines == text_lines(body@).map_values(|l: Seq<char>| crlf(l)),
            out@ == text::concat(lines.take(i as int)),
        decreases raw@.len() - i,
    {
        let v = text::chars_of(raw[i].as_str());
        let ghost piece = pieces[i as int];
        let mut n: usize = v.len();
        if n > 0 && v[n - 1] == '\r' {
            n = n - 1;
        }
        let line = text::text_of(&v, 0, n);
        assert(line@ =~= no_return(piece));
        let ghost before = out@;
        if n == 1 && v[0] == '.' {
            assert(line@ =~= seq!['.']);
            out.push('.');
        } else {
            proof {
                if line@ == seq!['.'] {
                    assert(line@[0] == '.' && line@.len() == 1);
                    assert(v@[0] == line@[0]);
                }
            }
        }
        out.append(line.as_str());
        out.append("\r\n");
        proof {
            assert(out@ =~= before + crlf(escaped(piece)));
            assert(lines.take(i + 1).drop_last() =~= lines.take(i as int));
            assert(lines[i as int] == crlf(escaped(piece)));
        }
        i = i + 1;
    }
    assert(lines.take(i as int) =~= lines);
    out.append(".\r\n");
    out
}

/// The selector in a raw request line: what stands before a CRLF or lone LF at its
/// end.
pub open spec fn selector_of(raw: Seq<char>) -> Seq<char> {
    if raw.len() >= 2 && raw.last() == '\n' && raw[raw.len() - 2] == '\r' {
        raw.take(raw.len() - 2)
    } else if raw.len() >= 1 && raw.last() == '\n' {
        raw.drop_last()
    } else {
        raw
    }
}

/// Parse a raw selector line from a client: strip a trailing CRLF (or lone LF),
/// returning the selector. A type-7 query arrives as `selector\tquery`; callers
/// that care split it via [`split_query`].
pub fn parse_selector(raw: &str) -> (r: &str)
    ensures
        r@ == selector_of(raw@),
{
    let v = text::chars_of(raw);
    let n: usize = v.len();
    let mut end: usize = n;
    if n >= 2 && v[n - 1] == '\n' && v[n - 2] == '\r' {
        end = n - 2;
    } else if n >= 1 && v[n - 1] == '\n' {
        end = n - 1;
    }
    let r = raw.substring_char(0, end);
    assert(r@ =~= selector_of(raw@));
    r
}

/// Split a type-7 selector into `(selector, Some(query))` on the first TAB, or
/// `(selector, None)` when there's no query part.
pub fn split_query<'a>(selector: &'a str) -> (r: (&'a str, Option<&'a str>))
    ensures
        ({
            let k = text::first_index(selector@, '\t');
            if k < selector@.len() {
                &&& r.0@ == selector@.take(k)
                &&& r.1 matches Some(q) && q@ == selector@.skip(k + 1)
            } else {
                r.0@ == selector@ && r.1 is None
            }
        }),
        text::lacks(r.0@, '\t'),
        selector@ == r.0@ + (match r.1 {
            Some(q) => seq!['\t'] + q@,
            None => Seq::empty(),
        }),
{
    let v = text::chars_of(selector);
    proof {
        let k = text::first_index(selector@, '\t');
        settings::law_characters_are_found(selector@, '\t');
        if k < selector@.len() {
            assert(selector@ =~= selector@.take(k) + (seq!['\t'] + selector@.skip(k + 1)));
        } else {
            assert(selector@ =~= selector@ + Seq::empty());
        }
    }
    let k: usize = text::find_first(&v, '\t');
    if k < v.len() {
        let a = selector.substring_char(0, k);
        let b = selector.substring_char(k + 1, v.len());
        assert(a@ =~= selector@.take(k as int));
        assert(b@ =~= selector@.skip(k + 1));
        (a, Some(b))
    } else {
        (selector, None)
    }
}

// ---------- laws of the protocol ----------

/// Whether a text ends with another.
pub open spec fn ends_with(s: Seq<char>, end: Seq<char>) -> bool {
    s.len() >= end.len() && s.skip(s.len() - end.len()) == end
}

/// Every reply ends with the terminator, a dot on a line of its own.
pub proof fn law_every_reply_is_terminated(items: Seq<MenuItemView>, body: Seq<char>)
    ensures
        ends_with(menu_wire(items), ".\r\n"@),
        ends_with(text_wire(body), ".\r\n"@),
{
    let m = text::concat(menu_lines(items));
    let t = text::concat(text_lines(body).map_values(|l: Seq<char>| crlf(l)));
    assert((m + ".\r\n"@).skip(m.len() as int) =~= ".\r\n"@);
    assert((t + ".\r\n"@).skip(t.len() as int) =~= ".\r\n"@);
}

proof fn pieces_have_no_separator(s: Seq<char>, c: char, i: int)
    requires
        0 <= i < text::split_on(s, c).len(),
    ensures
        !text::split_on(s, c)[i].contains(c),
    decreases s.len(),
{
    if s.len() > 0 {
        let p = text::split_on(s.drop_last(), c);
        text::split_on_nonempty(s.drop_last(), c);
        if i < p.len() {
            pieces_have_no_separator(s.drop_last(), c, i);
        }
        if s.last() != c && i == p.len() - 1 {
            let piece = text::split_on(s, c)[i];
            assert(piece =~= p[i].push(s.last()));
            if piece.contains(c) {
                let k = choose|k: int| 0 <= k < piece.len() && piece[k] == c;
                assert(p[i][k] == c);
            }
        }
    }
}

/// A text reply is not cut short: no line of the body reads as the terminator, and
/// none holds a line feed, so a client that reads up to the lone dot reads all of
/// it.
pub proof fn law_text_is_not_cut_short(body: Seq<char>, i: int)
    requires
        0 <= i < text_lines(body).len(),
    ensures
        text_lines(body)[i] != seq!['.'],
        !text_lines(body)[i].contains('\n'),
{
    let raw = text::split_on(body, '\n')[i];
    pieces_have_no_separator(body, '\n', i);
    let l = no_return(raw);
    let e = escaped(raw);
    assert(text_lines(body)[i] == e);
    if l == seq!['.'] {
        assert(e.len() == 2);
        assert(seq!['.'].len() == 1);
    }
    if e.contains('\n') {
        let k = choose|k: int| 0 <= k < e.len() && e[k] == '\n';
        if l != seq!['.'] {
            assert(raw[k] == '\n');
        } else {
            assert(e[k] == '.');
        }
    }
}

/// A menu line ends with CRLF and is never read as the terminator: it begins with
/// its type's letter.
pub proof fn law_menu_line_is_no_terminator(m: MenuItemView)
    ensures
        wire(m).len() > 0,
        wire(m)[0] == m.itype.letter(),
        wire(m)[0] != '.',
        ends_with(wire(m), "\r\n"@),
{
    let w = wire(m);
    assert(w.skip(w.len() - "\r\n"@.len()) =~= "\r\n"@);
}

proof fn split_without(s: Seq<char>, c: char)
    requires
        !s.contains(c),
    ensures
        text::split_on(s, c) == seq![s],
    decreases s.len(),
{
    if s.len() > 0 {
        let rest = s.drop_last();
        assert(s[s.len() - 1] == s.last());
        assert(!rest.contains(c)) by {
            if rest.contains(c) {
                let k = choose|k: int| 0 <= k < rest.len() && rest[k] == c;
                assert(s[k] == c);
            }
        }
        split_without(rest, c);
        assert(text::split_on(rest, c).drop_last() =~= Seq::<Seq<char>>::empty());
        assert(rest.push(s.last()) =~= s);
        assert(text::split_on(s, c) =~= seq![s]);
    } else {
        assert(s =~= Seq::<char>::empty());
        assert(text::split_on(s, c) =~= seq![s]);
    }
}

proof fn split_at(a: Seq<char>, b: Seq<char>, c: char)
    requires
        !b.contains(c),
    ensures
        text::split_on(a.push(c) + b, c) == text::split_on(a, c).push(b),
    decreases b.len(),
{
    let s = a.push(c) + b;
    if b.len() == 0 {
        assert(s =~= a.push(c));
        assert(s.drop_last() =~= a);
        assert(b =~= Seq::<char>::empty());
    } else {
        let rest = b.drop_last();
        assert(b[b.len() - 1] == b.last());
        assert(!rest.contains(c)) by {
            if rest.contains(c) {
                let k = choose|k: int| 0 <= k < rest.len() && rest[k] == c;
                assert(b[k] == c);
            }
        }
        split_at(a, rest, c);
        assert(s.drop_last() =~= a.push(c) + rest);
        assert(s.last() == b.last());
        let p = text::split_on(a, c).push(rest);
        assert(p.drop_last() =~= text::split_on(a, c));
        assert(p.last() == rest);
        assert(rest.push(b.last()) =~= b);
    }
}

proof fn digits_are_no_tabs(n: nat)
    ensures
        !text::dec(n).contains('\t'),
        !text::dec(n).contains('\n'),
        !text::dec(n).contains('|'),
        !text::dec(n).contains(']'),
    decreases n,
{
    if n >= 10 {
        digits_are_no_tabs(n / 10);
        let d = text::dec(n / 10);
        assert forall|k: int| 0 <= k < text::dec(n).len() implies #[trigger] text::dec(n)[k] != '\t'
            && text::dec(n)[k] != '\n' && text::dec(n)[k] != '|' && text::dec(n)[k] != ']' by {
            if k < d.len() {
                assert(text::dec(n)[k] == d[k]);
                assert(d.contains(d[k]));
            }
        }
    }
}

/// A client that splits a menu line on tabs gets its four fields: type letter and
/// display text, selector, host, and port with the line end. This holds where
/// selector and host hold no tab themselves.
pub proof fn law_menu_line_has_four_fields(m: MenuItemView)
    requires
        !m.selector.contains('\t'),
        !m.host.contains('\t'),
    ensures
        text::split_on(wire(m), '\t') == seq![
            seq![m.itype.letter()] + untabbed(m.display),
            m.selector,
            m.host,
            text::dec(m.port as nat) + "\r\n"@,
        ],
{
    reveal_strlit("\t");
    reveal_strlit("\r\n");
    let f1 = seq![m.itype.letter()] + untabbed(m.display);
    let f4 = text::dec(m.port as nat) + "\r\n"@;
    assert(!f1.contains('\t')) by {
        assert forall|k: int| 0 <= k < f1.len() implies f1[k] != '\t' by {
            if k > 0 {
                assert(f1[k] == no_tab(m.display[k - 1]));
            }
        }
    }
    digits_are_no_tabs(m.port as nat);
    assert(!f4.contains('\t')) by {
        let d = text::dec(m.port as nat);
        assert forall|k: int| 0 <= k < f4.len() implies f4[k] != '\t' by {
            if k < d.len() {
                assert(f4[k] == d[k]);
                assert(d.contains(d[k]));
            } else {
                assert(f4[k] == "\r\n"@[k - d.len()]);
            }
        }
    }
    let a = f1.push('\t') + m.selector;
    let b = a.push('\t') + m.host;
    split_without(f1, '\t');
    split_at(f1, m.selector, '\t');
    split_at(a, m.host, '\t');
    split_at(b, f4, '\t');
    assert(wire(m) =~= b.push('\t') + f4);
    assert(text::split_on(wire(m), '\t') =~= seq![f1, m.selector, m.host, f4]);
}

/// A selector is read back from the request line that a client makes of it.
pub proof fn law_selector_survives_the_wire(selector: Seq<char>)
    ensures
        selector_of(selector + "\r\n"@) == selector,
        selector.len() == 0 || selector.last() != '\r' ==> selector_of(selector + "\n"@)
            == selector,
{
    reveal_strlit("\r\n");
    reveal_strlit("\n");
    assert(selector_of(selector + "\r\n"@) =~= selector);
    if selector.len() == 0 || selector.last() != '\r' {
        assert(selector_of(selector + "\n"@) =~= selector);
    }
}

/// A search selector and its query are read back from the two joined by a tab,
/// where the selector holds no tab.
pub proof fn law_query_survives_the_wire(selector: Seq<char>, query: Seq<char>)
    requires
        !selector.contains('\t'),
    ensures
        ({
            let joined = selector + "\t"@ + query;
            let k = text::first_index(joined, '\t');
            k < joined.len() && joined.take(k) == selector && joined.skip(k + 1) == query
        }),
{
    reveal_strlit("\t");
    let joined = selector + "\t"@ + query;
    first_index_is(joined, '\t', selector.len() as int);
    assert(joined.take(selector.len() as int) =~= selector);
    assert(joined.skip(selector.len() + 1int) =~= query);
}

proof fn first_index_is(s: Seq<char>, c: char, k: int)
    requires
        0 <= k < s.len(),
        s[k] == c,
        forall|i: int| 0 <= i < k ==> #[trigger] s[i] != c,
    ensures
        text::first_index(s, c) == k,
    decreases k,
{
    if k > 0 {
        assert(s[0] != c);
        let rest = s.drop_first();
        assert forall|i: int| 0 <= i < k - 1 implies #[trigger] rest[i] != c by {
            assert(rest[i] == s[i + 1]);
        }
        first_index_is(rest, c, k - 1);
    }
}

/// The lines before the first lone dot.
pub open spec fn upto_dot(lines: Seq<Seq<char>>) -> Seq<Seq<char>>
    decreases lines.len(),
{
    if lines.len() == 0 || lines[0] == seq!['.'] {
        Seq::empty()
    } else {
        seq![lines[0]] + upto_dot(lines.drop_first())
    }
}

/// What a client reads of a reply: its lines, without their line ends, up to the
/// lone dot.
pub open spec fn read_lines(reply: Seq<char>) -> Seq<Seq<char>> {
    upto_dot(text::split_on(reply, '\n').map_values(|l: Seq<char>| no_return(l)))
}

proof fn split_append(a: Seq<char>, b: Seq<char>, c: char)
    requires
        !b.contains(c),
    ensures
        ({
            let p = text::split_on(a, c);
            text::split_on(a + b, c) == p.drop_last().push(p.last() + b)
        }),
    decreases b.len(),
{
    let p = text::split_on(a, c);
    text::split_on_nonempty(a, c);
    if b.len() == 0 {
        assert(a + b =~= a);
        assert(p.last() + b =~= p.last());
        assert(p.drop_last().push(p.last()) =~= p);
    } else {
        let rest = b.drop_last();
        assert(b[b.len() - 1] == b.last());
        assert(!rest.contains(c)) by {
            if rest.contains(c) {
                let k = choose|k: int| 0 <= k < rest.len() && rest[k] == c;
                assert(b[k] == c);
            }
        }
        split_append(a, rest, c);
        assert((a + b).drop_last() =~= a + rest);
        assert((a + b).last() == b.last());
        let q = p.drop_last().push(p.last() + rest);
        assert(q.drop_last() =~= p.drop_last());
        assert((p.last() + rest).push(b.last()) =~= p.last() + b);
    }
}

/// Lines with their line ends, one behind the other.
pub open spec fn crlf_all(lines: Seq<Seq<char>>) -> Seq<char> {
    text::concat(lines.map_values(|l: Seq<char>| crlf(l)))
}

proof fn crlf_lines_split(lines: Seq<Seq<char>>)
    requires
        forall|i: int| 0 <= i < lines.len() ==> !(#[trigger] lines[i]).contains('\n'),
    ensures
        text::split_on(crlf_all(lines), '\n') == lines.map_values(
            |l: Seq<char>| l.push('\r'),
        ).push(Seq::empty()),
    decreases lines.len(),
{
    let mapped = lines.map_values(|l: Seq<char>| crlf(l));
    let want = lines.map_values(|l: Seq<char>| l.push('\r')).push(Seq::empty());
    if lines.len() == 0 {
        assert(mapped =~= Seq::<Seq<char>>::empty());
        assert(text::split_on(crlf_all(lines), '\n') =~= want);
    } else {
        reveal_strlit("\r\n");
        let rest = lines.drop_last();
        let l = lines.last();
        assert(lines[lines.len() - 1] == l);
        assert forall|i: int| 0 <= i < rest.len() implies !(#[trigger] rest[i]).contains('\n') by {
            assert(rest[i] == lines[i]);
        }
        crlf_lines_split(rest);
        assert(mapped.drop_last() =~= rest.map_values(|l: Seq<char>| crlf(l)));
        let a = crlf_all(rest);
        let b = l.push('\r');
        assert(!b.contains('\n')) by {
            if b.contains('\n') {
                let k = choose|k: int| 0 <= k < b.len() && b[k] == '\n';
                assert(l[k] == '\n');
            }
        }
        split_append(a, b, '\n');
        let p = text::split_on(a, '\n');
        assert(p.last() + b =~= b);
        let none = Seq::<char>::empty();
        split_at(a + b, none, '\n');
        assert(crlf_all(lines) =~= (a + b).push('\n') + none);
        assert(text::split_on(crlf_all(lines), '\n') =~= want);
    }
}

proof fn upto_dot_of(lines: Seq<Seq<char>>, rest: Seq<Seq<char>>)
    requires
        forall|i: int| 0 <= i < lines.len() ==> #[trigger] lines[i] != seq!['.'],
        rest.len() > 0,
        rest[0] == seq!['.'],
    ensures
        upto_dot(lines + rest) == lines,
    decreases lines.len(),
{
    if lines.len() == 0 {
        assert(lines + rest =~= rest);
        assert(upto_dot(lines + rest) =~= lines);
    } else {
        let tail = lines.drop_first();
        assert forall|i: int| 0 <= i < tail.len() implies #[trigger] tail[i] != seq!['.'] by {
            assert(tail[i] == lines[i + 1]);
        }
        upto_dot_of(tail, rest);
        assert((lines + rest)[0] == lines[0]);
        assert((lines + rest).drop_first() =~= tail + rest);
        assert(upto_dot(lines + rest) =~= lines);
    }
}

proof fn terminated_lines_are_read(lines: Seq<Seq<char>>)
    requires
        forall|i: int|
            0 <= i < lines.len() ==> #[trigger] lines[i] != seq!['.'] && !lines[i].contains('\n'),
    ensures
        read_lines(crlf_all(lines) + ".\r\n"@) == lines,
{
    reveal_strlit(".\r\n");
    reveal_strlit("\r\n");
    let dot = seq!['.'];
    let all = lines.push(dot);
    let mapped = all.map_values(|l: Seq<char>| crlf(l));
    assert(mapped.drop_last() =~= lines.map_values(|l: Seq<char>| crlf(l)));
    assert(mapped.last() =~= ".\r\n"@);
    assert(crlf_all(all) == crlf_all(lines) + ".\r\n"@);
    assert forall|i: int| 0 <= i < all.len() implies !(#[trigger] all[i]).contains('\n') by {
        if i < lines.len() {
            assert(all[i] == lines[i]);
        } else {
            assert(all[i] == dot);
        }
    }
    crlf_lines_split(all);
    let pieces = text::split_on(crlf_all(all), '\n');
    let clean = pieces.map_values(|l: Seq<char>| no_return(l));
    let rest = seq![dot, Seq::<char>::empty()];
    assert forall|i: int| 0 <= i < clean.len() implies clean[i] == (lines + rest)[i] by {
        if i < all.len() {
            assert(pieces[i] == all[i].push('\r'));
            assert(all[i].push('\r').drop_last() =~= all[i]);
        }
    }
    assert(clean =~= lines + rest);
    upto_dot_of(lines, rest);
}

/// A text reply is read back whole: a client that reads lines up to the lone dot
/// gets every line of the body, in order, a lone dot doubled, with nothing cut off
/// and nothing added.
pub proof fn law_text_is_read_back(body: Seq<char>)
    ensures
        read_lines(text_wire(body)) == text_lines(body),
{
    let lines = text_lines(body);
    assert forall|i: int| 0 <= i < lines.len() implies #[trigger] lines[i] != seq!['.']
        && !lines[i].contains('\n') by {
        law_text_is_not_cut_short(body, i);
    }
    terminated_lines_are_read(lines);
}

/// A menu line without its line end.
pub open spec fn item_line(m: MenuItemView) -> Seq<char> {
    seq![m.itype.letter()] + untabbed(m.display) + "\t"@ + m.selector + "\t"@ + m.host + "\t"@
        + text::dec(m.port as nat)
}

/// A menu is read back whole: a client gets one line for each item, in order. This
/// holds where no field of an item holds a line feed.
pub proof fn law_menu_is_read_back(items: Seq<MenuItemView>)
    requires
        forall|i: int|
            0 <= i < items.len() ==> !(#[trigger] items[i]).display.contains('\n')
                && !items[i].selector.contains('\n') && !items[i].host.contains('\n'),
    ensures
        read_lines(menu_wire(items)) == items.map_values(|m: MenuItemView| item_line(m)),
{
    reveal_strlit("\t");
    let lines = items.map_values(|m: MenuItemView| item_line(m));
    assert(menu_lines(items) =~= lines.map_values(|l: Seq<char>| crlf(l)));
    assert forall|i: int| 0 <= i < lines.len() implies #[trigger] lines[i] != seq!['.']
        && !lines[i].contains('\n') by {
        let m = items[i];
        let l = item_line(m);
        assert(lines[i] == l);
        assert(l[0] == m.itype.letter());
        let d = text::dec(m.port as nat);
        digits_are_no_tabs(m.port as nat);
        let f = untabbed(m.display);
        assert(!f.contains('\n')) by {
            if f.contains('\n') {
                let k = choose|k: int| 0 <= k < f.len() && f[k] == '\n';
                assert(f[k] == no_tab(m.display[k]));
                assert(m.display.contains(m.display[k]));
            }
        }
        no_newline_concat(seq![m.itype.letter()], f);
        no_newline_concat(seq![m.itype.letter()] + f, "\t"@);
        no_newline_concat(seq![m.itype.letter()] + f + "\t"@, m.selector);
        no_newline_concat(seq![m.itype.letter()] + f + "\t"@ + m.selector, "\t"@);
        no_newline_concat(seq![m.itype.letter()] + f + "\t"@ + m.selector + "\t"@, m.host);
        no_newline_concat(
            seq![m.itype.letter()] + f + "\t"@ + m.selector + "\t"@ + m.host,
            "\t"@,
        );
        no_newline_concat(
            seq![m.itype.letter()] + f + "\t"@ + m.selector + "\t"@ + m.host + "\t"@,
            d,
        );
    }
    terminated_lines_are_read(lines);
}

proof fn no_newline_concat(a: Seq<char>, b: Seq<char>)
    requires
        !a.contains('\n'),
        !b.contains('\n'),
    ensures
        !(a + b).contains('\n'),
{
    if (a + b).contains('\n') {
        let k = choose|k: int| 0 <= k < (a + b).len() && (a + b)[k] == '\n';
        if k < a.len() {
            assert(a[k] == '\n');
        } else {
            assert(b[k - a.len()] == '\n');
        }
    }
}

} // verus!
