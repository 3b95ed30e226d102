//! Menus in the index format of the geomyidae gopher daemon (`.gph`).
//!
//! A link is a line `[type|display|selector|host|port]`; any other line is an info
//! line. The words `server` and `port` stand for the daemon's own address, so a tree
//! is host/port-agnostic. A bar inside a field is written `\|`. The daemon drops a
//! `t` at the start of an info line, so a line that starts with `t` or `[` gets one
//! more.

use crate::render::{Entry, EntryView, ItemKind};
use crate::text;
use vstd::prelude::*;
use vstd::string::StringExecFns;

verus! {

/// The type character of a link.
pub open spec fn type_letter(kind: ItemKind) -> char {
    match kind {
        ItemKind::Text => '0',
        ItemKind::Menu => '1',
        ItemKind::Url => 'h',
        ItemKind::Bin => '9',
    }
}

/// A character inside a field.
pub open spec fn field_char(c: char) -> Seq<char> {
    if c == '|' {
        seq!['\\', '|']
    } else {
        seq![c]
    }
}

/// A text inside a field: every bar escaped.
pub open spec fn field(s: Seq<char>) -> Seq<char> {
    text::concat(s.map_values(|c: char| field_char(c)))
}

/// An info line, without its line end.
pub open spec fn info_text(s: Seq<char>) -> Seq<char> {
    if s.len() > 0 && (s[0] == 't' || s[0] == '[') {
        "t"@ + s
    } else {
        s
    }
}

/// The line of a menu entry.
pub open spec fn gph_line(e: EntryView) -> Seq<char> {
    match e {
        EntryView::Info(s) => info_text(s) + "\n"@,
        EntryView::Link { kind, display, selector, host, port } => "["@ + seq![type_letter(kind)]
            + "|"@ + field(display) + "|"@ + field(selector) + "|"@ + (match host {
            Some(h) => field(h),
            None => "server"@,
        }) + "|"@ + (match port {
            Some(p) => text::dec(p as nat),
            None => "port"@,
        }) + "]\n"@,
    }
}

/// The lines of a menu.
pub open spec fn gph_lines(menu: Seq<EntryView>) -> Seq<Seq<char>> {
    menu.map_values(|e: EntryView| gph_line(e))
}

/// A whole menu file.
#[verifier::opaque]
pub open spec fn gph_text(menu: Seq<EntryView>) -> Seq<char> {
    text::concat(gph_lines(menu))
}

/// Appends a text as a field.
fn push_field(out: &mut String, s: &str)
    ensures
        final(out)@ == old(out)@ + field(s@),
{
    let v = text::chars_of(s);
    let ghost parts = s@.map_values(|c: char| field_char(c));
    let ghost head = out@;
    let mut i: usize = 0;
    assert(head + text::concat(parts.take(0)) =~= head);
    while i < v.len()
        invariant
            i <= v@.len(),
            v@ == s@,
            parts == s@.map_values(|c: char| field_char(c)),
            out@ == head + text::concat(parts.take(i as int)),
        decreases v@.len() - i,
    {
        let c: char = v[i];
        let ghost before = out@;
        if c == '|' {
            out.push('\\');
            out.push('|');
        } else {
            out.push(c);
        }
        proof {
            assert(parts[i as int] == field_char(c));
            assert(out@ =~= before + field_char(c));
            assert(parts.take(i + 1).drop_last() =~= parts.take(i as int));
            assert(before + parts[i as int] =~= head + (text::concat(parts.take(i as int))
                + parts[i as int]));
        }
        i = i + 1;
    }
    assert(parts.take(i as int) =~= parts);
}

/// The line of a menu entry.
pub fn index_line(e: &Entry) -> (r: String)
    ensures
        r@ == gph_line(e@),
{
    match e {
        Entry::Info(s) => {
            let v = text::chars_of(s.as_str());
            let mut out = String::new();
            if v.len() > 0 && (v[0] == 't' || v[0] == '[') {
                out.append("t");
                assert(out@ =~= "t"@);
                out.append(s.as_str());
            } else {
                out.append(s.as_str());
                assert(out@ =~= s@);
            }
            out.append("\n");
            out
        },
        Entry::Link { kind, display, selector, host, port } => {
            let letter: char = match kind {
                ItemKind::Text => '0',
                ItemKind::Menu => '1',
                ItemKind::Url => 'h',
                ItemKind::Bin => '9',
            };
            let mut out = "[".to_owned();
            text::push_char(&mut out, letter);
            out.append("|");
            push_field(&mut out, display.as_str());
            out.append("|");
            push_field(&mut out, selector.as_str());
            out.append("|");
            match host {
                Some(h) => {
                    push_field(&mut out, h.as_str());
                },
                None => {
                    out.append("server");
                },
            }
            out.append("|");
            match port {
                Some(p) => {
                    text::push_dec(&mut out, *p as u128);
                },
                None => {
                    out.append("port");
                },
            }
            out.append("]\n");
            out
        },
    }
}

/// A menu as an index file of the daemon.
pub fn render_menu_index(entries: &Vec<Entry>) -> (r: String)
    ensures
        r@ == gph_text(crate::render::entry_views(entries@)),
{
    let ghost lines = gph_lines(crate::render::entry_views(entries@));
    let mut out = String::new();
    let mut i: usize = 0;
    assert(lines.take(0) =~= Seq::<Seq<char>>::empty());
    while i < entries.len()
        invariant
            i <= entries@.len(),
            lines == gph_lines(crate::render::entry_views(entries@)),
            out@ == text::concat(lines.take(i as int)),
        decreases entries@.len() - i,
    {
        let line = index_line(&entries[i]);
        out.append(line.as_str());
        proof {
            assert(lines.take(i + 1).drop_last() =~= lines.take(i as int));
            assert(lines[i as int] == gph_line(entries@[i as int]@));
        }
        i = i + 1;
    }
    assert(lines.take(i as int) =~= lines);
    reveal(gph_text);
    out
}

// ---------- laws of the format ----------

/// What the daemon shows of an info line: without a `t` at its start.
pub open spec fn shown_info(line: Seq<char>) -> Seq<char> {
    if line.len() > 0 && line[0] == 't' {
        line.drop_first()
    } else {
        line
    }
}

/// An info line is shown as it was written, and never taken for a link.
pub proof fn law_info_is_shown_as_written(s: Seq<char>)
    ensures
        shown_info(info_text(s)) == s,
        info_text(s).len() > 0 ==> info_text(s)[0] != '[',
{
    reveal_strlit("t");
    assert(shown_info(info_text(s)) =~= s);
}

/// A link into this tree names no address: the daemon fills in its own, so the tree
/// is host/port-agnostic.
pub proof fn law_local_links_name_no_address(
    kind: ItemKind,
    display: Seq<char>,
    selector: Seq<char>,
)
    ensures
        gph_line(crate::render::local_link(kind, display, selector)) == "["@ + seq![
            type_letter(kind),
        ] + "|"@ + field(display) + "|"@ + field(selector) + "|server|port]\n"@,
{
    reveal_strlit("|");
    reveal_strlit("server");
    reveal_strlit("port");
    reveal_strlit("]\n");
    reveal_strlit("|server|port]\n");
    let front = "["@ + seq![type_letter(kind)] + "|"@ + field(display) + "|"@ + field(selector);
    assert("|"@ + "server"@ + "|"@ + "port"@ + "]\n"@ =~= "|server|port]\n"@);
    assert(gph_line(crate::render::local_link(kind, display, selector)) =~= front + ("|"@
        + "server"@ + "|"@ + "port"@ + "]\n"@));
}

/// What the daemon reads of a field: an escaped bar is a bar.
pub open spec fn unescaped(s: Seq<char>) -> Seq<char>
    decreases s.len(),
{
    if s.len() == 0 {
        Seq::empty()
    } else if s.len() >= 2 && s[0] == '\\' && s[1] == '|' {
        seq!['|'] + unescaped(s.skip(2))
    } else {
        seq![s[0]] + unescaped(s.drop_first())
    }
}

/// Whether a bar ends the field before position `i`: it is not escaped.
pub open spec fn is_bar(s: Seq<char>, i: int) -> bool {
    s[i] == '|' && (i == 0 || s[i - 1] != '\\')
}

proof fn concat_front(parts: Seq<Seq<char>>)
    requires
        parts.len() > 0,
    ensures
        text::concat(parts) == parts[0] + text::concat(parts.drop_first()),
    decreases parts.len(),
{
    if parts.len() == 1 {
        reveal_with_fuel(text::concat, 2);
        assert(parts.drop_last() =~= Seq::<Seq<char>>::empty());
        assert(parts.drop_first() =~= Seq::<Seq<char>>::empty());
        assert(text::concat(parts) =~= parts[0] + text::concat(parts.drop_first()));
    } else {
        concat_front(parts.drop_last());
        assert(parts.drop_last().drop_first() =~= parts.drop_first().drop_last());
        assert(parts.drop_first().last() == parts.last());
        assert(text::concat(parts) =~= parts[0] + text::concat(parts.drop_first()));
    }
}

/// A field is read back as it was written, where no backslash stands before a bar
/// in it.
pub proof fn law_field_is_read_back(s: Seq<char>)
    requires
        forall|i: int| 0 <= i < s.len() - 1 ==> !(#[trigger] s[i] == '\\' && s[i + 1] == '|'),
    ensures
        unescaped(field(s)) == s,
        forall|i: int| 0 <= i < field(s).len() ==> !#[trigger] is_bar(field(s), i),
        s.len() > 0 ==> field(s).len() > 0 && field(s)[0] == field_char(s[0])[0],
    decreases s.len(),
{
    let parts = s.map_values(|c: char| field_char(c));
    if s.len() == 0 {
        assert(parts =~= Seq::<Seq<char>>::empty());
        assert(unescaped(field(s)) =~= s);
    } else {
        let rest = s.drop_first();
        assert forall|i: int| 0 <= i < rest.len() - 1 implies !(#[trigger] rest[i] == '\\'
            && rest[i + 1] == '|') by {
            assert(rest[i] == s[i + 1]);
        }
        law_field_is_read_back(rest);
        concat_front(parts);
        assert(parts.drop_first() =~= rest.map_values(|c: char| field_char(c)));
        let f = field(s);
        let g = field(rest);
        let h = field_char(s[0]);
        assert(parts[0] == h);
        assert(f == h + g);
        assert(f[0] == h[0]);
        if s[0] == '|' {
            assert(f[0] == '\\' && f[1] == '|');
            assert(f.skip(2) =~= g);
            assert(unescaped(f) =~= s);
            assert forall|i: int| 0 <= i < f.len() implies !#[trigger] is_bar(f, i) by {
                if i >= 2 {
                    assert(f[i] == g[i - 2]);
                    assert(!is_bar(g, i - 2));
                    if i > 2 {
                        assert(f[i - 1] == g[i - 3]);
                    } else if g[0] == '|' {
                        // A field never starts with a bare bar.
                        assert(is_bar(g, 0));
                    }
                }
            }
        } else {
            assert(f.drop_first() =~= g);
            if s[0] == '\\' && f.len() >= 2 {
                assert(f[1] == g[0]);
                if rest.len() == 0 {
                    assert(rest.map_values(|c: char| field_char(c)) =~= Seq::<Seq<char>>::empty());
                } else {
                    assert(s[1] == rest[0]);
                    assert(g[0] == field_char(rest[0])[0]);
                }
            }
            assert(unescaped(f) =~= s);
            assert forall|i: int| 0 <= i < f.len() implies !#[trigger] is_bar(f, i) by {
                if i >= 1 {
                    assert(f[i] == g[i - 1]);
                    assert(!is_bar(g, i - 1));
                    if i > 1 {
                        assert(f[i - 1] == g[i - 2]);
                    } else if g[0] == '|' {
                        assert(is_bar(g, 0));
                    }
                }
            }
        }
    }
}

} // verus!
