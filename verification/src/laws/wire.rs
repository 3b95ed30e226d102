//! What goes over the wire and into the files that a gopher daemon reads: menus, texts
//! and the pages of landmarks.

use crate::atlas;
use crate::atlas::Landmark;
use crate::gph;
use crate::laws::reading;
use crate::laws::reading::lines;
use crate::project;
use crate::protocol;
use crate::protocol::ItemType;
use crate::render::{EntryView, ItemKind};
use crate::text;
use vstd::prelude::*;

verus! {

// ---------- landmarks ----------

/// Whether the texts of a landmark are one line each.
pub open spec fn plain_landmark(m: Landmark) -> bool {
    text::lacks(m.name@, '\n') && text::lacks(m.category@, '\n') && m.marker != '\n'
}

proof fn landmark_texts_are_one_line(m: Landmark)
    requires
        plain_landmark(m),
    ensures
        text::lacks(seq![m.marker], '\n'),
        text::lacks(project::five_places(m.lat), '\n'),
        text::lacks(project::five_places(m.lon), '\n'),
        text::lacks(text::filled('=', 40), '\n'),
{
    reading::degrees_are_one_line(m.lat);
    reading::degrees_are_one_line(m.lon);
    text::filled_lacks('=', 40, '\n');
    reveal(text::lacks);
}

proof fn landmark_part_1(x: Seq<char>, d: Seq<Seq<char>>, c: Seq<char>, m: Landmark)
    requires
        reading::lines(x) == d.push(c),
        plain_landmark(m),
    ensures
        reading::lines(x + m.name@ + "\n"@ + text::filled('=', 40) + "\n\ncategory:     "@ + m.category@ + "\natlas marker: "@) == d.push(c + m.name@).push(text::filled('=', 40)).push(Seq::<char>::empty()).push("category:     "@ + m.category@).push("atlas marker: "@),
{
    landmark_texts_are_one_line(m);
    let p0 = x;
    let d0 = d;
    let p1 = p0 + m.name@;
    reading::more_of_a_line(p0, d0, c, m.name@);
    let d1 = d0;
    reading::empty_lacks('\n');
    assert("\n"@ =~= Seq::<char>::empty() + seq!['\n'] + Seq::<char>::empty()) by {
        reveal_strlit("\n");
    }
    let p2 = p1 + "\n"@;
    reading::line_break(p1, d1, c + m.name@, "\n"@, Seq::<char>::empty(), Seq::<char>::empty());
    assert(c + m.name@ + Seq::<char>::empty() =~= c + m.name@);
    let d2 = d1.push(c + m.name@);
    let p3 = p2 + text::filled('=', 40);
    reading::more_of_a_line(p2, d2, Seq::<char>::empty(), text::filled('=', 40));
    assert(Seq::<char>::empty() + text::filled('=', 40) =~= text::filled('=', 40));
    let d3 = d2;
    assert(text::lacks("category:     "@, '\n')) by {
        reveal(text::lacks);
        reveal_strlit("category:     ");
    }
    assert("\n\ncategory:     "@ =~= Seq::<char>::empty() + seq!['\n'] + Seq::<char>::empty() + seq!['\n'] + "category:     "@) by {
        reveal_strlit("\n\ncategory:     ");
        reveal_strlit("category:     ");
    }
    let p4 = p3 + "\n\ncategory:     "@;
    reading::two_line_breaks(p3, d3, text::filled('=', 40), "\n\ncategory:     "@, Seq::<char>::empty(), Seq::<char>::empty(), "category:     "@);
    assert(text::filled('=', 40) + Seq::<char>::empty() =~= text::filled('=', 40));
    let d4 = d3.push(text::filled('=', 40)).push(Seq::<char>::empty());
    let p5 = p4 + m.category@;
    reading::more_of_a_line(p4, d4, "category:     "@, m.category@);
    let d5 = d4;
    assert(text::lacks("atlas marker: "@, '\n')) by {
        reveal(text::lacks);
        reveal_strlit("atlas marker: ");
    }
    assert("\natlas marker: "@ =~= Seq::<char>::empty() + seq!['\n'] + "atlas marker: "@) by {
        reveal_strlit("\natlas marker: ");
        reveal_strlit("atlas marker: ");
    }
    let p6 = p5 + "\natlas marker: "@;
    reading::line_break(p5, d5, "category:     "@ + m.category@, "\natlas marker: "@, Seq::<char>::empty(), "atlas marker: "@);
    assert("category:     "@ + m.category@ + Seq::<char>::empty() =~= "category:     "@ + m.category@);
    let d6 = d5.push("category:     "@ + m.category@);
}

proof fn landmark_part_2(x: Seq<char>, d: Seq<Seq<char>>, c: Seq<char>, m: Landmark)
    requires
        reading::lines(x) == d.push(c),
        plain_landmark(m),
    ensures
        reading::lines(x + seq![m.marker] + "\nposition:     "@ + project::five_places(m.lat) + ", "@ + project::five_places(m.lon) + "\n\nPlotted on the geographic atlas (/atlas.txt) at marker '"@) == d.push(c + seq![m.marker]).push("position:     "@ + project::five_places(m.lat) + ", "@ + project::five_places(m.lon)).push(Seq::<char>::empty()).push("Plotted on the geographic atlas (/atlas.txt) at marker '"@),
{
    landmark_texts_are_one_line(m);
    let p0 = x;
    let d0 = d;
    let p1 = p0 + seq![m.marker];
    reading::more_of_a_line(p0, d0, c, seq![m.marker]);
    let d1 = d0;
    reading::empty_lacks('\n');
    assert(text::lacks("position:     "@, '\n')) by {
        reveal(text::lacks);
        reveal_strlit("position:     ");
    }
    assert("\nposition:     "@ =~= Seq::<char>::empty() + seq!['\n'] + "position:     "@) by {
        reveal_strlit("\nposition:     ");
        reveal_strlit("position:     ");
    }
    let p2 = p1 + "\nposition:     "@;
    reading::line_break(p1, d1, c + seq![m.marker], "\nposition:     "@, Seq::<char>::empty(), "position:     "@);
    assert(c + seq![m.marker] + Seq::<char>::empty() =~= c + seq![m.marker]);
    let d2 = d1.push(c + seq![m.marker]);
    let p3 = p2 + project::five_places(m.lat);
    reading::more_of_a_line(p2, d2, "position:     "@, project::five_places(m.lat));
    let d3 = d2;
    assert(text::lacks(", "@, '\n')) by {
        reveal(text::lacks);
        reveal_strlit(", ");
    }
    let p4 = p3 + ", "@;
    reading::more_of_a_line(p3, d3, "position:     "@ + project::five_places(m.lat), ", "@);
    let d4 = d3;
    let p5 = p4 + project::five_places(m.lon);
    reading::more_of_a_line(p4, d4, "position:     "@ + project::five_places(m.lat) + ", "@, project::five_places(m.lon));
    let d5 = d4;
    assert(text::lacks("Plotted on the geographic atlas (/atlas.txt) at marker '"@, '\n')) by {
        reveal(text::lacks);
        reveal_strlit("Plotted on the geographic atlas (/atlas.txt) at marker '");
    }
    assert("\n\nPlotted on the geographic atlas (/atlas.txt) at marker '"@ =~= Seq::<char>::empty() + seq!['\n'] + Seq::<char>::empty() + seq!['\n'] + "Plotted on the geographic atlas (/atlas.txt) at marker '"@) by {
        reveal_strlit("\n\nPlotted on the geographic atlas (/atlas.txt) at marker '");
        reveal_strlit("Plotted on the geographic atlas (/atlas.txt) at marker '");
    }
    let p6 = p5 + "\n\nPlotted on the geographic atlas (/atlas.txt) at marker '"@;
    reading::two_line_breaks(p5, d5, "position:     "@ + project::five_places(m.lat) + ", "@ + project::five_places(m.lon), "\n\nPlotted on the geographic atlas (/atlas.txt) at marker '"@, Seq::<char>::empty(), Seq::<char>::empty(), "Plotted on the geographic atlas (/atlas.txt) at marker '"@);
    assert("position:     "@ + project::five_places(m.lat) + ", "@ + project::five_places(m.lon) + Seq::<char>::empty() =~= "position:     "@ + project::five_places(m.lat) + ", "@ + project::five_places(m.lon));
    let d6 = d5.push("position:     "@ + project::five_places(m.lat) + ", "@ + project::five_places(m.lon)).push(Seq::<char>::empty());
}

proof fn landmark_part_3(x: Seq<char>, d: Seq<Seq<char>>, c: Seq<char>, m: Landmark)
    requires
        reading::lines(x) == d.push(c),
        plain_landmark(m),
    ensures
        reading::lines(x + seq![m.marker] + "'.\n"@ + "The CTA positions feed carries no station geometry, so a nearest-'L'\n"@ + "stop isn't available here.\n"@) == d.push(c + seq![m.marker] + "'."@).push("The CTA positions feed carries no station geometry, so a nearest-'L'"@).push("stop isn't available here."@).push(Seq::<char>::empty()),
{
    landmark_texts_are_one_line(m);
    let p0 = x;
    let d0 = d;
    let p1 = p0 + seq![m.marker];
    reading::more_of_a_line(p0, d0, c, seq![m.marker]);
    let d1 = d0;
    assert(text::lacks("'."@, '\n')) by {
        reveal(text::lacks);
        reveal_strlit("'.");
    }
    reading::empty_lacks('\n');
    assert("'.\n"@ =~= "'."@ + seq!['\n'] + Seq::<char>::empty()) by {
        reveal_strlit("'.\n");
        reveal_strlit("'.");
    }
    let p2 = p1 + "'.\n"@;
    reading::line_break(p1, d1, c + seq![m.marker], "'.\n"@, "'."@, Seq::<char>::empty());
    let d2 = d1.push(c + seq![m.marker] + "'."@);
    assert(text::lacks("The CTA positions feed carries no station geometry, so a nearest-'L'"@, '\n')) by {
        reveal(text::lacks);
        reveal_strlit("The CTA positions feed carries no station geometry, so a nearest-'L'");
    }
    assert("The CTA positions feed carries no station geometry, so a nearest-'L'\n"@ =~= "The CTA positions feed carries no station geometry, so a nearest-'L'"@ + seq!['\n'] + Seq::<char>::empty()) by {
        reveal_strlit("The CTA positions feed carries no station geometry, so a nearest-'L'\n");
        reveal_strlit("The CTA positions feed carries no station geometry, so a nearest-'L'");
    }
    let p3 = p2 + "The CTA positions feed carries no station geometry, so a nearest-'L'\n"@;
    reading::line_break(p2, d2, Seq::<char>::empty(), "The CTA positions feed carries no station geometry, so a nearest-'L'\n"@, "The CTA positions feed carries no station geometry, so a nearest-'L'"@, Seq::<char>::empty());
    assert(Seq::<char>::empty() + "The CTA positions feed carries no station geometry, so a nearest-'L'"@ =~= "The CTA positions feed carries no station geometry, so a nearest-'L'"@);
    let d3 = d2.push("The CTA positions feed carries no station geometry, so a nearest-'L'"@);
    assert(text::lacks("stop isn't available here."@, '\n')) by {
        reveal(text::lacks);
        reveal_strlit("stop isn't available here.");
    }
    assert("stop isn't available here.\n"@ =~= "stop isn't available here."@ + seq!['\n'] + Seq::<char>::empty()) by {
        reveal_strlit("stop isn't available here.\n");
        reveal_strlit("stop isn't available here.");
    }
    let p4 = p3 + "stop isn't available here.\n"@;
    reading::line_break(p3, d3, Seq::<char>::empty(), "stop isn't available here.\n"@, "stop isn't available here."@, Seq::<char>::empty());
    assert(Seq::<char>::empty() + "stop isn't available here."@ =~= "stop isn't available here."@);
    let d4 = d3.push("stop isn't available here."@);
}

/// The page of a marker is that of the first landmark with it: its name, category,
/// marker and position, north before east. A marker that no landmark has gets a
/// notice. This holds where the texts of the landmark are one line each.
pub proof fn law_landmark_page_says_what_is_known(marks: Seq<Landmark>, marker: char, k: int)
    requires
        0 <= k <= marks.len(),
        forall|j: int| 0 <= j < k ==> (#[trigger] marks[j]).marker != marker,
        k < marks.len() ==> marks[k].marker == marker && plain_landmark(marks[k]),
    ensures
        k < marks.len() ==> {
            let m = marks[k];
            let l = lines(atlas::landmark_text(marks, marker));
            &&& l[0] == m.name@
            &&& l[3] == "category:     "@ + m.category@
            &&& l[4] == "atlas marker: "@ + seq![m.marker]
            &&& l[5] == "position:     "@ + project::five_places(m.lat) + ", "@
                + project::five_places(m.lon)
        },
        k == marks.len() ==> text::starts_with(
            atlas::landmark_text(marks, marker),
            "Unknown landmark '"@ + seq![marker] + "'"@,
        ),
{
    first_is_found(marks, marker, k);
    if k < marks.len() {
        let m = marks[k];
        landmark_lines(m, marks, marker);
    } else {
        reveal_strlit("'");
        reveal_strlit("'\n");
        let head = "Unknown landmark '"@ + seq![marker] + "'"@;
        let all = atlas::landmark_text(marks, marker);
        assert("'\n"@ =~= "'"@ + seq!['\n']);
        assert(all.take(head.len() as int) =~= head);
    }
}

proof fn first_is_found(marks: Seq<Landmark>, marker: char, k: int)
    requires
        0 <= k <= marks.len(),
        forall|j: int| 0 <= j < k ==> (#[trigger] marks[j]).marker != marker,
        k < marks.len() ==> marks[k].marker == marker,
    ensures
        k == marks.len() ==> atlas::first_marked(marks, marker) is None,
        k < marks.len() ==> atlas::first_marked(marks, marker) == Some(marks[k]),
    decreases k,
{
    if k > 0 {
        let rest = marks.drop_first();
        assert(marks[0].marker != marker);
        assert forall|j: int| 0 <= j < k - 1 implies (#[trigger] rest[j]).marker != marker by {
            assert(rest[j] == marks[j + 1]);
        }
        if k < marks.len() {
            assert(rest[k - 1] == marks[k]);
        }
        first_is_found(rest, marker, k - 1);
    }
}

proof fn landmark_lines(m: Landmark, marks: Seq<Landmark>, marker: char)
    requires
        plain_landmark(m),
        atlas::first_marked(marks, marker) == Some(m),
    ensures
        ({
            let l = lines(atlas::landmark_text(marks, marker));
            &&& l[0] == m.name@
            &&& l[3] == "category:     "@ + m.category@
            &&& l[4] == "atlas marker: "@ + seq![m.marker]
            &&& l[5] == "position:     "@ + project::five_places(m.lat) + ", "@
                + project::five_places(m.lon)
        }),
{
    reading::empty_lacks('\n');
    reading::start_of_lines(Seq::<char>::empty());
    let x0 = Seq::<char>::empty();
    let d0 = Seq::<Seq<char>>::empty();
    landmark_part_1(x0, d0, Seq::<char>::empty(), m);
    assert(Seq::<char>::empty() + m.name@ =~= m.name@);
    assert(Seq::<char>::empty() + m.name@ =~= m.name@);
    let x1 = m.name@ + "\n"@ + text::filled('=', 40) + "\n\ncategory:     "@ + m.category@ + "\natlas marker: "@;
    let d1 = d0.push(m.name@).push(text::filled('=', 40)).push(Seq::<char>::empty()).push("category:     "@ + m.category@);
    landmark_part_2(x1, d1, "atlas marker: "@, m);
    let x2 = x1 + seq![m.marker] + "\nposition:     "@ + project::five_places(m.lat) + ", "@ + project::five_places(m.lon) + "\n\nPlotted on the geographic atlas (/atlas.txt) at marker '"@;
    let d2 = d1.push("atlas marker: "@ + seq![m.marker]).push("position:     "@ + project::five_places(m.lat) + ", "@ + project::five_places(m.lon)).push(Seq::<char>::empty());
    landmark_part_3(x2, d2, "Plotted on the geographic atlas (/atlas.txt) at marker '"@, m);
    let x3 = x2 + seq![m.marker] + "'.\n"@ + "The CTA positions feed carries no station geometry, so a nearest-'L'\n"@ + "stop isn't available here.\n"@;
    let d3 = d2.push("Plotted on the geographic atlas (/atlas.txt) at marker '"@ + seq![m.marker] + "'."@).push("The CTA positions feed carries no station geometry, so a nearest-'L'"@).push("stop isn't available here."@);
    assert(x3 == atlas::landmark_text(marks, marker));
}

// ---------- menu files ----------

/// Whether the texts of an entry are one line each.
pub open spec fn plain_entry(e: EntryView) -> bool {
    match e {
        EntryView::Info(s) => text::lacks(s, '\n'),
        EntryView::Link { kind: _, display, selector, host, port: _ } => {
            &&& text::lacks(display, '\n')
            &&& text::lacks(selector, '\n')
            &&& host matches Some(h) ==> text::lacks(h, '\n')
        },
    }
}

proof fn field_is_one_line(s: Seq<char>)
    requires
        text::lacks(s, '\n'),
    ensures
        text::lacks(gph::field(s), '\n'),
{
    let parts = s.map_values(|c: char| gph::field_char(c));
    assert forall|i: int| 0 <= i < parts.len() implies text::lacks(#[trigger] parts[i], '\n') by {
        reveal(text::lacks);
        assert(parts[i] == gph::field_char(s[i]));
    }
    text::concat_lacks(parts, '\n');
}

/// A link's line in a menu file: its type, what it shows, its selector, and its address
/// or the words that stand for the daemon's own.
pub open spec fn link_line(
    kind: ItemKind,
    display: Seq<char>,
    selector: Seq<char>,
    host: Option<Seq<char>>,
    port: Option<u16>,
) -> Seq<char> {
    let letter = match kind {
        ItemKind::Text => '0',
        ItemKind::Menu => '1',
        ItemKind::Bin => '9',
        ItemKind::Url => 'h',
    };
    let h = if host is Some {
        gph::field(host->0)
    } else {
        "server"@
    };
    let p = if port is Some {
        text::dec(port->0 as nat)
    } else {
        "port"@
    };
    "["@ + seq![letter] + "|"@ + gph::field(display) + "|"@ + gph::field(selector) + "|"@ + h + "|"@
        + p + "]"@
}

/// An entry's line in a menu file.
pub open spec fn entry_line(e: EntryView) -> Seq<char> {
    match e {
        EntryView::Info(s) => gph::info_text(s),
        EntryView::Link { kind, display, selector, host, port } => link_line(
            kind,
            display,
            selector,
            host,
            port,
        ),
    }
}

proof fn entry_is_one_line(e: EntryView)
    requires
        plain_entry(e),
    ensures
        gph::gph_line(e) == entry_line(e) + seq!['\n'],
        text::lacks(entry_line(e), '\n'),
{
    broadcast use text::lacks_both;

    assert("\n"@ =~= seq!['\n'] && "]\n"@ =~= "]"@ + seq!['\n']) by {
        reveal_strlit("\n");
        reveal_strlit("]\n");
        reveal_strlit("]");
    }
    match e {
        EntryView::Info(s) => {
            assert(text::lacks("t"@, '\n')) by {
                reveal(text::lacks);
                reveal_strlit("t");
            }
        },
        EntryView::Link { kind, display, selector, host, port } => {
            field_is_one_line(display);
            field_is_one_line(selector);
            if host is Some {
                field_is_one_line(host->0);
            }
            if port is Some {
                text::dec_lacks(port->0 as nat, '\n');
            }
            assert(text::lacks("["@, '\n') && text::lacks("|"@, '\n') && text::lacks("]"@, '\n')
                && text::lacks("server"@, '\n') && text::lacks("port"@, '\n') && text::lacks(
                seq![gph::type_letter(kind)],
                '\n',
            )) by {
                reveal(text::lacks);
                reveal_strlit("[");
                reveal_strlit("|");
                reveal_strlit("]");
                reveal_strlit("server");
                reveal_strlit("port");
            }
            let x = "["@ + seq![gph::type_letter(kind)] + "|"@ + gph::field(display) + "|"@
                + gph::field(selector) + "|"@ + (match host {
                Some(h) => gph::field(h),
                None => "server"@,
            }) + "|"@ + (match port {
                Some(p) => text::dec(p as nat),
                None => "port"@,
            });
            assert(x + ("]"@ + seq!['\n']) =~= x + "]"@ + seq!['\n']);
        },
    }
}

/// A menu file has one line for each entry, in order: an info line as it is written,
/// a link with its type, what it shows, its selector and its address. This holds where
/// the texts of the entries are one line each.
pub proof fn law_menu_file_has_a_line_for_each_entry(menu: Seq<EntryView>)
    requires
        forall|i: int| 0 <= i < menu.len() ==> plain_entry(#[trigger] menu[i]),
    ensures
        lines(gph::gph_text(menu)) == menu.map_values(|e: EntryView| entry_line(e)).push(
            Seq::<char>::empty(),
        ),
    decreases menu.len(),
{
    let e0 = Seq::<char>::empty();
    let g = |e: EntryView| entry_line(e);
    reading::empty_lacks('\n');
    reveal(gph::gph_text);
    if menu.len() == 0 {
        reading::split_of_one(e0, '\n');
        assert(gph::gph_text(menu) =~= e0);
        assert(lines(e0) =~= menu.map_values(g).push(e0));
    } else {
        let front = menu.drop_last();
        let e = menu.last();
        assert(menu[menu.len() - 1] == e);
        assert forall|i: int| 0 <= i < front.len() implies plain_entry(#[trigger] front[i]) by {
            assert(front[i] == menu[i]);
        }
        law_menu_file_has_a_line_for_each_entry(front);
        assert(gph::gph_lines(menu).drop_last() =~= gph::gph_lines(front));
        entry_is_one_line(e);
        let line = entry_line(e);
        assert(line + seq!['\n'] =~= line + seq!['\n'] + e0);
        let d = front.map_values(g);
        reading::line_break(gph::gph_text(front), d, e0, line + seq!['\n'], line, e0);
        assert(e0 + line =~= line);
        assert(menu.map_values(g) =~= d.push(line));
        assert(gph::gph_text(menu) == gph::gph_text(front) + (line + seq!['\n']));
    }
}

// ---------- the protocol ----------

/// What a menu item shows keeps its text, with a blank for each tab, and its type is
/// told by its letter.
pub proof fn law_display_keeps_its_text(s: Seq<char>, i: int)
    requires
        0 <= i < s.len(),
    ensures
        protocol::untabbed(s).len() == s.len(),
        s[i] != '\t' ==> protocol::untabbed(s)[i] == s[i],
        s[i] == '\t' ==> protocol::untabbed(s)[i] == ' ',
        ItemType::Text.letter() == '0',
        ItemType::Menu.letter() == '1',
        ItemType::Search.letter() == '7',
        ItemType::Info.letter() == 'i',
{
}

/// A line of a text goes over the wire as it is, without the carriage return at its
/// end, but for a lone dot, which is doubled.
pub proof fn law_text_lines_go_as_they_are(body: Seq<char>, i: int)
    requires
        0 <= i < lines(body).len(),
    ensures
        protocol::text_lines(body).len() == lines(body).len(),
        ({
            let l = lines(body)[i];
            let sent = protocol::text_lines(body)[i];
            &&& l == seq!['.'] || l == seq!['.', '\r'] ==> sent == seq!['.', '.']
            &&& l != seq!['.'] && (l.len() == 0 || l.last() != '\r') ==> sent == l
            &&& l != seq!['.', '\r'] && l.len() > 0 && l.last() == '\r' ==> sent == l.drop_last()
        }),
{
    let l = lines(body)[i];
    assert(protocol::text_lines(body)[i] == protocol::escaped(l));
    assert(seq!['.', '\r'].drop_last() =~= seq!['.']);
    if l.len() > 0 && l.last() == '\r' && l.drop_last() == seq!['.'] {
        assert(l.drop_last().len() == 1 && l.drop_last()[0] == '.');
        assert(l[0] == l.drop_last()[0] && l[1] == l.last());
        assert(l =~= seq!['.', '\r']);
    }
}

/// A request that does not end its line is taken as it is.
pub proof fn law_unended_selectors_are_taken_as_they_are(raw: Seq<char>)
    requires
        raw.len() == 0 || raw.last() != '\n',
    ensures
        protocol::selector_of(raw) == raw,
{
}

/// A menu item is what it was made of.
pub proof fn law_items_are_what_they_were_made_of(m: crate::protocol::MenuItem)
    ensures
        m@.itype == m.itype,
        m@.display == m.display@,
        m@.selector == m.selector@,
        m@.host == m.host@,
        m@.port == m.port,
{
}

/// Both kinds of menu mark texts with 0 and menus with 1; the server's marks remarks
/// with i and searches with 7, the tree's marks binaries with 9 and web links with h.
pub proof fn law_types_go_by_their_letters(t: ItemType, k: ItemKind)
    ensures
        t.letter() == '0' <==> t is Text,
        t.letter() == '1' <==> t is Menu,
        t.letter() == 'i' <==> t is Info,
        t.letter() == '7' <==> t is Search,
        gph::type_letter(k) == '0' <==> k is Text,
        gph::type_letter(k) == '1' <==> k is Menu,
        gph::type_letter(k) == '9' <==> k is Bin,
        gph::type_letter(k) == 'h' <==> k is Url,
{
}

} // verus!
