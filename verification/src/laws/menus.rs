//! What the menus list: every train under its own line, every line under the root.

use crate::laws::reading;
use crate::laws::reading::count;
use crate::protocol;
use crate::protocol::{ItemType, MenuItemView};
use crate::render;
use crate::render::{EntryView, ItemKind};
use crate::server;
use crate::text;
use crate::transit;
use crate::transit::{PositionsView, TrainView};
use vstd::prelude::*;

verus! {

/// Whether a menu has a link of a kind to a selector of this tree.
pub open spec fn leads(menu: Seq<EntryView>, kind: ItemKind, selector: Seq<char>) -> bool {
    exists|j: int| 0 <= j < menu.len() && is_link(#[trigger] menu[j], kind, selector)
}

/// Whether an entry is a link of a kind to a selector of this tree.
pub open spec fn is_link(e: EntryView, kind: ItemKind, selector: Seq<char>) -> bool {
    e matches EntryView::Link { kind: k, display: _, selector: s, host: h, port: p } && k == kind
        && s == selector && h is None && p is None
}

/// What an entry shows.
pub open spec fn display_of(e: EntryView) -> Seq<char> {
    match e {
        EntryView::Info(s) => s,
        EntryView::Link { kind: _, display, selector: _, host: _, port: _ } => display,
    }
}

/// How many trains run on a line.
pub open spec fn running(trains: Seq<TrainView>, line: Seq<char>) -> nat {
    count(trains, |t: TrainView| t.line == line)
}

/// Whether a train of a snapshot runs on a line under a run number.
pub open spec fn runs_there(trains: Seq<TrainView>, line: Seq<char>, run: Seq<char>) -> bool {
    exists|k: int|
        0 <= k < trains.len() && (#[trigger] trains[k]).line == line && trains[k].run == run
}

pub proof fn on_line_is(trains: Seq<TrainView>, line: Seq<char>, t: TrainView)
    ensures
        render::on_line(trains, line).len() == running(trains, line),
        render::on_line(trains, line).contains(t) <==> trains.contains(t) && t.line == line,
    decreases trains.len(),
{
    if trains.len() > 0 {
        let front = trains.drop_last();
        let last = trains.last();
        on_line_is(front, line, t);
        let before = render::on_line(front, line);
        assert(trains =~= front.push(last));
        pushed(front, last, t);
        pushed(before, last, t);
    }
}

proof fn pushed(s: Seq<TrainView>, x: TrainView, t: TrainView)
    ensures
        s.push(x).contains(t) <==> s.contains(t) || t == x,
{
    if s.contains(t) {
        let k = choose|k: int| 0 <= k < s.len() && s[k] == t;
        assert(s.push(x)[k] == t);
    }
    if t == x {
        assert(s.push(x)[s.len() as int] == t);
    }
    if s.push(x).contains(t) && t != x {
        let k = choose|k: int| 0 <= k < s.push(x).len() && s.push(x)[k] == t;
        assert(s[k] == t);
    }
}

proof fn placed_holds(sorted: Seq<TrainView>, x: TrainView, t: TrainView)
    ensures
        render::placed_by_run(sorted, x).contains(t) <==> sorted.contains(t) || t == x,
        render::placed_by_run(sorted, x).len() == sorted.len() + 1,
    decreases sorted.len(),
{
    if sorted.len() == 0 || text::text_le(sorted.last().run, x.run) {
        pushed(sorted, x, t);
    } else {
        let front = sorted.drop_last();
        placed_holds(front, x, t);
        assert(sorted =~= front.push(sorted.last()));
        pushed(front, sorted.last(), t);
        pushed(render::placed_by_run(front, x), sorted.last(), t);
    }
}

proof fn by_run_holds(trains: Seq<TrainView>, t: TrainView)
    ensures
        render::by_run(trains).contains(t) <==> trains.contains(t),
        render::by_run(trains).len() == trains.len(),
    decreases trains.len(),
{
    if trains.len() > 0 {
        let front = trains.drop_last();
        by_run_holds(front, t);
        placed_holds(render::by_run(front), trains.last(), t);
        assert(trains =~= front.push(trains.last()));
        pushed(front, trains.last(), t);
    }
}

/// The trains that a line's listing shows, in its order.
spec fn listed(trains: Seq<TrainView>, line: Seq<char>) -> Seq<TrainView> {
    render::by_run(render::on_line(trains, line))
}

proof fn listed_are(trains: Seq<TrainView>, line: Seq<char>, t: TrainView)
    ensures
        listed(trains, line).len() == running(trains, line),
        listed(trains, line).contains(t) <==> trains.contains(t) && t.line == line,
{
    on_line_is(trains, line, t);
    by_run_holds(render::on_line(trains, line), t);
}

proof fn listed_runs(trains: Seq<TrainView>, line: Seq<char>, run: Seq<char>)
    ensures
        runs_there(trains, line, run) <==> exists|i: int|
            0 <= i < listed(trains, line).len() && (#[trigger] listed(trains, line)[i]).run == run,
{
    let l = listed(trains, line);
    if runs_there(trains, line, run) {
        let k = choose|k: int|
            0 <= k < trains.len() && (#[trigger] trains[k]).line == line && trains[k].run == run;
        listed_are(trains, line, trains[k]);
        let i = choose|i: int| 0 <= i < l.len() && l[i] == trains[k];
        assert(l[i].run == run);
    }
    if exists|i: int| 0 <= i < l.len() && (#[trigger] l[i]).run == run {
        let i = choose|i: int| 0 <= i < l.len() && (#[trigger] l[i]).run == run;
        listed_are(trains, line, l[i]);
        assert(l.contains(l[i]));
        let k = choose|k: int| 0 <= k < trains.len() && trains[k] == l[i];
        assert(trains[k].line == line && trains[k].run == run);
    }
}

proof fn paths_differ(a: Seq<char>, b: Seq<char>)
    requires
        "/train/"@ + a + ".txt"@ == "/train/"@ + b + ".txt"@,
    ensures
        a == b,
{
    reveal_strlit("/train/");
    reveal_strlit(".txt");
    let p = "/train/"@ + a + ".txt"@;
    let q = "/train/"@ + b + ".txt"@;
    assert(p.subrange(7, p.len() - 4) =~= a);
    assert(q.subrange(7, q.len() - 4) =~= b);
}

/// A line's menu links exactly the pages of the trains that run on the line: one link
/// for each of them, in the order of the run numbers, with the train's own row.
pub proof fn law_line_menu_links_its_trains(
    pos: PositionsView,
    line: Seq<char>,
    run: Seq<char>,
    i: int,
    j: int,
)
    ensures
        ({
            let menu = render::line_entries(pos, line);
            &&& leads(menu, ItemKind::Text, "/train/"@ + run + ".txt"@) <==> runs_there(
                pos.trains,
                line,
                run,
            )
            &&& count(menu, |e: EntryView| e is Link) == running(pos.trains, line)
            &&& 0 <= i < menu.len() && menu[i] is Link ==> exists|k: int|
                0 <= k < pos.trains.len() && (#[trigger] pos.trains[k]).line == line && is_link(
                    menu[i],
                    ItemKind::Text,
                    "/train/"@ + pos.trains[k].run + ".txt"@,
                ) && display_of(menu[i]) == render::row_text(pos.trains[k])
            &&& forall|a: Seq<char>, b: Seq<char>|
                0 <= i <= j < menu.len() && #[trigger] is_link(
                    menu[i],
                    ItemKind::Text,
                    "/train/"@ + a + ".txt"@,
                ) && #[trigger] is_link(menu[j], ItemKind::Text, "/train/"@ + b + ".txt"@)
                    ==> text::text_le(a, b)
        }),
{
    let menu = render::line_entries(pos, line);
    let l = listed(pos.trains, line);
    let n = l.len() as int;
    if n > 0 {
        assert forall|k: int| 0 <= k < menu.len() implies (menu[k] is Link <==> 4 <= k < 4 + n) && (
        4 <= k < 4 + n ==> menu[k] == render::row_entry(l[k - 4])) by {
            if 4 <= k < 4 + n {
                assert(menu[k] == render::row_entry(l[k - 4]));
            }
        }
    } else {
        assert forall|k: int| 0 <= k < menu.len() implies !(menu[k] is Link) by {}
    }
    listed_runs(pos.trains, line, run);
    let want = "/train/"@ + run + ".txt"@;
    if leads(menu, ItemKind::Text, want) {
        let k = choose|k: int|
            0 <= k < menu.len() && is_link(#[trigger] menu[k], ItemKind::Text, want);
        paths_differ(l[k - 4].run, run);
        assert(l[k - 4].run == run);
    }
    if runs_there(pos.trains, line, run) {
        let k = choose|k: int| 0 <= k < l.len() && (#[trigger] l[k]).run == run;
        assert(is_link(menu[4 + k], ItemKind::Text, want));
    }
    crate::tree::law_counts_agree(pos, line);
    links_are_counted(menu);
    if pos.trains.len() > 0 {
        on_line_is(pos.trains, line, pos.trains[0]);
    } else {
        on_line_is(pos.trains, line, arbitrary_train());
    }
    if 0 <= i < menu.len() && menu[i] is Link {
        let t = l[i - 4];
        listed_are(pos.trains, line, t);
        assert(l.contains(t));
        let k = choose|k: int| 0 <= k < pos.trains.len() && pos.trains[k] == t;
        assert(pos.trains[k].line == line);
    }
    assert forall|a: Seq<char>, b: Seq<char>|
        0 <= i <= j < menu.len() && #[trigger] is_link(
            menu[i],
            ItemKind::Text,
            "/train/"@ + a + ".txt"@,
        ) && #[trigger] is_link(
            menu[j],
            ItemKind::Text,
            "/train/"@ + b + ".txt"@,
        ) implies text::text_le(a, b) by {
        paths_differ(l[i - 4].run, a);
        paths_differ(l[j - 4].run, b);
        render::law_listing_is_in_run_order(render::on_line(pos.trains, line));
        assert(text::text_le(l[i - 4].run, l[j - 4].run));
    }
}

spec fn arbitrary_train() -> TrainView {
    arbitrary()
}

proof fn links_are_counted(menu: Seq<EntryView>)
    ensures
        crate::tree::link_count(menu) == count(menu, |e: EntryView| e is Link),
    decreases menu.len(),
{
    if menu.len() > 0 {
        links_are_counted(menu.drop_last());
    }
}

/// A line's menu is headed by the line's name and, where trains run on it, by how many
/// do. It is marked as recorded data exactly where it lists trains of such data, and
/// says that no train is reporting exactly where a line of the board has none.
pub proof fn law_line_menu_is_headed(pos: PositionsView, line: Seq<char>)
    ensures
        ({
            let menu = render::line_entries(pos, line);
            let n = running(pos.trains, line);
            &&& menu[0] == EntryView::Info(render::label_of(line) + " Line -- live trains"@)
            &&& n > 0 ==> menu[2] == EntryView::Info(
                text::dec(n) + " train(s) running -- select one for details:"@,
            )
            &&& menu.contains(EntryView::Info("(offline demo data from bundled fixture)"@))
                <==> pos.from_fixture && n > 0
            &&& menu.contains(EntryView::Info("No trains currently reporting on this line."@))
                <==> n == 0 && transit::line_keys().contains(line)
        }),
{
    let menu = render::line_entries(pos, line);
    let l = listed(pos.trains, line);
    listed_are(pos.trains, line, arbitrary_train());
    reveal_strlit("(offline demo data from bundled fixture)");
    reveal_strlit("No trains currently reporting on this line.");
    reveal_strlit(" Line -- live trains");
    reveal_strlit(" train(s) running -- select one for details:");
    reveal_strlit("Unknown line '");
    reveal_strlit("'.");
    reveal_strlit("Known: red blue brn g org p pink y");
    reveal_strlit("");
    let note = "(offline demo data from bundled fixture)"@;
    let none = "No trains currently reporting on this line."@;
    let title = render::label_of(line) + " Line -- live trains"@;
    let head = text::dec(l.len()) + " train(s) running -- select one for details:"@;
    let unknown = render::unknown_notice(line);
    assert(note.last() == ')' && none.last() == '.' && title.last() == 's' && head.last() == ':');
    assert(none[0] == 'N' && unknown[0] == 'U' && unknown.last() == '.' && note[0] == '(');
    assert(text::filled('=', 40)[0] == '=');
    assert("Known: red blue brn g org p pink y"@.last() == 'y');
    if l.len() > 0 {
        if pos.from_fixture {
            assert(menu[menu.len() - 1] == EntryView::Info(note));
        }
        assert forall|k: int| 0 <= k < menu.len() implies menu[k] != EntryView::Info(none) && (
        !pos.from_fixture ==> menu[k] != EntryView::Info(note)) by {
            if 4 <= k < 4 + l.len() {
                assert(menu[k] == render::row_entry(l[k - 4]));
            }
        }
    } else {
        if transit::line_keys().contains(line) {
            assert(menu[2] == EntryView::Info(none));
        }
        assert forall|k: int| 0 <= k < menu.len() implies menu[k] != EntryView::Info(note) && (
        !transit::line_keys().contains(line) ==> menu[k] != EntryView::Info(none)) by {}
    }
}

/// The root menu leads to every line of the board, under the line's name and with how
/// many trains run on it.
pub proof fn law_root_counts_each_line(
    pos: PositionsView,
    src: bool,
    phlog: Option<(Seq<char>, u16)>,
    key: Seq<char>,
)
    requires
        transit::line_keys().contains(key),
    ensures
        exists|j: int|
            {
                &&& 0 <= j < render::root_entries(pos, src, phlog).len()
                &&& is_link(
                    #[trigger] render::root_entries(pos, src, phlog)[j],
                    ItemKind::Menu,
                    "/"@ + key,
                )
                &&& display_of(render::root_entries(pos, src, phlog)[j]) == text::padded(
                    render::label_of(key),
                    8,
                ) + " ("@ + text::dec(running(pos.trains, key)) + " running)"@
            },
{
    let menu = render::root_entries(pos, src, phlog);
    let i = choose|i: int| 0 <= i < transit::line_keys().len() && transit::line_keys()[i] == key;
    on_line_is(pos.trains, key, arbitrary_train());
    let head = render::root_head();
    let j = head.len() + i;
    let lines = render::root_lines(pos.trains);
    assert(lines[i] == render::line_entry(pos.trains, key));
    assert(menu[j] == lines[i]);
    assert(is_link(menu[j], ItemKind::Menu, "/"@ + key));
}

/// The root menu leads to every page of the tree that is not hidden, to the source
/// tarball exactly where there is one, and is marked where the data is recorded.
pub proof fn law_root_leads_to_the_pages(
    pos: PositionsView,
    src: bool,
    phlog: Option<(Seq<char>, u16)>,
)
    ensures
        ({
            let menu = render::root_entries(pos, src, phlog);
            &&& leads(menu, ItemKind::Text, "/map.txt"@)
            &&& leads(menu, ItemKind::Text, "/map.ansi"@)
            &&& leads(menu, ItemKind::Text, "/atlas.txt"@)
            &&& leads(menu, ItemKind::Text, "/atlas.ansi"@)
            &&& leads(menu, ItemKind::Menu, "/landmarks"@)
            &&& leads(menu, ItemKind::Text, "/dispatch.txt"@)
            &&& leads(menu, ItemKind::Text, "/sitrep.txt"@)
            &&& leads(menu, ItemKind::Text, "/events.txt"@)
            &&& leads(menu, ItemKind::Text, "/about.txt"@)
            &&& leads(menu, ItemKind::Text, "/faq.txt"@)
            &&& leads(menu, ItemKind::Text, "/help.txt"@)
            &&& src ==> leads(menu, ItemKind::Bin, "/src.tar.gz"@)
            &&& !src ==> forall|j: int|
                0 <= j < menu.len() && #[trigger] menu[j] is Link ==> menu[j]->kind != ItemKind::Bin
            &&& phlog matches Some((host, port)) ==> exists|j: int|
                0 <= j < menu.len() && #[trigger] menu[j] == (EntryView::Link {
                    kind: ItemKind::Menu,
                    display: "Phlog -- the blog"@,
                    selector: "/"@,
                    host: Some(host),
                    port: Some(port),
                })
            &&& menu.contains(EntryView::Info("(offline demo data from bundled fixture)"@))
                <==> pos.from_fixture
        }),
{
    let menu = render::root_entries(pos, src, phlog);
    let head = render::root_head();
    let lines = render::root_lines(pos.trains);
    assert(lines.len() == 8 && head.len() == 15);
    assert forall|j: int| 0 <= j < 15 implies menu[j] == head[j] by {}
    assert forall|j: int| 15 <= j < 23 implies menu[j] == lines[j - 15] && menu[j] is Link
        && menu[j]->kind == ItemKind::Menu by {
        assert(lines[j - 15] == render::line_entry(pos.trains, transit::line_keys()[j - 15]));
    }
    assert(is_link(menu[4], ItemKind::Text, "/map.txt"@));
    assert(is_link(menu[5], ItemKind::Text, "/atlas.txt"@));
    assert(is_link(menu[6], ItemKind::Text, "/map.ansi"@));
    assert(is_link(menu[7], ItemKind::Text, "/atlas.ansi"@));
    assert(is_link(menu[8], ItemKind::Menu, "/landmarks"@));
    assert(is_link(menu[10], ItemKind::Text, "/dispatch.txt"@));
    assert(is_link(menu[11], ItemKind::Text, "/sitrep.txt"@));
    assert(is_link(menu[12], ItemKind::Text, "/events.txt"@));
    assert(is_link(menu[24], ItemKind::Text, "/about.txt"@));
    assert(is_link(menu[25], ItemKind::Text, "/faq.txt"@));
    assert(is_link(menu[26], ItemKind::Text, "/help.txt"@));
    if src {
        assert(is_link(menu[27], ItemKind::Bin, "/src.tar.gz"@));
    }
    let k: int = if src {
        30
    } else {
        29
    };
    if phlog is Some {
        let (host, port) = phlog->0;
        assert(menu[k] == render::phlog_entry(host, port));
    }
    let note = "(offline demo data from bundled fixture)"@;
    reveal_strlit("(offline demo data from bundled fixture)");
    reveal_strlit("===============================================");
    reveal_strlit("  gopher-cta : live CTA 'L' trains over Gopher");
    reveal_strlit("");
    reveal_strlit("Trains by line:");
    reveal_strlit("Data: CTA Train Tracker. Not affiliated with the CTA.");
    assert(note[0] == '(');
    if pos.from_fixture {
        assert(menu[menu.len() - 1] == EntryView::Info(note));
    } else {
        assert forall|j: int| 0 <= j < menu.len() implies menu[j] != EntryView::Info(note) by {
            assert("==============================================="@[0] == '=');
            assert("  gopher-cta : live CTA 'L' trains over Gopher"@[0] == ' ');
            assert("Trains by line:"@[0] == 'T');
            assert("Data: CTA Train Tracker. Not affiliated with the CTA."@[0] == 'D');
            assert(""@.len() == 0 && note.len() == 40);
            if j < 15 {
                assert(menu[j] == head[j]);
            } else if j >= 23 {
                let upto = render::root_upto_links(pos, src);
                let help = render::root_upto_help(pos);
                assert(help.len() == 27);
                assert(upto.len() == k - 1 || upto.len() == k);
                assert(help[23] == EntryView::Info(""@));
                if j == 23 {
                    assert(menu[j] == help[j]);
                } else if j < upto.len() {
                    assert(menu[j] == upto[j]);
                    assert(upto[j] is Link);
                } else {
                    let at = if phlog is Some {
                        upto.len() as int + 1
                    } else {
                        upto.len() as int
                    };
                    if j >= at {
                        assert(menu[j] == render::root_tail(pos)[j - at]);
                    }
                }
            }
        }
    }
}

/// The names of the lines tell them apart, the express runs of a line go by its name
/// and colour, and an unknown key stands for itself.
pub proof fn law_lines_are_told_apart(a: int, b: int, key: Seq<char>)
    requires
        0 <= a < b < 8,
    ensures
        render::label_of(transit::line_keys()[a]) != render::label_of(transit::line_keys()[b]),
        render::ansi_of(transit::line_keys()[a]) != render::ansi_of(transit::line_keys()[b]),
        render::hex_of(transit::line_keys()[a]) != render::hex_of(transit::line_keys()[b]),
        transit::line_keys()[a] != transit::line_keys()[b],
        render::label_of("pexp"@) == render::label_of("p"@),
        render::ansi_of("pexp"@) == render::ansi_of("p"@),
        render::hex_of("pexp"@) == render::hex_of("p"@),
        !transit::line_keys().contains(key) && key != "pexp"@ ==> render::label_of(key) == key,
        render::ansi_of(key) != 0,
{
    keys_are();
    reveal_strlit("Red");
    reveal_strlit("Blue");
    reveal_strlit("Brown");
    reveal_strlit("Green");
    reveal_strlit("Orange");
    reveal_strlit("Purple");
    reveal_strlit("Pink");
    reveal_strlit("Yellow");
    reveal_strlit("#c60c30");
    reveal_strlit("#00a1de");
    reveal_strlit("#62361b");
    reveal_strlit("#009b3a");
    reveal_strlit("#f9461c");
    reveal_strlit("#522398");
    reveal_strlit("#e27ea6");
    reveal_strlit("#f9e300");
    let keys = transit::line_keys();
    assert("Red"@[0] == 'R' && "Blue"@[0] == 'B' && "Brown"@[0] == 'B' && "Green"@[0] == 'G'
        && "Orange"@[0] == 'O' && "Purple"@[0] == 'P' && "Pink"@[0] == 'P' && "Yellow"@[0] == 'Y');
    assert("Blue"@.len() == 4 && "Brown"@.len() == 5 && "Purple"@.len() == 6 && "Pink"@.len() == 4);
    assert("#c60c30"@[1] == 'c' && "#00a1de"@[3] == 'a' && "#009b3a"@[3] == '9' && "#62361b"@[1]
        == '6' && "#f9461c"@[3] == '4' && "#f9e300"@[3] == 'e' && "#522398"@[1] == '5'
        && "#e27ea6"@[1] == 'e' && "#00a1de"@[1] == '0' && "#009b3a"@[1] == '0' && "#f9461c"@[1]
        == 'f' && "#f9e300"@[1] == 'f');
    assert(keys[0] == "red"@ && keys[1] == "blue"@ && keys[2] == "brn"@ && keys[3] == "g"@
        && keys[4] == "org"@ && keys[5] == "p"@ && keys[6] == "pink"@ && keys[7] == "y"@);
    if !keys.contains(key) {
        assert(key != keys[0] && key != keys[1] && key != keys[2] && key != keys[3] && key
            != keys[4] && key != keys[5] && key != keys[6] && key != keys[7]);
    }
}

proof fn keys_are()
    ensures
        "red"@ != "blue"@ && "red"@ != "brn"@ && "red"@ != "g"@ && "red"@ != "org"@ && "red"@
            != "p"@ && "red"@ != "pink"@ && "red"@ != "y"@ && "red"@ != "pexp"@,
        "blue"@ != "brn"@ && "blue"@ != "g"@ && "blue"@ != "org"@ && "blue"@ != "p"@ && "blue"@
            != "pink"@ && "blue"@ != "y"@ && "blue"@ != "pexp"@,
        "brn"@ != "g"@ && "brn"@ != "org"@ && "brn"@ != "p"@ && "brn"@ != "pink"@ && "brn"@ != "y"@
            && "brn"@ != "pexp"@,
        "g"@ != "org"@ && "g"@ != "p"@ && "g"@ != "pink"@ && "g"@ != "y"@ && "g"@ != "pexp"@,
        "org"@ != "p"@ && "org"@ != "pink"@ && "org"@ != "y"@ && "org"@ != "pexp"@,
        "p"@ != "pink"@ && "p"@ != "y"@ && "p"@ != "pexp"@,
        "pink"@ != "y"@ && "pink"@ != "pexp"@,
        "y"@ != "pexp"@,
{
    reveal_strlit("red");
    reveal_strlit("blue");
    reveal_strlit("brn");
    reveal_strlit("g");
    reveal_strlit("org");
    reveal_strlit("p");
    reveal_strlit("pink");
    reveal_strlit("y");
    reveal_strlit("pexp");
    assert("red"@[0] == 'r' && "blue"@[0] == 'b' && "brn"@[0] == 'b' && "g"@[0] == 'g' && "org"@[0]
        == 'o' && "p"@[0] == 'p' && "pink"@[0] == 'p' && "y"@[0] == 'y' && "pexp"@[0] == 'p');
    assert("p"@.len() == 1 && "pink"@.len() == 4 && "pexp"@.len() == 4);
    assert("blue"@[1] == 'l' && "brn"@[1] == 'r' && "pink"@[1] == 'i' && "pexp"@[1] == 'e');
}

// ---------- the server's menus ----------

/// Whether an item of a menu leads to a selector of this server.
pub open spec fn leads_on(
    menu: Seq<MenuItemView>,
    selector: Seq<char>,
    host: Seq<char>,
    port: u16,
) -> bool {
    exists|j: int|
        0 <= j < menu.len() && (#[trigger] menu[j]).itype != ItemType::Info && menu[j].selector
            == selector && menu[j].host == host && menu[j].port == port
}

/// A line's menu of the server links exactly the trains that run on the line, one item
/// for each, and every item leads back to the server.
pub proof fn law_server_lists_the_trains_of_a_line(
    pos: PositionsView,
    line: Seq<char>,
    host: Seq<char>,
    port: u16,
    run: Seq<char>,
)
    ensures
        ({
            let menu = server::line_items(pos, line, host, port);
            &&& leads_on(menu, "/train/"@ + run, host, port) <==> runs_there(pos.trains, line, run)
            &&& count(menu, |m: MenuItemView| m.itype != ItemType::Info) == running(
                pos.trains,
                line,
            )
            &&& forall|j: int|
                0 <= j < menu.len() && (#[trigger] menu[j]).itype != ItemType::Info
                    ==> menu[j].host == host && menu[j].port == port
            &&& menu[0].display == render::label_of(line) + " Line -- live trains"@
            &&& running(pos.trains, line) > 0 ==> menu[2].display == text::dec(
                running(pos.trains, line),
            ) + " train(s) running -- select one for details:"@
        }),
{
    let menu = server::line_items(pos, line, host, port);
    let l = listed(pos.trains, line);
    let n = l.len() as int;
    listed_are(pos.trains, line, arbitrary_train());
    listed_runs(pos.trains, line, run);
    if n > 0 {
        assert forall|k: int| 0 <= k < menu.len() implies (menu[k].itype != ItemType::Info <==> 4
            <= k < 4 + n) && (4 <= k < 4 + n ==> menu[k] == server::train_item(
            l[k - 4],
            host,
            port,
        )) by {
            if 4 <= k < 4 + n {
                assert(menu[k] == server::train_item(l[k - 4], host, port));
            }
        }
    } else {
        assert forall|k: int| 0 <= k < menu.len() implies (#[trigger] menu[k]).itype
            == ItemType::Info by {}
    }
    let want = "/train/"@ + run;
    reveal_strlit("/train/");
    if leads_on(menu, want, host, port) {
        let k = choose|k: int|
            0 <= k < menu.len() && (#[trigger] menu[k]).itype != ItemType::Info && menu[k].selector
                == want && menu[k].host == host && menu[k].port == port;
        assert(("/train/"@ + l[k - 4].run).skip(7) =~= l[k - 4].run);
        assert(want.skip(7) =~= run);
        assert(l[k - 4].run == run);
    }
    if runs_there(pos.trains, line, run) {
        let k = choose|k: int| 0 <= k < l.len() && (#[trigger] l[k]).run == run;
        assert(menu[4 + k].selector == want);
    }
    if n > 0 {
        links_stand_together(menu, 4, 4 + n);
    } else {
        links_stand_together(menu, 0, 0);
    }
}

proof fn links_stand_together(menu: Seq<MenuItemView>, a: int, b: int)
    requires
        0 <= a <= b <= menu.len(),
        forall|k: int|
            0 <= k < menu.len() ==> ((#[trigger] menu[k]).itype != ItemType::Info <==> a <= k < b),
    ensures
        count(menu, |m: MenuItemView| m.itype != ItemType::Info) == b - a,
    decreases menu.len(),
{
    if menu.len() > 0 {
        let front = menu.drop_last();
        let b2 = if b == menu.len() && a < b {
            b - 1
        } else {
            b
        };
        assert(menu.last() == menu[menu.len() - 1]);
        if b == menu.len() && a == b {
            links_stand_together(front, 0, 0);
        } else {
            assert forall|k: int| 0 <= k < front.len() implies ((#[trigger] front[k]).itype
                != ItemType::Info <==> a <= k < b2) by {
                assert(front[k] == menu[k]);
            }
            links_stand_together(front, a, b2);
        }
    }
}

/// The server's list of lines leads to every line of the board, under the line's name
/// and with how many trains run on it, and its root to the map, the lines and the
/// about page; all of it at the server's own address.
pub proof fn law_server_leads_to_lines_and_pages(
    pos: PositionsView,
    key: Seq<char>,
    host: Seq<char>,
    port: u16,
)
    requires
        transit::line_keys().contains(key),
    ensures
        exists|j: int|
            {
                &&& 0 <= j < server::cta_items(pos.trains, host, port).len()
                &&& (#[trigger] server::cta_items(pos.trains, host, port)[j]).selector == "/cta/"@
                    + key
                &&& server::cta_items(pos.trains, host, port)[j].host == host
                &&& server::cta_items(pos.trains, host, port)[j].port == port
                &&& server::cta_items(pos.trains, host, port)[j].display == text::padded(
                    render::label_of(key),
                    8,
                ) + " ("@ + text::dec(running(pos.trains, key)) + " running)"@
            },
        leads_on(server::root_items(host, port), "/map"@, host, port),
        leads_on(server::root_items(host, port), "/cta"@, host, port),
        leads_on(server::root_items(host, port), "/about"@, host, port),
{
    let menu = server::cta_items(pos.trains, host, port);
    let i = choose|i: int| 0 <= i < transit::line_keys().len() && transit::line_keys()[i] == key;
    on_line_is(pos.trains, key, arbitrary_train());
    assert(menu[2 + i] == server::line_item(pos.trains, key, host, port));
    let root = server::root_items(host, port);
    assert(root[4].selector == "/map"@ && root[5].selector == "/cta"@ && root[6].selector
        == "/about"@);
}

/// Each route is answered by its own page or menu.
pub proof fn law_each_route_has_its_answer(
    host: Seq<char>,
    port: u16,
    geo: crate::project::Geometry,
    pos: PositionsView,
    name: Seq<char>,
    s: Seq<char>,
)
    ensures
        server::response(host, port, geo, server::RouteView::Root, pos, name)
            == protocol::menu_wire(server::root_items(host, port)),
        server::response(host, port, geo, server::RouteView::Cta, pos, name) == protocol::menu_wire(
            server::cta_items(pos.trains, host, port),
        ),
        server::response(host, port, geo, server::RouteView::Line(s), pos, name)
            == protocol::menu_wire(server::line_items(pos, s, host, port)),
        server::response(host, port, geo, server::RouteView::Train(s), pos, name)
            == protocol::text_wire(server::train_detail(pos, s)),
        server::response(host, port, geo, server::RouteView::TrainMap, pos, name)
            == protocol::text_wire(crate::trainmap::map_text(pos, geo, name)),
        protocol::read_lines(
            server::response(host, port, geo, server::RouteView::About, pos, name),
        ) == protocol::text_lines(
            server::about_body(crate::project::Geometry { wc: 48, hc: 30, wp: 96, hp: 120 }),
        ),
        protocol::read_lines(
            server::response(host, port, geo, server::RouteView::Unknown(s), pos, name),
        ) == protocol::text_lines("Unknown selector: "@ + s + "\r\n\r\nGo back to the root menu."@),
{
    protocol::law_text_is_read_back(
        server::about_body(crate::project::Geometry { wc: 48, hc: 30, wp: 96, hp: 120 }),
    );
    protocol::law_text_is_read_back(
        "Unknown selector: "@ + s + "\r\n\r\nGo back to the root menu."@,
    );
}

/// A selector that is none of the server's is unknown, and named without its slashes
/// at the end.
pub proof fn law_other_selectors_are_unknown(s: Seq<char>)
    requires
        s.len() > 0,
        s.last() != '/',
        s != "/about"@,
        s != "/map"@,
        s != "/cta"@,
        !text::starts_with(s, "/cta/"@),
        !text::starts_with(s, "/train/"@),
    ensures
        server::route_of(s) == server::RouteView::Unknown(s),
{
    reveal_strlit("");
}

/// The lines of the board, in its order.
pub open spec fn board() -> Seq<Seq<char>> {
    seq!["red"@, "blue"@, "brn"@, "g"@, "org"@, "p"@, "pink"@, "y"@]
}

/// The names of the lines, in the order of the board.
pub open spec fn board_names() -> Seq<Seq<char>> {
    seq![
        "Red"@,
        "Blue"@,
        "Brown"@,
        "Green"@,
        "Orange"@,
        "Purple"@,
        "Pink"@,
        "Yellow"@,
    ]
}

/// The brand colours of the lines, in the order of the board.
pub open spec fn board_hexes() -> Seq<Seq<char>> {
    seq![
        "#c60c30"@,
        "#00a1de"@,
        "#62361b"@,
        "#009b3a"@,
        "#f9461c"@,
        "#522398"@,
        "#e27ea6"@,
        "#f9e300"@,
    ]
}

/// The terminal colours of the lines, in the order of the board.
pub open spec fn board_codes() -> Seq<u8> {
    seq![196u8, 39, 130, 40, 208, 93, 213, 226]
}

/// Every line of the board has its name and its colours, and a line that the board does
/// not have goes by its key, in grey.
pub proof fn law_each_line_has_its_name_and_colours(i: int, key: Seq<char>)
    requires
        0 <= i < 8,
    ensures
        transit::line_keys() == board(),
        render::label_of(board()[i]) == board_names()[i],
        render::hex_of(board()[i]) == board_hexes()[i],
        render::ansi_of(board()[i]) == board_codes()[i],
        !board().contains(key) && key != "pexp"@ ==> render::label_of(key) == key
            && render::hex_of(key) == "#888888"@ && render::ansi_of(key) == 244,
{
    keys_are();
    let b = board();
    assert(transit::line_keys() =~= b);
    assert(b[0] == "red"@ && b[1] == "blue"@ && b[2] == "brn"@ && b[3] == "g"@ && b[4] == "org"@
        && b[5] == "p"@ && b[6] == "pink"@ && b[7] == "y"@);
}

/// The server's menu of a line and the tree's say the same, entry by entry: the same
/// remarks, and a link to the same train where the other has one.
pub proof fn law_server_and_tree_list_alike(
    pos: PositionsView,
    line: Seq<char>,
    host: Seq<char>,
    port: u16,
    j: int,
)
    requires
        0 <= j < render::line_entries(pos, line).len(),
    ensures
        ({
            let e = render::line_entries(pos, line)[j];
            let m = server::line_items(pos, line, host, port)[j];
            &&& server::line_items(pos, line, host, port).len() == render::line_entries(
                pos,
                line,
            ).len()
            &&& e is Info <==> m.itype == ItemType::Info
            &&& e matches EntryView::Info(s) ==> m == (MenuItemView {
                itype: ItemType::Info,
                display: s,
                selector: "fake"@,
                host: "(NULL)"@,
                port: 0,
            })
            &&& e is Link ==> m.itype == ItemType::Menu && e->kind == ItemKind::Text && exists|
                t: TrainView,
            |
                #![trigger pos.trains.contains(t)]
                {
                    &&& pos.trains.contains(t)
                    &&& t.line == line
                    &&& m.selector == "/train/"@ + t.run
                    &&& e->selector == "/train/"@ + t.run + ".txt"@
                    &&& text::starts_with(m.display, "Run "@ + text::padded(t.run, 5) + " -> "@ + t.dest)
                    &&& text::starts_with(e->display, "Run "@ + text::padded(t.run, 5) + " -> "@ + t.dest)
                }
        }),
{
    let entries = render::line_entries(pos, line);
    let items = server::line_items(pos, line, host, port);
    let l = listed(pos.trains, line);
    let n = l.len() as int;
    if n > 0 && 4 <= j < 4 + n {
        let t = l[j - 4];
        listed_are(pos.trains, line, t);
        assert(l.contains(t));
        assert(entries[j] == render::row_entry(t));
        assert(items[j] == server::train_item(t, host, port));
        crate::laws::trains::law_row_says_how_the_train_runs(t);
        crate::laws::trains::law_item_carries_the_flags(t, host, port);
        assert(pos.trains.contains(t));
    }
}

/// The trains of a line stand in the order of their runs, in the tree's menu and in the
/// server's.
pub proof fn law_line_menus_are_in_run_order(
    pos: PositionsView,
    line: Seq<char>,
    host: Seq<char>,
    port: u16,
    a: int,
    b: int,
    r: Seq<char>,
    s: Seq<char>,
)
    requires
        0 <= a < b,
    ensures
        ({
            let menu = render::line_entries(pos, line);
            b < menu.len() && is_link(menu[a], ItemKind::Text, "/train/"@ + r + ".txt"@) && is_link(
                menu[b],
                ItemKind::Text,
                "/train/"@ + s + ".txt"@,
            ) ==> text::text_le(r, s)
        }),
        ({
            let menu = server::line_items(pos, line, host, port);
            b < menu.len() && menu[a].itype != ItemType::Info && menu[b].itype != ItemType::Info
                && menu[a].selector == "/train/"@ + r && menu[b].selector == "/train/"@ + s
                ==> text::text_le(r, s)
        }),
{
    let l = listed(pos.trains, line);
    let n = l.len() as int;
    reveal_strlit("/train/");
    reveal_strlit(".txt");
    if n > 0 {
        let menu = render::line_entries(pos, line);
        let items = server::line_items(pos, line, host, port);
        render::law_listing_is_in_run_order(render::on_line(pos.trains, line));
        assert(4 <= a && b < 4 + n ==> text::text_le(l[a - 4].run, l[b - 4].run));
        if 4 <= a && b < 4 + n {
            assert(menu[a] == render::row_entry(l[a - 4]));
            assert(menu[b] == render::row_entry(l[b - 4]));
            assert(items[a] == server::train_item(l[a - 4], host, port));
            assert(items[b] == server::train_item(l[b - 4], host, port));
            let x = l[a - 4].run;
            let y = l[b - 4].run;
            assert(("/train/"@ + x).skip(7) =~= x && ("/train/"@ + y).skip(7) =~= y);
            assert(("/train/"@ + r).skip(7) =~= r && ("/train/"@ + s).skip(7) =~= s);
            assert(("/train/"@ + x + ".txt"@).subrange(7, (7 + x.len()) as int) =~= x);
            assert(("/train/"@ + y + ".txt"@).subrange(7, (7 + y.len()) as int) =~= y);
            assert(("/train/"@ + r + ".txt"@).subrange(7, (7 + r.len()) as int) =~= r);
            assert(("/train/"@ + s + ".txt"@).subrange(7, (7 + s.len()) as int) =~= s);
        }
    }
}

/// The lines stand in the order of the board, in the tree's root menu and in the
/// server's list of lines, which holds nothing else that leads on.
pub proof fn law_lines_stand_in_board_order(
    pos: PositionsView,
    src: bool,
    phlog: Option<(Seq<char>, u16)>,
    host: Seq<char>,
    port: u16,
    i: int,
)
    requires
        0 <= i < 8,
    ensures
        is_link(render::root_entries(pos, src, phlog)[15 + i], ItemKind::Menu, "/"@ + board()[i]),
        server::cta_items(pos.trains, host, port).len() == 10,
        server::cta_items(pos.trains, host, port)[2 + i].itype == ItemType::Text,
        server::cta_items(pos.trains, host, port)[2 + i].selector == "/cta/"@ + board()[i],
        server::cta_items(pos.trains, host, port)[0].itype == ItemType::Info,
        server::cta_items(pos.trains, host, port)[1].itype == ItemType::Info,
{
    law_each_line_has_its_name_and_colours(i, board()[i]);
    let menu = render::root_entries(pos, src, phlog);
    let lines = render::root_lines(pos.trains);
    assert(render::root_head().len() == 15);
    assert(lines[i] == render::line_entry(pos.trains, board()[i]));
    assert(menu[15 + i] == lines[i]);
    assert(server::cta_items(pos.trains, host, port)[2 + i] == server::line_item(
        pos.trains,
        board()[i],
        host,
        port,
    ));
}

/// The menu of a line that is not known and has no train says so, and names the lines
/// of the board.
pub proof fn law_unknown_lines_are_told_the_known_ones(pos: PositionsView, line: Seq<char>)
    requires
        !board().contains(line),
        forall|k: int| 0 <= k < pos.trains.len() ==> (#[trigger] pos.trains[k]).line != line,
    ensures
        ({
            let menu = render::line_entries(pos, line);
            &&& menu.len() == 4
            &&& menu[2] == EntryView::Info("Unknown line '"@ + line + "'."@)
            &&& menu[3] == EntryView::Info("Known: "@ + text::joined(board(), " "@))
        }),
{
    law_each_line_has_its_name_and_colours(0, line);
    let l = listed(pos.trains, line);
    if l.len() > 0 {
        listed_are(pos.trains, line, l[0]);
        assert(l.contains(l[0]));
        let k = choose|k: int| 0 <= k < pos.trains.len() && pos.trains[k] == l[0];
        assert(pos.trains[k].line == line);
    }
    known_lines_are();
}

proof fn one_more(list: Seq<Seq<char>>, sep: Seq<char>, part: Seq<char>)
    requires
        list.len() > 0,
    ensures
        text::joined(list.push(part), sep) == text::joined(list, sep) + sep + part,
{
    assert(list.push(part).drop_last() =~= list);
}

proof fn board_is_joined()
    ensures
        text::joined(board(), " "@) == "red"@ + " "@ + "blue"@ + " "@ + "brn"@ + " "@ + "g"@ + " "@
            + "org"@ + " "@ + "p"@ + " "@ + "pink"@ + " "@ + "y"@,
{
    let sep = " "@;
    let b1 = seq!["red"@];
    let b2 = b1.push("blue"@);
    let b3 = b2.push("brn"@);
    let b4 = b3.push("g"@);
    let b5 = b4.push("org"@);
    let b6 = b5.push("p"@);
    let b7 = b6.push("pink"@);
    one_more(b1, sep, "blue"@);
    one_more(b2, sep, "brn"@);
    one_more(b3, sep, "g"@);
    one_more(b4, sep, "org"@);
    one_more(b5, sep, "p"@);
    one_more(b6, sep, "pink"@);
    one_more(b7, sep, "y"@);
    assert(b7.push("y"@) =~= board());
}

proof fn known_lines_are()
    ensures
        "Known: red blue brn g org p pink y"@ == "Known: "@ + text::joined(board(), " "@),
{
    board_is_joined();
    reveal_strlit("Known: red blue brn g org p pink y");
    reveal_strlit("Known: ");
    reveal_strlit(" ");
    reveal_strlit("red");
    reveal_strlit("blue");
    reveal_strlit("brn");
    reveal_strlit("g");
    reveal_strlit("org");
    reveal_strlit("p");
    reveal_strlit("pink");
    reveal_strlit("y");
    assert("Known: red blue brn g org p pink y"@ =~= "Known: "@ + ("red"@ + " "@ + "blue"@ + " "@
        + "brn"@ + " "@ + "g"@ + " "@ + "org"@ + " "@ + "p"@ + " "@ + "pink"@ + " "@ + "y"@));
}

} // verus!
