//! What a published tree holds: every page at its path, every line's own menu, every
//! train's own page, and nothing else.

use crate::atlas;
use crate::atlas::Landmark;
use crate::gph;
use crate::laws::menus;
use crate::laws::reading::count;
use crate::narration;
use crate::pages;
use crate::project::Geometry;
use crate::render;
use crate::render::{EntryView, ItemKind};
use crate::text;
use crate::trainmap;
use crate::transit;
use crate::transit::{PositionsView, TrainView};
use crate::tree;
use crate::tree::{SnapshotView, TreeItemView};
use vstd::prelude::*;

verus! {

/// A text file at a path.
pub open spec fn text_at(path: Seq<char>, body: Seq<char>) -> TreeItemView {
    TreeItemView::Text { path, body }
}

/// Whether a run number or a marker can be the name of a file: ASCII letters and
/// digits alone.
pub open spec fn plain_name(s: Seq<char>) -> bool {
    forall|i: int|
        0 <= i < s.len() ==> ('a' <= #[trigger] s[i] <= 'z' || 'A' <= s[i] <= 'Z' || '0' <= s[i]
            <= '9')
}

/// Whether something belongs into the tree as one of its pages.
pub open spec fn is_page(s: SnapshotView, t: TreeItemView) -> bool {
    ||| t == text_at("map.txt"@, trainmap::map_text(s.pos, s.geo, s.source_name))
    ||| t == text_at(
        "map.ansi"@,
        trainmap::map_ansi_text(s.map_base, s.pos, s.geo, s.source_name),
    )
    ||| t == text_at(
        "atlas.txt"@,
        atlas::atlas_text(s.overlay, s.geom, s.pos, s.source_name, false),
    )
    ||| t == text_at(
        "atlas.ansi"@,
        atlas::atlas_text(s.overlay, s.geom, s.pos, s.source_name, true),
    )
    ||| t == text_at("dispatch.txt"@, narration::dispatch_text(s.narration, s.pos, s.now))
    ||| t == text_at("sitrep.txt"@, narration::sitrep_text(s.narration, s.now))
    ||| t == text_at("events.txt"@, narration::events_text(s.narration, s.now))
    ||| t == text_at(
        "about.txt"@,
        pages::about_text(Geometry { wc: 48, hc: 30, wp: 96, hp: 120 }),
    )
    ||| t == text_at("faq.txt"@, pages::faq_text())
    ||| t == text_at("help.txt"@, pages::help_text(Geometry { wc: 48, hc: 30, wp: 96, hp: 120 }))
    ||| t == text_at("dig.txt"@, pages::dig_text())
    ||| t == (TreeItemView::Bytes { path: "caps.txt"@, body: s.caps })
    ||| t == (TreeItemView::Bytes { path: "robots.txt"@, body: s.robots })
}

/// Whether something belongs into the tree for a line of the board.
pub open spec fn is_of_line(s: SnapshotView, t: TreeItemView, key: Seq<char>) -> bool {
    ||| t == TreeItemView::Dir(key)
    ||| t == text_at(key + "/index.gph"@, gph::gph_text(render::line_entries(s.pos, key)))
}

/// Whether something belongs into the tree: a page, a menu, or the page of a train or
/// landmark.
pub open spec fn belongs(s: SnapshotView, t: TreeItemView) -> bool {
    let marks = s.overlay.landmarks@;
    ||| t == text_at(
        "index.gph"@,
        gph::gph_text(render::root_entries(s.pos, s.src_archive is Some, s.phlog)),
    )
    ||| s.src_archive matches Some(b) && t == (TreeItemView::Bytes {
        path: "src.tar.gz"@,
        body: b,
    })
    ||| is_page(s, t)
    ||| exists|i: int| 0 <= i < 8 && is_of_line(s, t, #[trigger] transit::line_keys()[i])
    ||| t == TreeItemView::Dir("train"@)
    ||| exists|k: int|
        0 <= k < s.pos.trains.len() && plain_name((#[trigger] s.pos.trains[k]).run) && t == text_at(
            "train/"@ + s.pos.trains[k].run + ".txt"@,
            render::train_page_text(s.pos, s.pos.trains[k].run),
        )
    ||| t == TreeItemView::Dir("landmarks"@)
    ||| t == text_at("landmarks/index.gph"@, gph::gph_text(atlas::landmark_entries(marks)))
    ||| t == TreeItemView::Dir("landmark"@)
    ||| exists|k: int|
        0 <= k < marks.len() && plain_name(seq![(#[trigger] marks[k]).marker]) && t == text_at(
            "landmark/"@ + seq![marks[k].marker] + ".txt"@,
            atlas::landmark_text(marks, marks[k].marker),
        )
}

proof fn both_hold(a: Seq<TreeItemView>, b: Seq<TreeItemView>, t: TreeItemView)
    ensures
        (a + b).contains(t) <==> a.contains(t) || b.contains(t),
{
    if a.contains(t) {
        let k = choose|k: int| 0 <= k < a.len() && a[k] == t;
        assert((a + b)[k] == t);
    }
    if b.contains(t) {
        let k = choose|k: int| 0 <= k < b.len() && b[k] == t;
        assert((a + b)[a.len() + k] == t);
    }
    if (a + b).contains(t) {
        let k = choose|k: int| 0 <= k < (a + b).len() && (a + b)[k] == t;
        if k < a.len() {
            assert(a[k] == t);
        } else {
            assert(b[k - a.len()] == t);
        }
    }
}

proof fn lines_hold(s: SnapshotView, n: nat, t: TreeItemView)
    requires
        n <= 8,
    ensures
        tree::line_items(s.pos, n).contains(t) <==> exists|i: int|
            0 <= i < n && is_of_line(s, t, #[trigger] transit::line_keys()[i]),
    decreases n,
{
    if n > 0 {
        let m = (n - 1) as nat;
        let key = transit::line_keys()[n - 1];
        let before = tree::line_items(s.pos, m);
        let two = seq![
            TreeItemView::Dir(key),
            text_at(key + "/index.gph"@, gph::gph_text(render::line_entries(s.pos, key))),
        ];
        lines_hold(s, m, t);
        assert(tree::line_items(s.pos, n) =~= before + two);
        both_hold(before, two, t);
        assert(two.contains(t) <==> is_of_line(s, t, key)) by {
            assert(two[0] == TreeItemView::Dir(key));
            if is_of_line(s, t, key) {
                if t == two[0] {
                    assert(two.contains(t));
                } else {
                    assert(two[1] == t);
                }
            }
        }
        if exists|i: int| 0 <= i < m && is_of_line(s, t, #[trigger] transit::line_keys()[i]) {
            let i = choose|i: int|
                0 <= i < m && is_of_line(s, t, #[trigger] transit::line_keys()[i]);
            assert(0 <= i < n && is_of_line(s, t, transit::line_keys()[i]));
        }
        if exists|i: int| 0 <= i < n && is_of_line(s, t, #[trigger] transit::line_keys()[i]) {
            let i = choose|i: int|
                0 <= i < n && is_of_line(s, t, #[trigger] transit::line_keys()[i]);
            if i < m {
                assert(0 <= i < m && is_of_line(s, t, transit::line_keys()[i]));
            }
        }
    } else {
        assert(!tree::line_items(s.pos, n).contains(t));
    }
}

spec fn is_train_page(pos: PositionsView, run: Seq<char>, t: TreeItemView) -> bool {
    plain_name(run) && t == text_at(
        "train/"@ + run + ".txt"@,
        render::train_page_text(pos, run),
    )
}

proof fn names_are_plain(s: Seq<char>)
    ensures
        text::is_alnum(s) <==> plain_name(s),
{
    if text::is_alnum(s) {
        assert forall|i: int| 0 <= i < s.len() implies ('a' <= #[trigger] s[i] <= 'z' || 'A' <= s[i]
            <= 'Z' || '0' <= s[i] <= '9') by {
            assert(text::alnum(s[i]));
        }
    }
}

proof fn trains_hold(pos: PositionsView, trains: Seq<TrainView>, t: TreeItemView)
    ensures
        tree::train_items(pos, trains).contains(t) <==> exists|k: int|
            0 <= k < trains.len() && is_train_page(pos, (#[trigger] trains[k]).run, t),
    decreases trains.len(),
{
    if trains.len() > 0 {
        let front = trains.drop_last();
        let run = trains.last().run;
        let before = tree::train_items(pos, front);
        trains_hold(pos, front, t);
        names_are_plain(run);
        let one = seq![text_at("train/"@ + run + ".txt"@, render::train_page_text(pos, run))];
        if text::is_alnum(run) {
            assert(tree::train_items(pos, trains) =~= before + one);
            both_hold(before, one, t);
            assert(one.contains(t) <==> t == one[0]);
        }
        if exists|k: int| 0 <= k < front.len() && is_train_page(pos, (#[trigger] front[k]).run, t) {
            let k = choose|k: int|
                0 <= k < front.len() && is_train_page(pos, (#[trigger] front[k]).run, t);
            assert(trains[k] == front[k]);
        }
        if exists|k: int|
            0 <= k < trains.len() && is_train_page(pos, (#[trigger] trains[k]).run, t) {
            let k = choose|k: int|
                0 <= k < trains.len() && is_train_page(pos, (#[trigger] trains[k]).run, t);
            if k < front.len() {
                assert(trains[k] == front[k]);
            }
        }
        assert(trains[trains.len() - 1].run == run);
    } else {
        assert(!tree::train_items(pos, trains).contains(t));
    }
}

spec fn is_landmark_page(marks: Seq<Landmark>, marker: char, t: TreeItemView) -> bool {
    plain_name(seq![marker]) && t == text_at(
        "landmark/"@ + seq![marker] + ".txt"@,
        atlas::landmark_text(marks, marker),
    )
}

proof fn landmarks_hold(marks: Seq<Landmark>, n: nat, t: TreeItemView)
    requires
        n <= marks.len(),
    ensures
        tree::landmark_items(marks, n).contains(t) <==> exists|k: int|
            0 <= k < n && is_landmark_page(marks, (#[trigger] marks[k]).marker, t),
    decreases n,
{
    if n > 0 {
        let m = (n - 1) as nat;
        let c = marks[n - 1].marker;
        let before = tree::landmark_items(marks, m);
        landmarks_hold(marks, m, t);
        assert(seq![c][0] == c);
        assert(text::alnum(c) <==> plain_name(seq![c]));
        let one = seq![
            text_at("landmark/"@ + seq![c] + ".txt"@, atlas::landmark_text(marks, c)),
        ];
        if text::alnum(c) {
            assert(tree::landmark_items(marks, n) =~= before + one);
            both_hold(before, one, t);
            assert(one.contains(t) <==> t == one[0]);
        }
        if exists|k: int| 0 <= k < m && is_landmark_page(marks, (#[trigger] marks[k]).marker, t) {
            let k = choose|k: int|
                0 <= k < m && is_landmark_page(marks, (#[trigger] marks[k]).marker, t);
            assert(0 <= k < n && is_landmark_page(marks, marks[k].marker, t));
        }
        if exists|k: int| 0 <= k < n && is_landmark_page(marks, (#[trigger] marks[k]).marker, t) {
            let k = choose|k: int|
                0 <= k < n && is_landmark_page(marks, (#[trigger] marks[k]).marker, t);
            if k < m {
                assert(0 <= k < m && is_landmark_page(marks, marks[k].marker, t));
            }
        }
    } else {
        assert(!tree::landmark_items(marks, n).contains(t));
    }
}

proof fn pages_hold(s: SnapshotView, t: TreeItemView)
    ensures
        tree::page_items(s).contains(t) <==> is_page(s, t),
        tree::page_items(s).len() == 13,
{
    let p = tree::page_items(s);
    assert(p.len() == 13);
    if is_page(s, t) {
        assert(t == p[0] || t == p[1] || t == p[2] || t == p[3] || t == p[4] || t == p[5] || t
            == p[6] || t == p[7] || t == p[8] || t == p[9] || t == p[10] || t == p[11] || t
            == p[12]);
    }
    if p.contains(t) {
        let k = choose|k: int| 0 <= k < p.len() && p[k] == t;
        assert(k == 0 || k == 1 || k == 2 || k == 3 || k == 4 || k == 5 || k == 6 || k == 7 || k
            == 8 || k == 9 || k == 10 || k == 11 || k == 12);
    }
}

/// A tree holds each of its pages at its own path, the menu of each line of the board
/// in that line's directory, the page of each train whose run number can be the name
/// of a file, the landmarks and their pages, the files that are passed on as they are,
/// and nothing else.
pub proof fn law_tree_holds_what_belongs_there(s: SnapshotView, t: TreeItemView)
    ensures
        tree::tree_of(s).contains(t) <==> belongs(s, t),
{
    let marks = s.overlay.landmarks@;
    let a = tree::top_items(s);
    let b = tree::page_items(s);
    let c = tree::line_items(s.pos, 8);
    let d = tree::train_items(s.pos, s.pos.trains);
    let e = seq![
        TreeItemView::Dir("landmarks"@),
        text_at("landmarks/index.gph"@, gph::gph_text(atlas::landmark_entries(marks))),
        TreeItemView::Dir("landmark"@),
    ];
    let f = tree::landmark_items(marks, marks.len());
    let dir = seq![TreeItemView::Dir("train"@)];
    let abc = (a + b + c).push(TreeItemView::Dir("train"@));
    assert(abc =~= (a + b + c) + dir);
    both_hold(a, b, t);
    both_hold(a + b, c, t);
    both_hold(a + b + c, dir, t);
    both_hold(abc, d, t);
    both_hold(abc + d, e, t);
    both_hold(abc + d + e, f, t);
    assert(tree::tree_of(s) == abc + d + e + f);
    pages_hold(s, t);
    lines_hold(s, 8, t);
    trains_hold(s.pos, s.pos.trains, t);
    landmarks_hold(marks, marks.len(), t);
    let index = text_at(
        "index.gph"@,
        gph::gph_text(render::root_entries(s.pos, s.src_archive is Some, s.phlog)),
    );
    assert(a[0] == index);
    if s.src_archive is Some {
        assert(a[1] == (TreeItemView::Bytes { path: "src.tar.gz"@, body: s.src_archive->0 }));
        assert(a.len() == 2);
        assert(a.contains(t) <==> t == a[0] || t == a[1]);
    } else {
        assert(a.len() == 1);
        assert(a.contains(t) <==> t == a[0]);
    }
    assert(dir.contains(t) <==> t == dir[0]) by {
        assert(dir[0] == TreeItemView::Dir("train"@));
    }
    assert(e.contains(t) <==> t == e[0] || t == e[1] || t == e[2]) by {
        assert(e.len() == 3);
    }
    assert((exists|k: int|
        0 <= k < s.pos.trains.len() && is_train_page(
            s.pos,
            (#[trigger] s.pos.trains[k]).run,
            t,
        )) <==> (exists|k: int|
        0 <= k < s.pos.trains.len() && plain_name((#[trigger] s.pos.trains[k]).run) && t == text_at(
            "train/"@ + s.pos.trains[k].run + ".txt"@,
            render::train_page_text(s.pos, s.pos.trains[k].run),
        )));
    assert((exists|k: int|
        0 <= k < marks.len() && is_landmark_page(marks, (#[trigger] marks[k]).marker, t)) <==> (
    exists|k: int|
        0 <= k < marks.len() && plain_name(seq![(#[trigger] marks[k]).marker]) && t == text_at(
            "landmark/"@ + seq![marks[k].marker] + ".txt"@,
            atlas::landmark_text(marks, marks[k].marker),
        )));
}

/// For every line of the board the file in that line's directory holds the line's own
/// menu: headed by the line's name, with one link for each train of the snapshot that
/// runs on the line, to that train's page, and no other link.
pub proof fn law_each_line_has_its_own_menu(s: SnapshotView, key: Seq<char>)
    requires
        transit::line_keys().contains(key),
    ensures
        exists|menu: Seq<EntryView>|
            {
                &&& tree::tree_of(s).contains(
                    text_at(key + "/index.gph"@, #[trigger] gph::gph_text(menu)),
                )
                &&& menu[0] == EntryView::Info(render::label_of(key) + " Line -- live trains"@)
                &&& count(menu, |e: EntryView| e is Link) == menus::running(s.pos.trains, key)
                &&& forall|run: Seq<char>|
                    menus::leads(menu, ItemKind::Text, #[trigger] ("/train/"@ + run + ".txt"@))
                        <==> menus::runs_there(s.pos.trains, key, run)
            },
{
    let menu = render::line_entries(s.pos, key);
    let t = text_at(key + "/index.gph"@, gph::gph_text(menu));
    let i = choose|i: int| 0 <= i < transit::line_keys().len() && transit::line_keys()[i] == key;
    assert(is_of_line(s, t, transit::line_keys()[i]));
    law_tree_holds_what_belongs_there(s, t);
    menus::law_line_menu_is_headed(s.pos, key);
    menus::law_line_menu_links_its_trains(s.pos, key, key, 0, 0);
    assert forall|run: Seq<char>|
        menus::leads(menu, ItemKind::Text, #[trigger] ("/train/"@ + run + ".txt"@))
            <==> menus::runs_there(s.pos.trains, key, run) by {
        menus::law_line_menu_links_its_trains(s.pos, key, run, 0, 0);
    }
}

/// Every train of a line of the board can be reached: the line's menu, which stands in
/// the tree and is linked from the root, links the train's page, which is the page of
/// the first train with its run number.
pub proof fn law_every_train_can_be_reached(s: SnapshotView, k: int)
    requires
        0 <= k < s.pos.trains.len(),
        transit::line_keys().contains(s.pos.trains[k].line),
        plain_name(s.pos.trains[k].run),
    ensures
        ({
            let t = s.pos.trains[k];
            let menu = render::line_entries(s.pos, t.line);
            let root = render::root_entries(s.pos, s.src_archive is Some, s.phlog);
            &&& tree::tree_of(s).contains(text_at("index.gph"@, gph::gph_text(root)))
            &&& menus::leads(root, ItemKind::Menu, "/"@ + t.line)
            &&& tree::tree_of(s).contains(text_at(t.line + "/index.gph"@, gph::gph_text(menu)))
            &&& menus::leads(menu, ItemKind::Text, "/train/"@ + t.run + ".txt"@)
            &&& tree::tree_of(s).contains(
                text_at("train/"@ + t.run + ".txt"@, render::train_page_text(s.pos, t.run)),
            )
        }),
{
    let t = s.pos.trains[k];
    let root = render::root_entries(s.pos, s.src_archive is Some, s.phlog);
    let menu = render::line_entries(s.pos, t.line);
    let i = choose|i: int| 0 <= i < transit::line_keys().len() && transit::line_keys()[i] == t.line;
    let own = text_at(t.line + "/index.gph"@, gph::gph_text(menu));
    assert(is_of_line(s, own, transit::line_keys()[i]));
    law_tree_holds_what_belongs_there(s, own);
    law_tree_holds_what_belongs_there(s, text_at("index.gph"@, gph::gph_text(root)));
    law_tree_holds_what_belongs_there(
        s,
        text_at("train/"@ + t.run + ".txt"@, render::train_page_text(s.pos, t.run)),
    );
    menus::law_root_counts_each_line(s.pos, s.src_archive is Some, s.phlog, t.line);
    assert(menus::runs_there(s.pos.trains, t.line, t.run));
    menus::law_line_menu_links_its_trains(s.pos, t.line, t.run, 0, 0);
}

/// A directory is made before the files in it.
pub proof fn law_directories_come_first(s: SnapshotView, i: int)
    requires
        0 <= i < 8,
    ensures
        ({
            let all = tree::tree_of(s);
            let key = transit::line_keys()[i];
            let top: int = if s.src_archive is Some {
                15
            } else {
                14
            };
            let trains = tree::train_items(s.pos, s.pos.trains).len() as int;
            &&& all[top + 2 * i] == TreeItemView::Dir(key)
            &&& all[top + 2 * i + 1] == text_at(
                key + "/index.gph"@,
                gph::gph_text(render::line_entries(s.pos, key)),
            )
            &&& all[top + 16] == TreeItemView::Dir("train"@)
            &&& all[top + 17 + trains] == TreeItemView::Dir("landmarks"@)
            &&& all[top + 19 + trains] == TreeItemView::Dir("landmark"@)
        }),
{
    line_at(s.pos, 8, i);
    pages_hold(s, TreeItemView::Dir("train"@));
    let c = tree::line_items(s.pos, 8);
    let all = tree::tree_of(s);
    let top: int = if s.src_archive is Some {
        15
    } else {
        14
    };
    assert(all[top + 2 * i] == c[2 * i]);
    assert(all[top + 2 * i + 1] == c[2 * i + 1]);
}

proof fn line_at(pos: PositionsView, n: nat, i: int)
    requires
        0 <= i < n <= 8,
    ensures
        tree::line_items(pos, n).len() == 2 * n,
        tree::line_items(pos, n)[2 * i] == TreeItemView::Dir(transit::line_keys()[i]),
        tree::line_items(pos, n)[2 * i + 1] == text_at(
            transit::line_keys()[i] + "/index.gph"@,
            gph::gph_text(render::line_entries(pos, transit::line_keys()[i])),
        ),
    decreases n,
{
    if i < n - 1 {
        line_at(pos, (n - 1) as nat, i);
    } else if n > 1 {
        line_at(pos, (n - 1) as nat, 0);
    } else {
        reveal_with_fuel(tree::line_items, 2);
    }
}

/// The landmarks menu lists every landmark of the overlay, in order and under its
/// name, with a link to the page of its marker, and nothing else.
pub proof fn law_landmarks_menu_lists_every_landmark(marks: Seq<Landmark>, k: int)
    requires
        0 <= k < marks.len(),
    ensures
        ({
            let menu = atlas::landmark_entries(marks);
            &&& menu.len() == marks.len() + 4
            &&& menus::is_link(
                menu[4 + k],
                ItemKind::Text,
                "/landmark/"@ + seq![marks[k].marker] + ".txt"@,
            )
            &&& menus::display_of(menu[4 + k]) == seq![marks[k].marker] + "  "@ + marks[k].name@
                + " ("@ + marks[k].category@ + ")"@
            &&& count(menu, |e: EntryView| e is Link) == marks.len()
        }),
{
    let menu = atlas::landmark_entries(marks);
    assert(menu[4 + k] == atlas::landmark_entry(marks[k]));
    landmark_links(marks);
}

proof fn landmark_links(marks: Seq<Landmark>)
    ensures
        count(atlas::landmark_entries(marks), |e: EntryView| e is Link) == marks.len(),
    decreases marks.len(),
{
    let menu = atlas::landmark_entries(marks);
    if marks.len() == 0 {
        reveal_with_fuel(count, 5);
        assert(menu.len() == 4);
    } else {
        let front = marks.drop_last();
        landmark_links(front);
        assert(menu.drop_last() =~= atlas::landmark_entries(front));
        assert(menu.last() == atlas::landmark_entry(marks.last()));
    }
}

} // verus!
