//! The navigable gopher tree of one snapshot, as a list of what to write:
//!
//! ```text
//!   index.gph            root menu (map link + one entry per line)
//!   src.tar.gz           source tarball, where there is one
//!   map.txt  map.ansi    braille map, plain and coloured
//!   atlas.txt atlas.ansi char-cell geographic atlas, plain and coloured
//!   dispatch.txt         AI dispatch summary + live feed stats
//!   sitrep.txt           AI SITREP (alerts summary) for the home station
//!   events.txt           AI event advisory
//!   about.txt faq.txt help.txt
//!   dig.txt              hidden page: written but linked from no menu
//!   caps.txt robots.txt  policy files, verbatim
//!   <line>/index.gph     per-line menu, each train a drill-down link
//!   train/<run>.txt      per-train detail page
//!   landmarks/index.gph  menu of Chicago landmarks
//!   landmark/<X>.txt     per-landmark detail page (keyed by marker letter)
//! ```

use crate::atlas;
use crate::atlas::{Atlas, GeoData, Landmark};
use crate::gph;
use crate::narration;
use crate::narration::NarrationView;
use crate::pages;
use crate::project::Geometry;
use crate::render;
use crate::render::{EntryView, ItemKind};
use crate::text;
use crate::trainmap;
use crate::trainmap::MapBase;
use crate::transit;
use crate::transit::{Positions, PositionsView, TrainView};
use vstd::prelude::*;
use vstd::string::StringExecFns;

verus! {

/// One thing to write, at a path below the snapshot directory.
#[derive(Debug, Clone)]
pub enum TreeItem {
    /// A directory, created where it is missing.
    Dir(String),
    Text { path: String, body: String },
    Bytes { path: String, body: Vec<u8> },
}

/// What a [`TreeItem`] holds.
pub enum TreeItemView {
    Dir(Seq<char>),
    Text { path: Seq<char>, body: Seq<char> },
    Bytes { path: Seq<char>, body: Seq<u8> },
}

impl View for TreeItem {
    type V = TreeItemView;

    open spec fn view(&self) -> TreeItemView {
        match *self {
            TreeItem::Dir(p) => TreeItemView::Dir(p@),
            TreeItem::Text { path, body } => TreeItemView::Text { path: path@, body: body@ },
            TreeItem::Bytes { path, body } => TreeItemView::Bytes { path: path@, body: body@ },
        }
    }
}

/// What each item of a list holds.
pub open spec fn item_views(v: Seq<TreeItem>) -> Seq<TreeItemView> {
    v.map_values(|t: TreeItem| t@)
}

/// Files that are written as they are.
pub struct StaticFiles {
    /// Policy file for clients.
    pub caps: Vec<u8>,
    /// Policy file for crawlers.
    pub robots: Vec<u8>,
    /// The source tarball, where one is at hand.
    pub src_archive: Option<Vec<u8>>,
}

/// A text file.
pub open spec fn text_file(path: Seq<char>, body: Seq<char>) -> TreeItemView {
    TreeItemView::Text { path, body }
}

/// A file of bytes.
pub open spec fn byte_file(path: Seq<char>, body: Seq<u8>) -> TreeItemView {
    TreeItemView::Bytes { path, body }
}

fn add_text(tree: &mut Vec<TreeItem>, path: &str, body: String)
    ensures
        item_views(final(tree)@) == item_views(old(tree)@).push(text_file(path@, body@)),
{
    tree.push(TreeItem::Text { path: path.to_owned(), body });
    assert(item_views(tree@) =~= item_views(old(tree)@).push(text_file(path@, body@)));
}

fn add_bytes(tree: &mut Vec<TreeItem>, path: &str, body: &Vec<u8>)
    ensures
        item_views(final(tree)@) == item_views(old(tree)@).push(byte_file(path@, body@)),
{
    let copy = body.clone();
    assert(copy@ =~= body@);
    tree.push(TreeItem::Bytes { path: path.to_owned(), body: copy });
    assert(item_views(tree@) =~= item_views(old(tree)@).push(byte_file(path@, body@)));
}

fn add_dir(tree: &mut Vec<TreeItem>, path: &str)
    ensures
        item_views(final(tree)@) == item_views(old(tree)@).push(TreeItemView::Dir(path@)),
{
    tree.push(TreeItem::Dir(path.to_owned()));
    assert(item_views(tree@) =~= item_views(old(tree)@).push(TreeItemView::Dir(path@)));
}

/// Everything that a tree is made of.
pub struct Snapshot<'a> {
    pub pos: &'a Positions,
    pub geo: &'a Geometry,
    pub atlas: &'a Atlas,
    pub map_base: &'a MapBase,
    pub narration: &'a NarrationView,
    /// The time by which the narrative panels are aged, in epoch seconds.
    pub now: i64,
    pub source_name: &'a str,
    pub files: &'a StaticFiles,
    pub phlog: Option<(&'a str, u16)>,
}

/// What the parts of a tree hold.
pub struct SnapshotView {
    pub pos: PositionsView,
    pub geo: Geometry,
    pub overlay: GeoData,
    pub geom: Geometry,
    pub map_base: MapBase,
    pub narration: NarrationView,
    pub now: i64,
    pub source_name: Seq<char>,
    pub caps: Seq<u8>,
    pub robots: Seq<u8>,
    pub src_archive: Option<Seq<u8>>,
    pub phlog: Option<(Seq<char>, u16)>,
}

impl<'a> View for Snapshot<'a> {
    type V = SnapshotView;

    open spec fn view(&self) -> SnapshotView {
        SnapshotView {
            pos: self.pos@,
            geo: *self.geo,
            overlay: self.atlas.geo,
            geom: self.atlas.geom,
            map_base: *self.map_base,
            narration: *self.narration,
            now: self.now,
            source_name: self.source_name@,
            caps: self.files.caps@,
            robots: self.files.robots@,
            src_archive: match self.files.src_archive {
                Some(b) => Some(b@),
                None => None,
            },
            phlog: match self.phlog {
                Some((h, p)) => Some((h@, p)),
                None => None,
            },
        }
    }
}

/// The root menu of a tree: it lists the source tarball only where the tree has it.
pub open spec fn root_of(s: SnapshotView) -> Seq<EntryView> {
    render::root_entries(s.pos, s.src_archive is Some, s.phlog)
}

/// The top of a tree: the root menu, and the source tarball where there is one.
pub open spec fn top_items(s: SnapshotView) -> Seq<TreeItemView> {
    let index = text_file("index.gph"@, gph::gph_text(root_of(s)));
    match s.src_archive {
        Some(bytes) => seq![index, byte_file("src.tar.gz"@, bytes)],
        None => seq![index],
    }
}

/// The pages of a tree.
pub open spec fn page_items(s: SnapshotView) -> Seq<TreeItemView> {
    seq![
        text_file("map.txt"@, trainmap::map_text(s.pos, s.geo, s.source_name)),
        text_file(
            "map.ansi"@,
            trainmap::map_ansi_text(s.map_base, s.pos, s.geo, s.source_name),
        ),
        text_file(
            "atlas.txt"@,
            atlas::atlas_text(s.overlay, s.geom, s.pos, s.source_name, false),
        ),
        text_file(
            "atlas.ansi"@,
            atlas::atlas_text(s.overlay, s.geom, s.pos, s.source_name, true),
        ),
        text_file("dispatch.txt"@, narration::dispatch_text(s.narration, s.pos, s.now)),
        text_file("sitrep.txt"@, narration::sitrep_text(s.narration, s.now)),
        text_file("events.txt"@, narration::events_text(s.narration, s.now)),
        text_file(
            "about.txt"@,
            pages::about_text(Geometry { wc: 48, hc: 30, wp: 96, hp: 120 }),
        ),
        text_file("faq.txt"@, pages::faq_text()),
        text_file("help.txt"@, pages::help_text(Geometry { wc: 48, hc: 30, wp: 96, hp: 120 })),
        text_file("dig.txt"@, pages::dig_text()),
        byte_file("caps.txt"@, s.caps),
        byte_file("robots.txt"@, s.robots),
    ]
}

/// A line's directory and menu, for the first `n` lines of the board.
pub open spec fn line_items(pos: PositionsView, n: nat) -> Seq<TreeItemView>
    decreases n,
{
    if n == 0 {
        Seq::empty()
    } else {
        let key = transit::line_keys()[n - 1];
        line_items(pos, (n - 1) as nat).push(TreeItemView::Dir(key)).push(
            text_file(key + "/index.gph"@, gph::gph_text(render::line_entries(pos, key))),
        )
    }
}

/// The path of a train's detail page.
pub open spec fn train_file(run: Seq<char>) -> Seq<char> {
    "train/"@ + run + ".txt"@
}

/// A detail page for each train of `trains`, which are trains of the snapshot. A run
/// number that could lead out of the directory gets none.
pub open spec fn train_items(pos: PositionsView, trains: Seq<TrainView>) -> Seq<TreeItemView>
    decreases trains.len(),
{
    if trains.len() == 0 {
        Seq::empty()
    } else {
        let run = trains.last().run;
        let before = train_items(pos, trains.drop_last());
        if text::is_alnum(run) {
            before.push(text_file(train_file(run), render::train_page_text(pos, run)))
        } else {
            before
        }
    }
}

/// The path of a landmark's detail page.
pub open spec fn landmark_file(marker: char) -> Seq<char> {
    "landmark/"@ + seq![marker] + ".txt"@
}

/// A detail page for each of the first `n` landmarks whose marker is a letter or
/// digit.
pub open spec fn landmark_items(marks: Seq<Landmark>, n: nat) -> Seq<TreeItemView>
    decreases n,
{
    if n == 0 {
        Seq::empty()
    } else {
        let marker = marks[n - 1].marker;
        let before = landmark_items(marks, (n - 1) as nat);
        if text::alnum(marker) {
            before.push(text_file(landmark_file(marker), atlas::landmark_text(marks, marker)))
        } else {
            before
        }
    }
}

/// The whole tree of a snapshot, in the order of writing.
pub open spec fn tree_of(s: SnapshotView) -> Seq<TreeItemView> {
    let marks = s.overlay.landmarks@;
    (top_items(s) + page_items(s) + line_items(s.pos, 8)).push(TreeItemView::Dir("train"@))
        + train_items(s.pos, s.pos.trains) + seq![
        TreeItemView::Dir("landmarks"@),
        text_file("landmarks/index.gph"@, gph::gph_text(atlas::landmark_entries(marks))),
        TreeItemView::Dir("landmark"@),
    ] + landmark_items(marks, marks.len())
}

impl<'a> Snapshot<'a> {
    /// The parts fit together.
    pub open spec fn wf(self) -> bool {
        &&& self.geo.valid()
        &&& self.map_base.fits(*self.geo)
        &&& self.atlas.wf()
    }
}

/// The top of the tree and its pages.
fn write_pages(s: &Snapshot, tree: &mut Vec<TreeItem>)
    requires
        s.wf(),
        old(tree)@.len() == 0,
    ensures
        item_views(final(tree)@) == top_items(s@) + page_items(s@),
{
    assert(item_views(tree@) =~= Seq::<TreeItemView>::empty());
    let menu = render::root_menu(s.pos, s.files.src_archive.is_some(), s.phlog);
    add_text(tree, "index.gph", gph::render_menu_index(&menu));
    match &s.files.src_archive {
        Some(bytes) => {
            add_bytes(tree, "src.tar.gz", bytes);
        },
        None => {},
    }
    assert(item_views(tree@) =~= top_items(s@));
    add_text(tree, "map.txt", trainmap::map_page(s.pos, s.geo, s.source_name));
    add_text(
        tree,
        "map.ansi",
        trainmap::map_page_ansi(s.map_base, s.pos, s.geo, s.source_name),
    );
    add_text(tree, "atlas.txt", s.atlas.render(s.pos, s.source_name));
    add_text(tree, "atlas.ansi", s.atlas.render_ansi(s.pos, s.source_name));
    add_text(tree, "dispatch.txt", narration::dispatch_page(s.narration, s.pos, s.now));
    add_text(tree, "sitrep.txt", narration::sitrep_page(s.narration, s.now));
    add_text(tree, "events.txt", narration::events_page(s.narration, s.now));
    add_text(tree, "about.txt", pages::about_page());
    add_text(tree, "faq.txt", pages::faq_page());
    add_text(tree, "help.txt", pages::help_page());
    add_text(tree, "dig.txt", pages::dig_page());
    add_bytes(tree, "caps.txt", &s.files.caps);
    add_bytes(tree, "robots.txt", &s.files.robots);
    assert(item_views(tree@) =~= top_items(s@) + page_items(s@));
}

/// The lines' directories and menus.
fn write_lines(pos: &Positions, tree: &mut Vec<TreeItem>)
    ensures
        item_views(final(tree)@) == item_views(old(tree)@) + line_items(pos@, 8),
{
    let ghost before = item_views(tree@);
    let keys = render::line_order();
    let mut k: usize = 0;
    assert(before =~= before + line_items(pos@, 0));
    while k < 8
        invariant
            k <= 8,
            keys@.len() == 8,
            forall|i: int| 0 <= i < 8 ==> (#[trigger] keys@[i])@ == transit::line_keys()[i],
            item_views(tree@) == before + line_items(pos@, k as nat),
        decreases 8 - k,
    {
        let key = keys[k];
        add_dir(tree, key);
        let mut path = key.to_owned();
        path.append("/index.gph");
        let menu = render::line_menu(pos, key);
        add_text(tree, path.as_str(), gph::render_menu_index(&menu));
        k = k + 1;
        assert(item_views(tree@) =~= before + line_items(pos@, k as nat));
    }
}

/// The trains' detail pages.
fn write_trains(pos: &Positions, tree: &mut Vec<TreeItem>)
    ensures
        item_views(final(tree)@) == item_views(old(tree)@) + train_items(pos@, pos@.trains),
{
    let ghost before = item_views(tree@);
    let ghost all = pos@.trains;
    let mut k: usize = 0;
    assert(before =~= before + train_items(pos@, all.take(0)));
    while k < pos.trains.len()
        invariant
            k <= pos.trains@.len(),
            all == pos@.trains,
            item_views(tree@) == before + train_items(pos@, all.take(k as int)),
        decreases pos.trains@.len() - k,
    {
        let t = &pos.trains[k];
        proof {
            assert(all.take(k + 1).drop_last() =~= all.take(k as int));
            assert(all.take(k + 1).last() == t@);
        }
        if text::all_alnum(t.run.as_str()) {
            let mut path = "train/".to_owned();
            path.append(t.run.as_str());
            path.append(".txt");
            let page = render::train_page(pos, t.run.as_str());
            add_text(tree, path.as_str(), page);
        }
        k = k + 1;
        assert(item_views(tree@) =~= before + train_items(pos@, all.take(k as int)));
    }
    assert(all.take(k as int) =~= all);
}

/// The landmarks' detail pages.
fn write_landmarks(atlas: &Atlas, tree: &mut Vec<TreeItem>)
    ensures
        item_views(final(tree)@) == item_views(old(tree)@) + landmark_items(
            atlas.geo.landmarks@,
            atlas.geo.landmarks@.len(),
        ),
{
    let ghost before = item_views(tree@);
    let ghost marks = atlas.geo.landmarks@;
    let list = atlas.landmark_pages();
    let mut k: usize = 0;
    assert(before =~= before + landmark_items(marks, 0));
    while k < list.len()
        invariant
            k <= list@.len(),
            marks == atlas.geo.landmarks@,
            list@.len() == marks.len(),
            forall|i: int|
                0 <= i < list@.len() ==> (#[trigger] list@[i]).0 == marks[i].marker
                    && list@[i].1@ == atlas::landmark_text(marks, marks[i].marker),
            item_views(tree@) == before + landmark_items(marks, k as nat),
        decreases list@.len() - k,
    {
        let marker: char = list[k].0;
        if text::alnum_char(marker) {
            let mut path = "landmark/".to_owned();
            text::push_char(&mut path, marker);
            path.append(".txt");
            add_text(tree, path.as_str(), list[k].1.as_str().to_owned());
        }
        k = k + 1;
        assert(item_views(tree@) =~= before + landmark_items(marks, k as nat));
    }
}

/// The full navigable gopher tree for one snapshot, in the order of writing.
pub fn write_tree(s: &Snapshot) -> (r: Vec<TreeItem>)
    requires
        s.wf(),
    ensures
        item_views(r@) == tree_of(s@),
{
    let mut tree: Vec<TreeItem> = Vec::new();
    write_pages(s, &mut tree);
    write_lines(s.pos, &mut tree);
    add_dir(&mut tree, "train");
    write_trains(s.pos, &mut tree);
    let ghost upto = item_views(tree@);
    add_dir(&mut tree, "landmarks");
    let menu = s.atlas.landmarks_menu();
    add_text(&mut tree, "landmarks/index.gph", gph::render_menu_index(&menu));
    add_dir(&mut tree, "landmark");
    assert(item_views(tree@) =~= upto + seq![
        TreeItemView::Dir("landmarks"@),
        text_file(
            "landmarks/index.gph"@,
            gph::gph_text(atlas::landmark_entries(s.atlas.geo.landmarks@)),
        ),
        TreeItemView::Dir("landmark"@),
    ]);
    write_landmarks(s.atlas, &mut tree);
    tree
}

// ---------- laws of the tree ----------

/// Whether an item is a file at the given path.
pub open spec fn is_file_at(t: TreeItemView, path: Seq<char>) -> bool {
    match t {
        TreeItemView::Dir(_) => false,
        TreeItemView::Text { path: p, .. } => p == path,
        TreeItemView::Bytes { path: p, .. } => p == path,
    }
}

/// Whether a tree has a file at the given path.
pub open spec fn has_file(tree: Seq<TreeItemView>, path: Seq<char>) -> bool {
    exists|i: int| 0 <= i < tree.len() && is_file_at(#[trigger] tree[i], path)
}

/// The file that the daemon serves for a selector of this tree: the index of the
/// directory for a menu, else the file itself.
pub open spec fn served_path(kind: ItemKind, selector: Seq<char>) -> Seq<char> {
    if kind is Menu {
        selector.drop_first() + "/index.gph"@
    } else {
        selector.drop_first()
    }
}

/// Whether an entry does not dangle: where it links into this tree, the tree has
/// the file that is served for it.
pub open spec fn is_served(tree: Seq<TreeItemView>, e: EntryView) -> bool {
    e matches EntryView::Link { kind, display, selector, host, port } ==> host is None && !(
    kind is Url) ==> has_file(tree, served_path(kind, selector))
}

proof fn file_in_concat(a: Seq<TreeItemView>, b: Seq<TreeItemView>, path: Seq<char>)
    ensures
        has_file(a, path) ==> has_file(a + b, path),
        has_file(b, path) ==> has_file(a + b, path),
{
    if has_file(a, path) {
        let i = choose|i: int| 0 <= i < a.len() && is_file_at(#[trigger] a[i], path);
        assert((a + b)[i] == a[i]);
    }
    if has_file(b, path) {
        let i = choose|i: int| 0 <= i < b.len() && is_file_at(#[trigger] b[i], path);
        assert((a + b)[a.len() + i] == b[i]);
    }
}

/// A file of a part of the tree is a file of the tree.
proof fn file_in_tree(s: SnapshotView, path: Seq<char>)
    ensures
        has_file(top_items(s), path) ==> has_file(tree_of(s), path),
        has_file(page_items(s), path) ==> has_file(tree_of(s), path),
        has_file(line_items(s.pos, 8), path) ==> has_file(tree_of(s), path),
        has_file(train_items(s.pos, s.pos.trains), path) ==> has_file(tree_of(s), path),
        path == "landmarks/index.gph"@ ==> has_file(tree_of(s), path),
        has_file(landmark_items(s.overlay.landmarks@, s.overlay.landmarks@.len()), path)
            ==> has_file(tree_of(s), path),
{
    let marks = s.overlay.landmarks@;
    let a = top_items(s);
    let b = page_items(s);
    let c = line_items(s.pos, 8);
    let d = train_items(s.pos, s.pos.trains);
    let e = seq![
        TreeItemView::Dir("landmarks"@),
        text_file("landmarks/index.gph"@, gph::gph_text(atlas::landmark_entries(marks))),
        TreeItemView::Dir("landmark"@),
    ];
    let f = landmark_items(marks, marks.len());
    let dir = seq![TreeItemView::Dir("train"@)];
    let abc = (a + b + c).push(TreeItemView::Dir("train"@));
    assert(abc =~= (a + b + c) + dir);
    file_in_concat(a, b, path);
    file_in_concat(a + b, c, path);
    file_in_concat(a + b + c, dir, path);
    file_in_concat(abc, d, path);
    file_in_concat(abc + d, e, path);
    file_in_concat(abc + d + e, f, path);
    assert(is_file_at(e[1], "landmarks/index.gph"@));
}

proof fn page_is_there(s: SnapshotView, k: int, path: Seq<char>)
    requires
        0 <= k < page_items(s).len(),
        is_file_at(page_items(s)[k], path),
    ensures
        has_file(tree_of(s), path),
{
    assert(has_file(page_items(s), path));
    file_in_tree(s, path);
}

proof fn line_menu_is_there(pos: PositionsView, n: nat, k: int)
    requires
        0 <= k < n <= 8,
    ensures
        has_file(line_items(pos, n), transit::line_keys()[k] + "/index.gph"@),
    decreases n,
{
    let path = transit::line_keys()[k] + "/index.gph"@;
    let all = line_items(pos, n);
    let before = line_items(pos, (n - 1) as nat);
    let key = transit::line_keys()[n - 1];
    let last = text_file(key + "/index.gph"@, gph::gph_text(render::line_entries(pos, key)));
    assert(all =~= before + seq![TreeItemView::Dir(key), last]);
    if k == n - 1 {
        assert(is_file_at(all[all.len() - 1], path));
    } else {
        line_menu_is_there(pos, (n - 1) as nat, k);
        file_in_concat(before, seq![TreeItemView::Dir(key), last], path);
    }
}

/// Whether no entry of a menu dangles.
pub open spec fn all_served(tree: Seq<TreeItemView>, menu: Seq<EntryView>) -> bool {
    forall|i: int| 0 <= i < menu.len() ==> is_served(tree, #[trigger] menu[i])
}

proof fn served_concat(tree: Seq<TreeItemView>, a: Seq<EntryView>, b: Seq<EntryView>)
    requires
        all_served(tree, a),
        all_served(tree, b),
    ensures
        all_served(tree, a + b),
{
    assert forall|i: int| 0 <= i < (a + b).len() implies is_served(tree, #[trigger] (a + b)[i]) by {
        if i < a.len() {
            assert((a + b)[i] == a[i]);
        } else {
            assert((a + b)[i] == b[i - a.len()]);
        }
    }
}

proof fn head_is_served(s: SnapshotView)
    ensures
        all_served(tree_of(s), render::root_head()),
{
    let t = tree_of(s);
    reveal_strlit("/map.txt");
    reveal_strlit("map.txt");
    reveal_strlit("/atlas.txt");
    reveal_strlit("atlas.txt");
    reveal_strlit("/map.ansi");
    reveal_strlit("map.ansi");
    reveal_strlit("/atlas.ansi");
    reveal_strlit("atlas.ansi");
    reveal_strlit("/landmarks");
    reveal_strlit("/index.gph");
    reveal_strlit("landmarks/index.gph");
    reveal_strlit("/dispatch.txt");
    reveal_strlit("dispatch.txt");
    reveal_strlit("/sitrep.txt");
    reveal_strlit("sitrep.txt");
    reveal_strlit("/events.txt");
    reveal_strlit("events.txt");
    assert("/map.txt"@.drop_first() =~= "map.txt"@);
    assert("/atlas.txt"@.drop_first() =~= "atlas.txt"@);
    assert("/map.ansi"@.drop_first() =~= "map.ansi"@);
    assert("/atlas.ansi"@.drop_first() =~= "atlas.ansi"@);
    assert("/landmarks"@.drop_first() + "/index.gph"@ =~= "landmarks/index.gph"@);
    assert("/dispatch.txt"@.drop_first() =~= "dispatch.txt"@);
    assert("/sitrep.txt"@.drop_first() =~= "sitrep.txt"@);
    assert("/events.txt"@.drop_first() =~= "events.txt"@);
    page_is_there(s, 0, "map.txt"@);
    page_is_there(s, 1, "map.ansi"@);
    page_is_there(s, 2, "atlas.txt"@);
    page_is_there(s, 3, "atlas.ansi"@);
    page_is_there(s, 4, "dispatch.txt"@);
    page_is_there(s, 5, "sitrep.txt"@);
    page_is_there(s, 6, "events.txt"@);
    file_in_tree(s, "landmarks/index.gph"@);
    let h = render::root_head();
    assert forall|i: int| 0 <= i < h.len() implies is_served(t, #[trigger] h[i]) by {
        assert(h.len() == 15);
        assert(i == 0 || i == 1 || i == 2 || i == 3 || i == 4 || i == 5 || i == 6 || i == 7 || i
            == 8 || i == 9 || i == 10 || i == 11 || i == 12 || i == 13 || i == 14);
    }
}

proof fn lines_are_served(s: SnapshotView)
    ensures
        all_served(tree_of(s), render::root_lines(s.pos.trains)),
{
    let t = tree_of(s);
    let rows = render::root_lines(s.pos.trains);
    reveal_strlit("/");
    assert forall|i: int| 0 <= i < rows.len() implies is_served(t, #[trigger] rows[i]) by {
        let key = transit::line_keys()[i];
        assert(rows[i] == render::line_entry(s.pos.trains, key));
        assert(render::line_path(key).drop_first() =~= key);
        line_menu_is_there(s.pos, 8, i);
        file_in_tree(s, key + "/index.gph"@);
    }
}

/// The root menu does not dangle: every link of it into this tree leads to a file
/// of the tree, and the source tarball is linked only where the tree has it.
pub proof fn law_root_menu_does_not_dangle(s: SnapshotView)
    ensures
        all_served(tree_of(s), root_of(s)),
{
    let t = tree_of(s);
    reveal_strlit("/about.txt");
    reveal_strlit("about.txt");
    reveal_strlit("/faq.txt");
    reveal_strlit("faq.txt");
    reveal_strlit("/help.txt");
    reveal_strlit("help.txt");
    reveal_strlit("/src.tar.gz");
    reveal_strlit("src.tar.gz");
    assert("/about.txt"@.drop_first() =~= "about.txt"@);
    assert("/faq.txt"@.drop_first() =~= "faq.txt"@);
    assert("/help.txt"@.drop_first() =~= "help.txt"@);
    assert("/src.tar.gz"@.drop_first() =~= "src.tar.gz"@);
    page_is_there(s, 7, "about.txt"@);
    page_is_there(s, 8, "faq.txt"@);
    page_is_there(s, 9, "help.txt"@);
    head_is_served(s);
    lines_are_served(s);
    served_concat(t, render::root_head(), render::root_lines(s.pos.trains));
    if s.src_archive is Some {
        assert(is_file_at(top_items(s)[1], "src.tar.gz"@));
        file_in_tree(s, "src.tar.gz"@);
    }
    assert(all_served(t, render::root_upto_help(s.pos)));
    assert(all_served(t, render::root_upto_links(s.pos, s.src_archive is Some)));
    let upto = render::root_upto_links(s.pos, s.src_archive is Some);
    let front = match s.phlog {
        Some((host, port)) => upto.push(render::phlog_entry(host, port)),
        None => upto,
    };
    assert(all_served(t, front));
    assert(all_served(t, render::root_tail(s.pos)));
    served_concat(t, front, render::root_tail(s.pos));
}

proof fn train_page_is_there(pos: PositionsView, trains: Seq<TrainView>, k: int)
    requires
        0 <= k < trains.len(),
        text::is_alnum(trains[k].run),
    ensures
        has_file(train_items(pos, trains), train_file(trains[k].run)),
    decreases trains.len(),
{
    let rest = trains.drop_last();
    let path = train_file(trains[k].run);
    let all = train_items(pos, trains);
    if k == trains.len() - 1 {
        assert(trains.last() == trains[k]);
        assert(is_file_at(all[all.len() - 1], path));
    } else {
        assert(rest[k] == trains[k]);
        train_page_is_there(pos, rest, k);
        let before = train_items(pos, rest);
        if text::is_alnum(trains.last().run) {
            let last = text_file(
                train_file(trains.last().run),
                render::train_page_text(pos, trains.last().run),
            );
            assert(all =~= before + seq![last]);
            file_in_concat(before, seq![last], path);
        }
    }
}

/// A train's link in its line's menu leads to its page, where its run number is made
/// of letters and digits; and the page is that of a train, not the notice that the
/// run is gone.
pub proof fn law_train_links_do_not_dangle(s: SnapshotView, k: int)
    requires
        0 <= k < s.pos.trains.len(),
        text::is_alnum(s.pos.trains[k].run),
    ensures
        is_served(tree_of(s), render::row_entry(s.pos.trains[k])),
        render::first_with_run(s.pos.trains, s.pos.trains[k].run) is Some,
{
    let run = s.pos.trains[k].run;
    reveal_strlit("/train/");
    reveal_strlit("train/");
    train_page_is_there(s.pos, s.pos.trains, k);
    file_in_tree(s, train_file(run));
    assert(render::train_path(run).drop_first() =~= train_file(run));
    found_run(s.pos.trains, k);
}

proof fn found_run(trains: Seq<TrainView>, k: int)
    requires
        0 <= k < trains.len(),
    ensures
        render::first_with_run(trains, trains[k].run) is Some,
    decreases trains.len(),
{
    if trains[0].run != trains[k].run {
        assert(trains.drop_first()[k - 1] == trains[k]);
        found_run(trains.drop_first(), k - 1);
    }
}

proof fn landmark_page_is_there(marks: Seq<Landmark>, n: nat, k: int)
    requires
        0 <= k < n <= marks.len(),
        text::alnum(marks[k].marker),
    ensures
        has_file(landmark_items(marks, n), landmark_file(marks[k].marker)),
    decreases n,
{
    let path = landmark_file(marks[k].marker);
    let all = landmark_items(marks, n);
    let before = landmark_items(marks, (n - 1) as nat);
    if k == n - 1 {
        assert(is_file_at(all[all.len() - 1], path));
    } else {
        landmark_page_is_there(marks, (n - 1) as nat, k);
        let m = marks[n - 1].marker;
        if text::alnum(m) {
            let last = text_file(landmark_file(m), atlas::landmark_text(marks, m));
            assert(all =~= before + seq![last]);
            file_in_concat(before, seq![last], path);
        }
    }
}

/// A landmark's link in the landmarks menu leads to its page, where its marker is a
/// letter or digit.
pub proof fn law_landmark_links_do_not_dangle(s: SnapshotView, k: int)
    requires
        0 <= k < s.overlay.landmarks@.len(),
        text::alnum(s.overlay.landmarks@[k].marker),
    ensures
        is_served(tree_of(s), atlas::landmark_entry(s.overlay.landmarks@[k])),
{
    let marks = s.overlay.landmarks@;
    let m = marks[k].marker;
    reveal_strlit("/landmark/");
    reveal_strlit("landmark/");
    landmark_page_is_there(marks, marks.len(), k);
    file_in_tree(s, landmark_file(m));
    assert(atlas::landmark_path(m).drop_first() =~= landmark_file(m));
}

/// Whether no entry of a menu links to the given selector.
pub open spec fn none_links_to(menu: Seq<EntryView>, selector: Seq<char>) -> bool {
    forall|i: int| 0 <= i < menu.len() ==> !render::links_to(#[trigger] menu[i], selector)
}

proof fn none_links_concat(a: Seq<EntryView>, b: Seq<EntryView>, selector: Seq<char>)
    requires
        none_links_to(a, selector),
        none_links_to(b, selector),
    ensures
        none_links_to(a + b, selector),
{
    assert forall|i: int| 0 <= i < (a + b).len() implies !render::links_to(
        #[trigger] (a + b)[i],
        selector,
    ) by {
        if i < a.len() {
            assert((a + b)[i] == a[i]);
        } else {
            assert((a + b)[i] == b[i - a.len()]);
        }
    }
}

proof fn head_hides_dig()
    ensures
        none_links_to(render::root_head(), "/dig.txt"@),
{
    reveal_strlit("/dig.txt");
    reveal_strlit("/map.txt");
    reveal_strlit("/atlas.txt");
    reveal_strlit("/map.ansi");
    reveal_strlit("/atlas.ansi");
    reveal_strlit("/landmarks");
    reveal_strlit("/dispatch.txt");
    reveal_strlit("/sitrep.txt");
    reveal_strlit("/events.txt");
    let dig = "/dig.txt"@;
    assert(dig.len() == 8 && dig[1] == 'd');
    assert("/map.txt"@[1] == 'm');
    let h = render::root_head();
    assert forall|i: int| 0 <= i < h.len() implies !render::links_to(#[trigger] h[i], dig) by {
        assert(i == 0 || i == 1 || i == 2 || i == 3 || i == 4 || i == 5 || i == 6 || i == 7 || i
            == 8 || i == 9 || i == 10 || i == 11 || i == 12 || i == 13 || i == 14);
    }
}

proof fn lines_hide_dig(trains: Seq<TrainView>)
    ensures
        none_links_to(render::root_lines(trains), "/dig.txt"@),
{
    reveal_strlit("/dig.txt");
    reveal_strlit("/");
    reveal_strlit("red");
    reveal_strlit("blue");
    reveal_strlit("brn");
    reveal_strlit("g");
    reveal_strlit("org");
    reveal_strlit("p");
    reveal_strlit("pink");
    reveal_strlit("y");
    let rows = render::root_lines(trains);
    assert forall|i: int| 0 <= i < rows.len() implies !render::links_to(
        #[trigger] rows[i],
        "/dig.txt"@,
    ) by {
        let key = transit::line_keys()[i];
        assert(rows[i] == render::line_entry(trains, key));
        assert(key.len() <= 4);
        assert(render::line_path(key).len() <= 5);
    }
}

/// The hidden page is in every tree, and no menu of the tree links to it.
pub proof fn law_hidden_page_is_linked_from_no_menu(s: SnapshotView, line: Seq<char>)
    ensures
        has_file(tree_of(s), "dig.txt"@),
        none_links_to(root_of(s), "/dig.txt"@),
        none_links_to(render::line_entries(s.pos, line), "/dig.txt"@),
        none_links_to(atlas::landmark_entries(s.overlay.landmarks@), "/dig.txt"@),
{
    let dig = "/dig.txt"@;
    page_is_there(s, 10, "dig.txt"@);
    head_hides_dig();
    lines_hide_dig(s.pos.trains);
    none_links_concat(render::root_head(), render::root_lines(s.pos.trains), dig);
    reveal_strlit("/dig.txt");
    reveal_strlit("/about.txt");
    reveal_strlit("/faq.txt");
    reveal_strlit("/help.txt");
    reveal_strlit("/src.tar.gz");
    reveal_strlit("/");
    reveal_strlit("URL:https://github.com/felipedbene/gopher-cta");
    reveal_strlit("URL:https://tracker.debene.dev/");
    reveal_strlit("/train/");
    reveal_strlit("/landmark/");
    assert(dig[1] == 'd' && dig.len() == 8);
    assert("/faq.txt"@[1] == 'f');
    assert(none_links_to(render::root_upto_help(s.pos), dig));
    let upto = render::root_upto_links(s.pos, s.src_archive is Some);
    assert(none_links_to(upto, dig));
    let front = match s.phlog {
        Some((host, port)) => upto.push(render::phlog_entry(host, port)),
        None => upto,
    };
    assert(none_links_to(front, dig));
    none_links_concat(front, render::root_tail(s.pos), dig);
    let trains = render::by_run(render::on_line(s.pos.trains, line));
    let rows = trains.map_values(|t: TrainView| render::row_entry(t));
    assert forall|i: int| 0 <= i < rows.len() implies !render::links_to(#[trigger] rows[i], dig) by {
        let sel = render::train_path(trains[i].run);
        assert(rows[i] == render::row_entry(trains[i]));
        assert(sel[1] == 't');
    }
    let head = render::line_head(line).push(
        render::info_line(
            text::dec(trains.len()) + " train(s) running -- select one for details:"@,
        ),
    ).push(render::info_line(""@));
    assert(none_links_to(head, dig));
    none_links_concat(head, rows, dig);
    let marks = s.overlay.landmarks@;
    let links = marks.map_values(|m: Landmark| atlas::landmark_entry(m));
    assert forall|i: int| 0 <= i < links.len() implies !render::links_to(
        #[trigger] links[i],
        dig,
    ) by {
        let sel = atlas::landmark_path(marks[i].marker);
        assert(links[i] == atlas::landmark_entry(marks[i]));
        assert(sel[1] == 'l');
    }
    none_links_concat(
        seq![
            render::info_line("Chicago landmarks"@),
            render::info_line(text::filled('=', 40)),
            render::info_line("Marker letters key the /atlas.txt grid."@),
            render::info_line(""@),
        ],
        links,
        dig,
    );
}

/// The phlog link adds exactly one line to the root menu's file and changes no
/// other.
pub proof fn law_phlog_link_adds_one_line(
    pos: PositionsView,
    src_available: bool,
    host: Seq<char>,
    port: u16,
)
    ensures
        ({
            let with = gph::gph_lines(
                render::root_entries(pos, src_available, Some((host, port))),
            );
            let without = gph::gph_lines(render::root_entries(pos, src_available, None));
            let k = render::root_upto_links(pos, src_available).len() as int;
            with == without.insert(k, gph::gph_line(render::phlog_entry(host, port)))
        }),
{
    render::law_phlog_link_is_one_entry(pos, src_available, host, port);
    let a = render::root_entries(pos, src_available, None);
    let k = render::root_upto_links(pos, src_available).len() as int;
    assert(gph::gph_lines(a.insert(k, render::phlog_entry(host, port))) =~= gph::gph_lines(
        a,
    ).insert(k, gph::gph_line(render::phlog_entry(host, port))));
}

/// Whether an entry names an address of its own.
pub open spec fn names_host(e: EntryView) -> bool {
    e matches EntryView::Link { kind, display, selector, host, port } && (host is Some || port
        is Some)
}

/// Of all menus of a tree only the root's phlog link names an address.
pub proof fn law_only_the_phlog_link_names_an_address(s: SnapshotView, line: Seq<char>)
    ensures
        forall|i: int|
            0 <= i < root_of(s).len() && names_host(#[trigger] root_of(s)[i]) ==> (s.phlog matches
            Some((host, port)) && root_of(s)[i] == render::phlog_entry(host, port)),
        forall|i: int|
            0 <= i < render::line_entries(s.pos, line).len() ==> !names_host(
                #[trigger] render::line_entries(s.pos, line)[i],
            ),
        forall|i: int|
            0 <= i < atlas::landmark_entries(s.overlay.landmarks@).len() ==> !names_host(
                #[trigger] atlas::landmark_entries(s.overlay.landmarks@)[i],
            ),
{
    let h = render::root_head();
    assert forall|i: int| 0 <= i < h.len() implies !names_host(#[trigger] h[i]) by {
        assert(i == 0 || i == 1 || i == 2 || i == 3 || i == 4 || i == 5 || i == 6 || i == 7 || i
            == 8 || i == 9 || i == 10 || i == 11 || i == 12 || i == 13 || i == 14);
    }
    let rows = render::root_lines(s.pos.trains);
    assert forall|i: int| 0 <= i < rows.len() implies !names_host(#[trigger] rows[i]) by {
        assert(rows[i] == render::line_entry(s.pos.trains, transit::line_keys()[i]));
    }
    let both = h + rows;
    assert forall|i: int| 0 <= i < both.len() implies !names_host(#[trigger] both[i]) by {
        if i < h.len() {
            assert(both[i] == h[i]);
        } else {
            assert(both[i] == rows[i - h.len()]);
        }
    }
    let upto = render::root_upto_links(s.pos, s.src_archive is Some);
    assert forall|i: int| 0 <= i < upto.len() implies !names_host(#[trigger] upto[i]) by {
        if i < both.len() {
            assert(upto[i] == both[i]);
        }
    }
    let root = root_of(s);
    let tail = render::root_tail(s.pos);
    let n = upto.len() as int;
    assert forall|i: int| 0 <= i < root.len() && names_host(#[trigger] root[i]) implies (s.phlog
        matches Some((host, port)) && root[i] == render::phlog_entry(host, port)) by {
        if i < n {
            assert(root[i] == upto[i]);
        } else if s.phlog is None {
            assert(root[i] == tail[i - n]);
        } else if i > n {
            assert(root[i] == tail[i - n - 1]);
        }
    }
    let trains = render::by_run(render::on_line(s.pos.trains, line));
    let links = trains.map_values(|t: TrainView| render::row_entry(t));
    assert forall|i: int| 0 <= i < links.len() implies !names_host(#[trigger] links[i]) by {
        assert(links[i] == render::row_entry(trains[i]));
    }
    let menu = render::line_entries(s.pos, line);
    assert forall|i: int| 0 <= i < menu.len() implies !names_host(#[trigger] menu[i]) by {
        if trains.len() > 0 && 4 <= i < 4 + links.len() {
            assert(menu[i] == links[i - 4]);
        }
    }
    let marks = s.overlay.landmarks@;
    let places = marks.map_values(|m: Landmark| atlas::landmark_entry(m));
    let list = atlas::landmark_entries(marks);
    assert forall|i: int| 0 <= i < list.len() implies !names_host(#[trigger] list[i]) by {
        if i >= 4 {
            assert(list[i] == places[i - 4]);
            assert(places[i - 4] == atlas::landmark_entry(marks[i - 4]));
        }
    }
}

/// How many links a menu has.
pub open spec fn link_count(menu: Seq<EntryView>) -> nat
    decreases menu.len(),
{
    if menu.len() == 0 {
        0
    } else {
        link_count(menu.drop_last()) + (if menu.last() is Link {
            1nat
        } else {
            0nat
        })
    }
}

proof fn link_count_concat(a: Seq<EntryView>, b: Seq<EntryView>)
    ensures
        link_count(a + b) == link_count(a) + link_count(b),
    decreases b.len(),
{
    if b.len() == 0 {
        assert(a + b =~= a);
    } else {
        assert((a + b).drop_last() =~= a + b.drop_last());
        link_count_concat(a, b.drop_last());
    }
}

proof fn no_links(menu: Seq<EntryView>)
    requires
        forall|i: int| 0 <= i < menu.len() ==> (#[trigger] menu[i]) is Info,
    ensures
        link_count(menu) == 0,
    decreases menu.len(),
{
    if menu.len() > 0 {
        assert(menu.last() == menu[menu.len() - 1]);
        no_links(menu.drop_last());
    }
}

proof fn only_links(menu: Seq<EntryView>)
    requires
        forall|i: int| 0 <= i < menu.len() ==> (#[trigger] menu[i]) is Link,
    ensures
        link_count(menu) == menu.len(),
    decreases menu.len(),
{
    if menu.len() > 0 {
        assert(menu.last() == menu[menu.len() - 1]);
        only_links(menu.drop_last());
    }
}

/// A line's menu lists as many trains as the root menu counts on the line.
pub proof fn law_counts_agree(pos: PositionsView, line: Seq<char>)
    ensures
        link_count(render::line_entries(pos, line)) == render::on_line(pos.trains, line).len(),
{
    let running = render::on_line(pos.trains, line);
    let trains = render::by_run(running);
    render::law_listing_keeps_every_train(running, line);
    let menu = render::line_entries(pos, line);
    if trains.len() > 0 {
        let rows = trains.map_values(|t: TrainView| render::row_entry(t));
        let head = menu.take(4);
        let tail = menu.skip(4 + rows.len() as int);
        assert(menu =~= head + rows + tail);
        assert forall|i: int| 0 <= i < rows.len() implies (#[trigger] rows[i]) is Link by {
            assert(rows[i] == render::row_entry(trains[i]));
        }
        no_links(head);
        only_links(rows);
        no_links(tail);
        link_count_concat(head, rows);
        link_count_concat(head + rows, tail);
    } else {
        no_links(menu);
    }
}

} // verus!
