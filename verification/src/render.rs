//! Pure rendering: parsed feed data in -> text / menu structures out.
//!
//! No sockets, no gopher protocol bytes, no daemon-specific formatting. Text pages
//! come out as plain `String`s; menus come out as a daemon-agnostic list of
//! [`Entry`]. Turning entries into a specific daemon's index format happens in
//! [`crate::gph`].
//!
//! Selectors are the gopher selectors as served from the tree root:
//!   /map.txt            the braille map (text)
//!   /about.txt          about page (text)
//!   /faq.txt /help.txt  FAQ + troubleshooting (text)
//!   /dig.txt            hidden easter egg (in the tree, linked from no menu)
//!   /<line>             per-line menu (a directory)
//!   /train/<run>.txt    per-train detail (text)

pub use crate::trainmap::{map_page, map_page_ansi, MapBase};
pub use crate::pages::{about_page, dig_page, faq_page, help_page};
use crate::project;
use crate::text;
use crate::transit;
use crate::transit::{Positions, PositionsView, Train, TrainView};
use vstd::prelude::*;
use vstd::string::StringExecFns;

verus! {

// ---------- lines ----------

/// Display name for a route key; a key of no known line stands for itself.
pub open spec fn label_of(key: Seq<char>) -> Seq<char> {
    if key == "red"@ {
        "Red"@
    } else if key == "blue"@ {
        "Blue"@
    } else if key == "brn"@ {
        "Brown"@
    } else if key == "g"@ {
        "Green"@
    } else if key == "org"@ {
        "Orange"@
    } else if key == "p"@ || key == "pexp"@ {
        "Purple"@
    } else if key == "pink"@ {
        "Pink"@
    } else if key == "y"@ {
        "Yellow"@
    } else {
        key
    }
}

/// Pretty display name for a route key.
pub fn line_label<'a>(key: &'a str) -> (r: &'a str)
    ensures
        r@ == label_of(key@),
{
    if text::text_eq(key, "red") {
        "Red"
    } else if text::text_eq(key, "blue") {
        "Blue"
    } else if text::text_eq(key, "brn") {
        "Brown"
    } else if text::text_eq(key, "g") {
        "Green"
    } else if text::text_eq(key, "org") {
        "Orange"
    } else if text::text_eq(key, "p") || text::text_eq(key, "pexp") {
        "Purple"
    } else if text::text_eq(key, "pink") {
        "Pink"
    } else if text::text_eq(key, "y") {
        "Yellow"
    } else {
        key
    }
}

/// CTA brand hex for a route key.
pub open spec fn hex_of(key: Seq<char>) -> Seq<char> {
    if key == "red"@ {
        "#c60c30"@
    } else if key == "blue"@ {
        "#00a1de"@
    } else if key == "brn"@ {
        "#62361b"@
    } else if key == "g"@ {
        "#009b3a"@
    } else if key == "org"@ {
        "#f9461c"@
    } else if key == "p"@ || key == "pexp"@ {
        "#522398"@
    } else if key == "pink"@ {
        "#e27ea6"@
    } else if key == "y"@ {
        "#f9e300"@
    } else {
        "#888888"@
    }
}

/// CTA brand hex for a line key, shown on the per-train detail page.
pub fn line_color(key: &str) -> (r: &'static str)
    ensures
        r@ == hex_of(key@),
{
    if text::text_eq(key, "red") {
        "#c60c30"
    } else if text::text_eq(key, "blue") {
        "#00a1de"
    } else if text::text_eq(key, "brn") {
        "#62361b"
    } else if text::text_eq(key, "g") {
        "#009b3a"
    } else if text::text_eq(key, "org") {
        "#f9461c"
    } else if text::text_eq(key, "p") || text::text_eq(key, "pexp") {
        "#522398"
    } else if text::text_eq(key, "pink") {
        "#e27ea6"
    } else if text::text_eq(key, "y") {
        "#f9e300"
    } else {
        "#888888"
    }
}

/// ANSI 256-colour code for a route key.
pub open spec fn ansi_of(key: Seq<char>) -> u8 {
    if key == "red"@ {
        196
    } else if key == "blue"@ {
        39
    } else if key == "brn"@ {
        130
    } else if key == "g"@ {
        40
    } else if key == "org"@ {
        208
    } else if key == "p"@ || key == "pexp"@ {
        93
    } else if key == "pink"@ {
        213
    } else if key == "y"@ {
        226
    } else {
        244
    }
}

/// ANSI 256-colour code approximating each CTA line's brand colour, for the
/// colour (`.ansi`) map variants. `0` would mean "no colour", so every line maps
/// to a real code.
pub fn line_ansi256(key: &str) -> (r: u8)
    ensures
        r == ansi_of(key@),
        r != 0,
{
    if text::text_eq(key, "red") {
        196
    } else if text::text_eq(key, "blue") {
        39
    } else if text::text_eq(key, "brn") {
        130
    } else if text::text_eq(key, "g") {
        40
    } else if text::text_eq(key, "org") {
        208
    } else if text::text_eq(key, "p") || text::text_eq(key, "pexp") {
        93
    } else if text::text_eq(key, "pink") {
        213
    } else if text::text_eq(key, "y") {
        226
    } else {
        244
    }
}

/// Route keys in board order.
pub fn line_order() -> (r: [&'static str; 8])
    ensures
        r@.len() == 8,
        forall|i: int| 0 <= i < 8 ==> (#[trigger] r@[i])@ == transit::line_keys()[i],
{
    ["red", "blue", "brn", "g", "org", "p", "pink", "y"]
}

/// The eight compass points, clockwise from north.
pub open spec fn compass_points() -> Seq<Seq<char>> {
    seq!["N"@, "NE"@, "E"@, "SE"@, "S"@, "SW"@, "W"@, "NW"@]
}

/// The compass point nearest a heading, in whole degrees.
pub open spec fn compass_of(deg: u16) -> Seq<char> {
    compass_points()[((deg as int % 360) + 22) / 45 % 8]
}

/// 8-point compass label for a heading in degrees (0 = N, clockwise). Diagonals
/// included, so `045 -> NE`, `358 -> N`.
pub fn cardinal8(deg: u16) -> (r: &'static str)
    ensures
        r@ == compass_of(deg),
{
    let i: u16 = ((deg % 360) + 22) / 45 % 8;
    if i == 0 {
        "N"
    } else if i == 1 {
        "NE"
    } else if i == 2 {
        "E"
    } else if i == 3 {
        "SE"
    } else if i == 4 {
        "S"
    } else if i == 5 {
        "SW"
    } else if i == 6 {
        "W"
    } else {
        "NW"
    }
}

// ---------- menus ----------

/// Gopher item type for a link. Daemon-agnostic; serialized per-daemon elsewhere.
#[derive(Debug, Clone, Copy, PartialEq, Eq, Structural)]
pub enum ItemKind {
    /// Gopher type 0.
    Text,
    /// Gopher type 1.
    Menu,
    /// Gopher type h: external link, the selector is `URL:<addr>`.
    Url,
    /// Gopher type 9: binary download.
    Bin,
}

/// One line of a menu: either an info line (not selectable) or a link.
///
/// `host`/`port` are normally `None`: the serializer then emits the daemon's own
/// host/port placeholders, so the tree stays address-agnostic. They are `Some`
/// only for cross-server links, which must advertise a concrete address.
#[derive(Debug, Clone, PartialEq)]
pub enum Entry {
    Info(String),
    Link {
        kind: ItemKind,
        display: String,
        selector: String,
        host: Option<String>,
        port: Option<u16>,
    },
}

/// What an [`Entry`] holds.
pub enum EntryView {
    Info(Seq<char>),
    Link {
        kind: ItemKind,
        display: Seq<char>,
        selector: Seq<char>,
        host: Option<Seq<char>>,
        port: Option<u16>,
    },
}

impl View for Entry {
    type V = EntryView;

    open spec fn view(&self) -> EntryView {
        match *self {
            Entry::Info(s) => EntryView::Info(s@),
            Entry::Link { kind, display, selector, host, port } => EntryView::Link {
                kind,
                display: display@,
                selector: selector@,
                host: transit::opt_view(host),
                port,
            },
        }
    }
}

/// What each entry of a menu holds.
pub open spec fn entry_views(v: Seq<Entry>) -> Seq<EntryView> {
    v.map_values(|e: Entry| e@)
}

/// An info line.
pub open spec fn info_line(s: Seq<char>) -> EntryView {
    EntryView::Info(s)
}

/// A link into this tree.
pub open spec fn local_link(kind: ItemKind, display: Seq<char>, selector: Seq<char>) -> EntryView {
    EntryView::Link { kind, display, selector, host: None, port: None }
}

/// A link to another server.
pub open spec fn remote_link(
    kind: ItemKind,
    display: Seq<char>,
    selector: Seq<char>,
    host: Seq<char>,
    port: u16,
) -> EntryView {
    EntryView::Link { kind, display, selector, host: Some(host), port: Some(port) }
}

/// An info line.
pub fn info(s: &str) -> (e: Entry)
    ensures
        e@ == info_line(s@),
{
    Entry::Info(s.to_owned())
}

/// A link served from this tree (host/port default to the daemon's own).
pub fn link(kind: ItemKind, display: &str, selector: &str) -> (e: Entry)
    ensures
        e@ == local_link(kind, display@, selector@),
{
    Entry::Link {
        kind,
        display: display.to_owned(),
        selector: selector.to_owned(),
        host: None,
        port: None,
    }
}

/// A link to a *different* gopher server: the menu line advertises this host/port
/// so the client opens a fresh connection there.
pub fn link_remote(
    kind: ItemKind,
    display: &str,
    selector: &str,
    host: &str,
    port: u16,
) -> (e: Entry)
    ensures
        e@ == remote_link(kind, display@, selector@, host@, port),
{
    Entry::Link {
        kind,
        display: display.to_owned(),
        selector: selector.to_owned(),
        host: Some(host.to_owned()),
        port: Some(port),
    }
}

/// Appends one entry.
pub fn add_entry(menu: &mut Vec<Entry>, e: Entry)
    ensures
        entry_views(final(menu)@) == entry_views(old(menu)@).push(e@),
{
    menu.push(e);
    assert(entry_views(menu@) =~= entry_views(old(menu)@).push(e@));
}

/// The selector of a train's detail page.
pub open spec fn train_path(run: Seq<char>) -> Seq<char> {
    "/train/"@ + run + ".txt"@
}

/// Selector (served path) for a train's detail page.
pub fn train_selector(run: &str) -> (r: String)
    ensures
        r@ == train_path(run@),
{
    let mut out = "/train/".to_owned();
    out.append(run);
    out.append(".txt");
    out
}

/// The selector of a line's menu.
pub open spec fn line_path(line: Seq<char>) -> Seq<char> {
    "/"@ + line
}

/// Selector (served path) for a line's menu directory.
pub fn line_selector(line: &str) -> (r: String)
    ensures
        r@ == line_path(line@),
{
    let mut out = "/".to_owned();
    out.append(line);
    out
}

/// The trains of a snapshot that run on line `key`, in feed order.
pub open spec fn on_line(trains: Seq<TrainView>, key: Seq<char>) -> Seq<TrainView>
    decreases trains.len(),
{
    if trains.len() == 0 {
        Seq::empty()
    } else {
        let before = on_line(trains.drop_last(), key);
        if trains.last().line == key {
            before.push(trains.last())
        } else {
            before
        }
    }
}

/// How many trains run on line `key`.
pub fn count_on_line(pos: &Positions, key: &str) -> (n: usize)
    ensures
        n == on_line(pos@.trains, key@).len(),
{
    let mut n: usize = 0;
    let mut i: usize = 0;
    let ghost all = pos@.trains;
    while i < pos.trains.len()
        invariant
            all == pos@.trains,
            i <= pos.trains@.len(),
            n <= i,
            n == on_line(all.take(i as int), key@).len(),
        decreases pos.trains@.len() - i,
    {
        assert(all.take(i + 1).drop_last() =~= all.take(i as int));
        assert(all.take(i + 1).last() == pos.trains@[i as int]@);
        if text::text_eq(pos.trains[i].line.as_str(), key) {
            n = n + 1;
        }
        i = i + 1;
    }
    assert(all.take(i as int) =~= all);
    n
}

/// The root menu's entry for one line, with its live count.
pub open spec fn line_entry(trains: Seq<TrainView>, key: Seq<char>) -> EntryView {
    local_link(
        ItemKind::Menu,
        text::padded(label_of(key), 8) + " ("@ + text::dec(on_line(trains, key).len())
            + " running)"@,
        line_path(key),
    )
}

/// The root menu above the line entries.
pub open spec fn root_head() -> Seq<EntryView> {
    seq![
        info_line("==============================================="@),
        info_line("  gopher-cta : live CTA 'L' trains over Gopher"@),
        info_line("==============================================="@),
        info_line(""@),
        local_link(ItemKind::Text, "Live train map (braille)"@, "/map.txt"@),
        local_link(ItemKind::Text, "Geographic atlas (coast + landmarks)"@, "/atlas.txt"@),
        local_link(ItemKind::Text, "  -> colour (ANSI): map"@, "/map.ansi"@),
        local_link(ItemKind::Text, "  -> colour (ANSI): atlas"@, "/atlas.ansi"@),
        local_link(ItemKind::Menu, "Chicago landmarks"@, "/landmarks"@),
        info_line(""@),
        local_link(ItemKind::Text, "Dispatch (summary + feed stats)"@, "/dispatch.txt"@),
        local_link(ItemKind::Text, "SITREP (AI alerts summary)"@, "/sitrep.txt"@),
        local_link(ItemKind::Text, "Event advisory (AI)"@, "/events.txt"@),
        info_line(""@),
        info_line("Trains by line:"@),
    ]
}

/// The line entries of the root menu, in board order.
pub open spec fn root_lines(trains: Seq<TrainView>) -> Seq<EntryView> {
    transit::line_keys().map_values(|key: Seq<char>| line_entry(trains, key))
}

/// The root menu up to the pages about the service.
pub open spec fn root_upto_help(pos: PositionsView) -> Seq<EntryView> {
    (root_head() + root_lines(pos.trains)).push(info_line(""@)).push(
        local_link(ItemKind::Text, "About this service"@, "/about.txt"@),
    ).push(local_link(ItemKind::Text, "FAQ"@, "/faq.txt"@)).push(
        local_link(ItemKind::Text, "Troubleshooting"@, "/help.txt"@),
    )
}

/// The root menu up to the external links; the source tarball is listed only where
/// it is available.
pub open spec fn root_upto_links(pos: PositionsView, src_available: bool) -> Seq<EntryView> {
    let upto = root_upto_help(pos);
    (if src_available {
        upto.push(
            local_link(
                ItemKind::Bin,
                "Source code (tar.gz, fetch over gopher)"@,
                "/src.tar.gz"@,
            ),
        )
    } else {
        upto
    }).push(
        local_link(
            ItemKind::Url,
            "Source code (GitHub)"@,
            "URL:https://github.com/felipedbene/gopher-cta"@,
        ),
    ).push(
        local_link(
            ItemKind::Url,
            "CTA tracker -- the web original (tracker.debene.dev)"@,
            "URL:https://tracker.debene.dev/"@,
        ),
    )
}

/// The hub link to the sibling phlog hole.
pub open spec fn phlog_entry(host: Seq<char>, port: u16) -> EntryView {
    remote_link(ItemKind::Menu, "Phlog -- the blog"@, "/"@, host, port)
}

/// The end of the root menu.
pub open spec fn root_tail(pos: PositionsView) -> Seq<EntryView> {
    let tail = seq![
        info_line(""@),
        info_line("Data: CTA Train Tracker. Not affiliated with the CTA."@),
    ];
    if pos.from_fixture {
        tail.push(info_line("(offline demo data from bundled fixture)"@))
    } else {
        tail
    }
}

/// The whole root menu.
pub open spec fn root_entries(
    pos: PositionsView,
    src_available: bool,
    phlog: Option<(Seq<char>, u16)>,
) -> Seq<EntryView> {
    let upto = root_upto_links(pos, src_available);
    (match phlog {
        Some((host, port)) => upto.push(phlog_entry(host, port)),
        None => upto,
    }) + root_tail(pos)
}

/// The root menu: a link to the map, one entry per line (with a live count), and
/// an about link. Drill-down begins here. `phlog` is the optional hub link to the
/// sibling blog hole: when present a single type-1 entry advertises that address.
pub fn root_menu(pos: &Positions, src_available: bool, phlog: Option<(&str, u16)>) -> (r: Vec<
    Entry,
>)
    ensures
        entry_views(r@) == root_entries(
            pos@,
            src_available,
            match phlog {
                Some((host, port)) => Some((host@, port)),
                None => None,
            },
        ),
{
    let mut e: Vec<Entry> = Vec::new();
    assert(entry_views(e@) =~= Seq::<EntryView>::empty());
    add_entry(&mut e, info("==============================================="));
    add_entry(&mut e, info("  gopher-cta : live CTA 'L' trains over Gopher"));
    add_entry(&mut e, info("==============================================="));
    add_entry(&mut e, info(""));
    add_entry(&mut e, link(ItemKind::Text, "Live train map (braille)", "/map.txt"));
    add_entry(
        &mut e,
        link(ItemKind::Text, "Geographic atlas (coast + landmarks)", "/atlas.txt"),
    );
    add_entry(&mut e, link(ItemKind::Text, "  -> colour (ANSI): map", "/map.ansi"));
    add_entry(&mut e, link(ItemKind::Text, "  -> colour (ANSI): atlas", "/atlas.ansi"));
    add_entry(&mut e, link(ItemKind::Menu, "Chicago landmarks", "/landmarks"));
    add_entry(&mut e, info(""));
    add_entry(&mut e, link(ItemKind::Text, "Dispatch (summary + feed stats)", "/dispatch.txt"));
    add_entry(&mut e, link(ItemKind::Text, "SITREP (AI alerts summary)", "/sitrep.txt"));
    add_entry(&mut e, link(ItemKind::Text, "Event advisory (AI)", "/events.txt"));
    add_entry(&mut e, info(""));
    add_entry(&mut e, info("Trains by line:"));
    let keys = line_order();
    let mut k: usize = 0;
    let ghost lines = root_lines(pos@.trains);
    assert(entry_views(e@) =~= root_head() + lines.take(0));
    while k < 8
        invariant
            k <= 8,
            keys@.len() == 8,
            forall|i: int| 0 <= i < 8 ==> (#[trigger] keys@[i])@ == transit::line_keys()[i],
            lines == root_lines(pos@.trains),
            entry_views(e@) == root_head() + lines.take(k as int),
        decreases 8 - k,
    {
        let key = keys[k];
        let n: usize = count_on_line(pos, key);
        let mut display = text::pad(line_label(key), 8);
        display.append(" (");
        text::push_dec(&mut display, n as u128);
        display.append(" running)");
        let selector = line_selector(key);
        add_entry(&mut e, link(ItemKind::Menu, display.as_str(), selector.as_str()));
        assert(lines[k as int] == line_entry(pos@.trains, key@));
        k = k + 1;
        assert(entry_views(e@) =~= root_head() + lines.take(k as int));
    }
    assert(lines.take(8) =~= lines);
    add_entry(&mut e, info(""));
    add_entry(&mut e, link(ItemKind::Text, "About this service", "/about.txt"));
    add_entry(&mut e, link(ItemKind::Text, "FAQ", "/faq.txt"));
    add_entry(&mut e, link(ItemKind::Text, "Troubleshooting", "/help.txt"));
    if src_available {
        add_entry(
            &mut e,
            link(ItemKind::Bin, "Source code (tar.gz, fetch over gopher)", "/src.tar.gz"),
        );
    }
    add_entry(
        &mut e,
        link(
            ItemKind::Url,
            "Source code (GitHub)",
            "URL:https://github.com/felipedbene/gopher-cta",
        ),
    );
    add_entry(
        &mut e,
        link(
            ItemKind::Url,
            "CTA tracker -- the web original (tracker.debene.dev)",
            "URL:https://tracker.debene.dev/",
        ),
    );
    assert(entry_views(e@) == root_upto_links(pos@, src_available));
    if let Some((host, port)) = phlog {
        add_entry(&mut e, link_remote(ItemKind::Menu, "Phlog -- the blog", "/", host, port));
    }
    let ghost upto = entry_views(e@);
    add_entry(&mut e, info(""));
    add_entry(&mut e, info("Data: CTA Train Tracker. Not affiliated with the CTA."));
    if pos.from_fixture {
        add_entry(&mut e, info("(offline demo data from bundled fixture)"));
    }
    assert(entry_views(e@) =~= upto + root_tail(pos@));
    e
}

// ---------- per-line menus ----------

/// A list sorted by run, with `t` put behind every train whose run comes no later
/// than its own.
pub open spec fn placed_by_run(sorted: Seq<TrainView>, t: TrainView) -> Seq<TrainView>
    decreases sorted.len(),
{
    if sorted.len() == 0 || text::text_le(sorted.last().run, t.run) {
        sorted.push(t)
    } else {
        placed_by_run(sorted.drop_last(), t).push(sorted.last())
    }
}

/// The trains sorted by run, equal runs in feed order.
pub open spec fn by_run(trains: Seq<TrainView>) -> Seq<TrainView>
    decreases trains.len(),
{
    if trains.len() == 0 {
        Seq::empty()
    } else {
        placed_by_run(by_run(trains.drop_last()), trains.last())
    }
}

/// The trains of `trains` that carry run number `run`, in order.
pub open spec fn with_run(trains: Seq<TrainView>, run: Seq<char>) -> Seq<TrainView>
    decreases trains.len(),
{
    if trains.len() == 0 {
        Seq::empty()
    } else {
        let before = with_run(trains.drop_last(), run);
        if trains.last().run == run {
            before.push(trains.last())
        } else {
            before
        }
    }
}

/// Placing a train is an insertion at the one index that keeps the runs in order.
proof fn placed_is_insert(sorted: Seq<TrainView>, t: TrainView, p: int)
    requires
        0 <= p <= sorted.len(),
        p == 0 || text::text_le(sorted[p - 1].run, t.run),
        forall|j: int| p <= j < sorted.len() ==> !text::text_le(#[trigger] sorted[j].run, t.run),
    ensures
        placed_by_run(sorted, t) == sorted.insert(p, t),
    decreases sorted.len(),
{
    if p == sorted.len() {
        assert(sorted.insert(p, t) =~= sorted.push(t));
    } else {
        let rest = sorted.drop_last();
        assert(sorted.last() == sorted[sorted.len() - 1]);
        assert forall|j: int| p <= j < rest.len() implies !text::text_le(
            #[trigger] rest[j].run,
            t.run,
        ) by {
            assert(rest[j] == sorted[j]);
        }
        placed_is_insert(rest, t, p);
        assert(sorted.insert(p, t) =~= rest.insert(p, t).push(sorted.last()));
    }
}

/// The trains that a list of indices picks out.
pub open spec fn picked(trains: Seq<TrainView>, order: Seq<usize>) -> Seq<TrainView> {
    order.map_values(|i: usize| trains[i as int])
}

/// Puts train `i` into a list of indices sorted by run.
fn place_by_run(order: &mut Vec<usize>, trains: &Vec<Train>, i: usize)
    requires
        i < trains@.len(),
        forall|k: int| 0 <= k < old(order)@.len() ==> #[trigger] old(order)@[k] < trains@.len(),
    ensures
        forall|k: int| 0 <= k < final(order)@.len() ==> #[trigger] final(order)@[k] < trains@.len(),
        picked(transit::train_views(trains@), final(order)@) == placed_by_run(
            picked(transit::train_views(trains@), old(order)@),
            trains@[i as int]@,
        ),
{
    let ghost all = transit::train_views(trains@);
    let ghost before = picked(all, order@);
    let mut p: usize = order.len();
    while p > 0 && !text::no_later(trains[order[p - 1]].run.as_str(), trains[i].run.as_str())
        invariant
            i < trains@.len(),
            p <= order@.len(),
            all == transit::train_views(trains@),
            before == picked(all, order@),
            forall|k: int| 0 <= k < order@.len() ==> #[trigger] order@[k] < trains@.len(),
            forall|j: int|
                p <= j < before.len() ==> !text::text_le(
                    #[trigger] before[j].run,
                    trains@[i as int].run@,
                ),
        decreases p,
    {
        assert(before[p - 1] == all[order@[p - 1] as int]);
        p = p - 1;
    }
    proof {
        if p > 0 {
            assert(before[p - 1] == all[order@[p - 1] as int]);
        }
        placed_is_insert(before, trains@[i as int]@, p as int);
    }
    order.insert(p, i);
    assert(picked(all, order@) =~= before.insert(p as int, all[i as int]));
}

/// The indices of the trains on `line`, sorted by run.
pub fn running_order(trains: &Vec<Train>, line: &str) -> (order: Vec<usize>)
    ensures
        forall|k: int| 0 <= k < order@.len() ==> #[trigger] order@[k] < trains@.len(),
        picked(transit::train_views(trains@), order@) == by_run(
            on_line(transit::train_views(trains@), line@),
        ),
{
    let ghost all = transit::train_views(trains@);
    let mut order: Vec<usize> = Vec::new();
    let mut i: usize = 0;
    assert(all.take(0) =~= Seq::<TrainView>::empty());
    assert(picked(all, order@) =~= by_run(on_line(all.take(0), line@)));
    while i < trains.len()
        invariant
            i <= trains@.len(),
            all == transit::train_views(trains@),
            forall|k: int| 0 <= k < order@.len() ==> #[trigger] order@[k] < trains@.len(),
            picked(all, order@) == by_run(on_line(all.take(i as int), line@)),
        decreases trains@.len() - i,
    {
        assert(all.take(i + 1).drop_last() =~= all.take(i as int));
        assert(all.take(i + 1).last() == trains@[i as int]@);
        if text::text_eq(trains[i].line.as_str(), line) {
            proof {
                let before = on_line(all.take(i as int), line@);
                assert(before.push(trains@[i as int]@).drop_last() =~= before);
            }
            place_by_run(&mut order, trains, i);
        }
        i = i + 1;
    }
    assert(all.take(i as int) =~= all);
    order
}

/// The status of a train in its line's listing, the next stop folded in.
pub open spec fn row_status(t: TrainView) -> Seq<char> {
    let next = text::trimmed(t.next_station);
    if t.delayed {
        if next.len() == 0 {
            "DELAYED"@
        } else {
            "DELAYED, next "@ + next
        }
    } else if t.approaching {
        if next.len() == 0 {
            "approaching"@
        } else {
            "approaching "@ + next
        }
    } else if next.len() == 0 {
        ""@
    } else {
        "next "@ + next
    }
}

/// A train's row in its line's listing.
pub open spec fn row_text(t: TrainView) -> Seq<char> {
    if row_status(t).len() == 0 {
        "Run "@ + text::padded(t.run, 5) + " -> "@ + t.dest
    } else {
        "Run "@ + text::padded(t.run, 5) + " -> "@ + text::padded(t.dest, 14) + " "@ + row_status(
            t,
        )
    }
}

/// The link that a train's row is. Its target is a text page, so it is a text
/// link.
pub open spec fn row_entry(t: TrainView) -> EntryView {
    local_link(ItemKind::Text, row_text(t), train_path(t.run))
}

/// A train's link in its line's listing. The next stop is part of the status, so
/// that "approaching" says what is approached; where the feed reports no next
/// station the flag stands alone.
pub fn train_row(t: &Train) -> (e: Entry)
    ensures
        e@ == row_entry(t@),
{
    let next = text::trim(t.next_station.as_str());
    let bare: bool = next.is_empty();
    let mut status: String;
    if t.delayed {
        if bare {
            status = "DELAYED".to_owned();
        } else {
            status = "DELAYED, next ".to_owned();
            status.append(next);
        }
    } else if t.approaching {
        if bare {
            status = "approaching".to_owned();
        } else {
            status = "approaching ".to_owned();
            status.append(next);
        }
    } else if bare {
        status = "".to_owned();
    } else {
        status = "next ".to_owned();
        status.append(next);
    }
    let mut display = "Run ".to_owned();
    let run = text::pad(t.run.as_str(), 5);
    display.append(run.as_str());
    display.append(" -> ");
    if status.as_str().is_empty() {
        display.append(t.dest.as_str());
    } else {
        let dest = text::pad(t.dest.as_str(), 14);
        display.append(dest.as_str());
        display.append(" ");
        display.append(status.as_str());
    }
    let selector = train_selector(t.run.as_str());
    link(ItemKind::Text, display.as_str(), selector.as_str())
}

/// Whether `key` is the key of a line on the board.
pub fn is_line(key: &str) -> (r: bool)
    ensures
        r == transit::line_keys().contains(key@),
{
    let keys = line_order();
    let mut k: usize = 0;
    while k < 8
        invariant
            k <= 8,
            keys@.len() == 8,
            forall|i: int| 0 <= i < 8 ==> (#[trigger] keys@[i])@ == transit::line_keys()[i],
            forall|i: int| 0 <= i < k ==> #[trigger] transit::line_keys()[i] != key@,
        decreases 8 - k,
    {
        if text::text_eq(keys[k], key) {
            assert(transit::line_keys()[k as int] == key@);
            return true;
        }
        k = k + 1;
    }
    false
}

/// What is said of a line that is not known.
pub open spec fn unknown_notice(line: Seq<char>) -> Seq<char> {
    "Unknown line '"@ + line + "'."@
}

/// The head of a line's menu.
pub open spec fn line_head(line: Seq<char>) -> Seq<EntryView> {
    seq![info_line(label_of(line) + " Line -- live trains"@), info_line(text::filled('=', 40))]
}

/// The whole menu of one line.
pub open spec fn line_entries(pos: PositionsView, line: Seq<char>) -> Seq<EntryView> {
    let trains = by_run(on_line(pos.trains, line));
    if trains.len() > 0 {
        let listing = line_head(line).push(
            info_line(
                text::dec(trains.len()) + " train(s) running -- select one for details:"@,
            ),
        ).push(info_line(""@)) + trains.map_values(|t: TrainView| row_entry(t));
        if pos.from_fixture {
            listing.push(info_line(""@)).push(
                info_line("(offline demo data from bundled fixture)"@),
            )
        } else {
            listing
        }
    } else if transit::line_keys().contains(line) {
        line_head(line).push(info_line("No trains currently reporting on this line."@))
    } else {
        line_head(line).push(info_line(unknown_notice(line))).push(
            info_line("Known: red blue brn g org p pink y"@),
        )
    }
}

/// Per-line menu: each running train is a link drilling into its detail page.
pub fn line_menu(pos: &Positions, line: &str) -> (r: Vec<Entry>)
    ensures
        entry_views(r@) == line_entries(pos@, line@),
{
    let order = running_order(&pos.trains, line);
    let ghost all = pos@.trains;
    let ghost trains = by_run(on_line(all, line@));
    let ghost rows = trains.map_values(|t: TrainView| row_entry(t));
    let n: usize = order.len();
    assert(picked(all, order@).len() == n);
    let mut e: Vec<Entry> = Vec::new();
    assert(entry_views(e@) =~= Seq::<EntryView>::empty());
    let mut title = line_label(line).to_owned();
    title.append(" Line -- live trains");
    add_entry(&mut e, info(title.as_str()));
    let rule = text::repeat('=', 40);
    add_entry(&mut e, info(rule.as_str()));
    if n == 0 {
        if is_line(line) {
            add_entry(&mut e, info("No trains currently reporting on this line."));
        } else {
            let mut notice = "Unknown line '".to_owned();
            notice.append(line);
            notice.append("'.");
            add_entry(&mut e, info(notice.as_str()));
            add_entry(&mut e, info("Known: red blue brn g org p pink y"));
        }
        return e;
    }
    let mut count = text::dec_text(n as u128);
    count.append(" train(s) running -- select one for details:");
    add_entry(&mut e, info(count.as_str()));
    add_entry(&mut e, info(""));
    let ghost head = entry_views(e@);
    let mut k: usize = 0;
    assert(head =~= head + rows.take(0));
    while k < n
        invariant
            k <= n,
            n == order@.len(),
            all == pos@.trains,
            forall|j: int| 0 <= j < order@.len() ==> #[trigger] order@[j] < pos.trains@.len(),
            picked(all, order@) == trains,
            rows == trains.map_values(|t: TrainView| row_entry(t)),
            entry_views(e@) == head + rows.take(k as int),
        decreases n - k,
    {
        assert(trains[k as int] == all[order@[k as int] as int]);
        add_entry(&mut e, train_row(&pos.trains[order[k]]));
        k = k + 1;
        assert(entry_views(e@) =~= head + rows.take(k as int));
    }
    assert(rows.take(n as int) =~= rows);
    if pos.from_fixture {
        add_entry(&mut e, info(""));
        add_entry(&mut e, info("(offline demo data from bundled fixture)"));
    }
    e
}

// ---------- the train page ----------

/// The first train of the snapshot that carries run number `run`.
pub open spec fn first_with_run(trains: Seq<TrainView>, run: Seq<char>) -> Option<TrainView>
    decreases trains.len(),
{
    if trains.len() == 0 {
        None
    } else if trains[0].run == run {
        Some(trains[0])
    } else {
        first_with_run(trains.drop_first(), run)
    }
}

/// The index of the first train that carries run number `run`.
pub fn find_run(pos: &Positions, run: &str) -> (r: Option<usize>)
    ensures
        match r {
            Some(i) => i < pos.trains@.len() && first_with_run(pos@.trains, run@) == Some(
                pos.trains@[i as int]@,
            ),
            None => first_with_run(pos@.trains, run@) is None,
        },
{
    let ghost all = pos@.trains;
    let mut i: usize = 0;
    assert(all.skip(0) =~= all);
    while i < pos.trains.len()
        invariant
            i <= pos.trains@.len(),
            all == pos@.trains,
            first_with_run(all, run@) == first_with_run(all.skip(i as int), run@),
        decreases pos.trains@.len() - i,
    {
        assert(all.skip(i as int)[0] == pos.trains@[i as int]@);
        assert(all.skip(i as int).drop_first() =~= all.skip(i + 1));
        if text::text_eq(pos.trains[i].run.as_str(), run) {
            return Some(i);
        }
        i = i + 1;
    }
    None
}

/// A number in decimal, with leading zeros to three digits.
pub open spec fn three_digits(n: nat) -> Seq<char> {
    if n < 1000 {
        text::low_digits(n, 3)
    } else {
        text::dec(n)
    }
}

/// Appends a number in decimal, with leading zeros to three digits.
pub fn push_three_digits(out: &mut String, n: u16)
    ensures
        final(out)@ == old(out)@ + three_digits(n as nat),
{
    if n < 1000 {
        text::push_low_digits(out, n as u128, 3);
    } else {
        text::push_dec(out, n as u128);
    }
}

/// The page of a run that is not in the feed.
pub open spec fn gone_text(run: Seq<char>) -> Seq<char> {
    "Run "@ + run + " -- no longer reporting\n"@ + text::filled('=', 40)
        + "\n\nThis run is not in the current live feed. It may have finished\n"@
        + "its trip, gone out of service, or changed run number.\n\n"@
        + "Head back to the line listing to pick another train.\n"@
}

/// A train's status on its page.
pub open spec fn page_status(t: TrainView) -> Seq<char> {
    if t.delayed {
        "DELAYED"@
    } else if t.approaching {
        "approaching "@ + t.next_station
    } else {
        "en route"@
    }
}

/// A train's heading on its page.
pub open spec fn page_heading(t: TrainView) -> Seq<char> {
    match t.heading {
        Some(h) => three_digits(h as nat) + " ("@ + compass_of(h) + ")"@,
        None => "unknown"@,
    }
}

/// A train's next stop on its page.
pub open spec fn page_next(t: TrainView) -> Seq<char> {
    match t.arr_time {
        Some(arr) => t.next_station + "  (predicted "@ + arr + ")"@,
        None => t.next_station,
    }
}

/// The page of a train in the feed, with its heading as given.
pub open spec fn train_text(t: TrainView, heading: Seq<char>, from_fixture: bool) -> Seq<char> {
    let page = "Run "@ + t.run + " -- "@ + label_of(t.line) + " Line\n"@ + text::filled('=', 40)
        + "\n\nline:        "@ + label_of(t.line) + " ("@ + hex_of(t.line) + ")\nstatus:      "@
        + page_status(t) + "\ndestination: "@ + t.dest + "\nposition:    "@
        + project::five_places(t.lat) + ", "@ + project::five_places(t.lon) + "   heading "@
        + heading + "\nnext stop:   "@ + page_next(t)
        + "\n\nThe CTA positions feed reports only the next stop, so the full\n"@
        + "upcoming-stop sequence isn't available here without a separate\n"@
        + "per-station query.\n"@;
    if from_fixture {
        page + "\n(offline demo data from bundled fixture)\n"@
    } else {
        page
    }
}

/// The detail page for run `run` of a snapshot.
pub open spec fn train_page_text(pos: PositionsView, run: Seq<char>) -> Seq<char> {
    match first_with_run(pos.trains, run) {
        Some(t) => train_text(t, page_heading(t), pos.from_fixture),
        None => gone_text(run),
    }
}

/// The page of a run that is not in the feed.
pub fn gone_page(run_id: &str) -> (r: String)
    ensures
        r@ == gone_text(run_id@),
{
    let rule = text::repeat('=', 40);
    let mut out = "Run ".to_owned();
    out.append(run_id);
    out.append(" -- no longer reporting\n");
    out.append(rule.as_str());
    out.append("\n\nThis run is not in the current live feed. It may have finished\n");
    out.append("its trip, gone out of service, or changed run number.\n\n");
    out.append("Head back to the line listing to pick another train.\n");
    out
}

/// The page of a train in the feed, with its heading as given.
pub fn train_body(t: &Train, heading: &str, from_fixture: bool) -> (r: String)
    ensures
        r@ == train_text(t@, heading@, from_fixture),
{
    let rule = text::repeat('=', 40);
    let mut status: String;
    if t.delayed {
        status = "DELAYED".to_owned();
    } else if t.approaching {
        status = "approaching ".to_owned();
        status.append(t.next_station.as_str());
    } else {
        status = "en route".to_owned();
    }
    let mut next = t.next_station.as_str().to_owned();
    match &t.arr_time {
        Some(arr) => {
            next.append("  (predicted ");
            next.append(arr.as_str());
            next.append(")");
        },
        None => {},
    }
    let lat = project::degrees_text(t.lat);
    let lon = project::degrees_text(t.lon);
    let mut out = "Run ".to_owned();
    out.append(t.run.as_str());
    out.append(" -- ");
    out.append(line_label(t.line.as_str()));
    out.append(" Line\n");
    out.append(rule.as_str());
    out.append("\n\nline:        ");
    out.append(line_label(t.line.as_str()));
    out.append(" (");
    out.append(line_color(t.line.as_str()));
    out.append(")\nstatus:      ");
    out.append(status.as_str());
    out.append("\ndestination: ");
    out.append(t.dest.as_str());
    out.append("\nposition:    ");
    out.append(lat.as_str());
    out.append(", ");
    out.append(lon.as_str());
    out.append("   heading ");
    out.append(heading);
    out.append("\nnext stop:   ");
    out.append(next.as_str());
    out.append("\n\nThe CTA positions feed reports only the next stop, so the full\n");
    out.append("upcoming-stop sequence isn't available here without a separate\n");
    out.append("per-station query.\n");
    if from_fixture {
        out.append("\n(offline demo data from bundled fixture)\n");
    }
    out
}

/// The per-train detail page (plain text). It is made of the current snapshot only,
/// so the upcoming-stop sequence is just the next stop that the feed reports. An
/// unknown or expired run yields a clean notice.
pub fn train_page(pos: &Positions, run_id: &str) -> (r: String)
    ensures
        r@ == train_page_text(pos@, run_id@),
{
    let t: &Train = match find_run(pos, run_id) {
        Some(i) => &pos.trains[i],
        None => {
            return gone_page(run_id);
        },
    };
    let mut heading = String::new();
    match t.heading {
        Some(h) => {
            push_three_digits(&mut heading, h);
            assert(heading@ =~= three_digits(h as nat));
            heading.append(" (");
            heading.append(cardinal8(h));
            heading.append(")");
        },
        None => {
            heading = "unknown".to_owned();
        },
    }
    train_body(t, heading.as_str(), pos.from_fixture)
}

// ---------- laws ----------

proof fn placed_has_one_more(sorted: Seq<TrainView>, t: TrainView)
    ensures
        placed_by_run(sorted, t).len() == sorted.len() + 1,
    decreases sorted.len(),
{
    if sorted.len() > 0 {
        placed_has_one_more(sorted.drop_last(), t);
    }
}

/// Whether the runs of a listing are in order.
pub open spec fn in_run_order(trains: Seq<TrainView>) -> bool {
    forall|i: int, j: int|
        0 <= i <= j < trains.len() ==> text::text_le(
            (#[trigger] trains[i]).run,
            (#[trigger] trains[j]).run,
        )
}

proof fn placed_keeps_order(sorted: Seq<TrainView>, t: TrainView)
    requires
        in_run_order(sorted),
    ensures
        in_run_order(placed_by_run(sorted, t)),
        forall|k: int|
            0 <= k < placed_by_run(sorted, t).len() ==> (#[trigger] placed_by_run(sorted, t)[k]
                == t || exists|m: int|
                0 <= m < sorted.len() && placed_by_run(sorted, t)[k] == sorted[m]),
    decreases sorted.len(),
{
    let r = placed_by_run(sorted, t);
    if sorted.len() == 0 || text::text_le(sorted.last().run, t.run) {
        assert forall|i: int, j: int| 0 <= i <= j < r.len() implies text::text_le(
            (#[trigger] r[i]).run,
            (#[trigger] r[j]).run,
        ) by {
            if j == sorted.len() {
                text::text_le_total(t.run, t.run);
                if i < sorted.len() {
                    assert(r[i] == sorted[i]);
                    assert(sorted[sorted.len() - 1] == sorted.last());
                    text::text_le_transitive(sorted[i].run, sorted.last().run, t.run);
                }
            } else {
                assert(r[i] == sorted[i] && r[j] == sorted[j]);
            }
        }
        assert forall|k: int| 0 <= k < r.len() implies (#[trigger] r[k] == t || exists|m: int|
            0 <= m < sorted.len() && r[k] == sorted[m]) by {
            if k < sorted.len() {
                assert(r[k] == sorted[k]);
            }
        }
    } else {
        let rest = sorted.drop_last();
        let last = sorted.last();
        assert(forall|i: int| 0 <= i < rest.len() ==> rest[i] == sorted[i]);
        assert(in_run_order(rest));
        placed_keeps_order(rest, t);
        placed_has_one_more(rest, t);
        let q = placed_by_run(rest, t);
        text::text_le_total(t.run, last.run);
        assert forall|k: int| 0 <= k < q.len() implies text::text_le(
            (#[trigger] q[k]).run,
            last.run,
        ) by {
            if q[k] != t {
                let m = choose|m: int| 0 <= m < rest.len() && q[k] == rest[m];
                assert(rest[m] == sorted[m]);
                assert(sorted[sorted.len() - 1] == last);
            }
        }
        assert forall|i: int, j: int| 0 <= i <= j < r.len() implies text::text_le(
            (#[trigger] r[i]).run,
            (#[trigger] r[j]).run,
        ) by {
            if j == q.len() {
                text::text_le_total(last.run, last.run);
                if i < q.len() {
                    assert(r[i] == q[i]);
                }
            } else {
                assert(r[i] == q[i] && r[j] == q[j]);
            }
        }
        assert forall|k: int| 0 <= k < r.len() implies (#[trigger] r[k] == t || exists|m: int|
            0 <= m < sorted.len() && r[k] == sorted[m]) by {
            if k < q.len() {
                assert(r[k] == q[k]);
                if q[k] != t {
                    let m = choose|m: int| 0 <= m < rest.len() && q[k] == rest[m];
                    assert(r[k] == sorted[m]);
                }
            } else {
                assert(r[k] == sorted[sorted.len() - 1]);
            }
        }
    }
}

/// A line's listing is in the order of the run numbers.
pub proof fn law_listing_is_in_run_order(trains: Seq<TrainView>)
    ensures
        in_run_order(by_run(trains)),
    decreases trains.len(),
{
    if trains.len() > 0 {
        law_listing_is_in_run_order(trains.drop_last());
        placed_keeps_order(by_run(trains.drop_last()), trains.last());
    }
}

proof fn placed_keeps_feed_order(sorted: Seq<TrainView>, t: TrainView, run: Seq<char>)
    ensures
        with_run(placed_by_run(sorted, t), run) == with_run(sorted.push(t), run),
    decreases sorted.len(),
{
    assert(sorted.push(t).drop_last() =~= sorted);
    if !(sorted.len() == 0 || text::text_le(sorted.last().run, t.run)) {
        let rest = sorted.drop_last();
        placed_keeps_feed_order(rest, t, run);
        assert(rest.push(t).drop_last() =~= rest);
        let q = placed_by_run(rest, t);
        let last = sorted.last();
        assert(q.push(last).drop_last() =~= q);
        text::text_le_total(t.run, t.run);
        let before = with_run(rest, run);
        assert(with_run(sorted, run) == if last.run == run {
            before.push(last)
        } else {
            before
        });
        assert(with_run(q, run) == if t.run == run {
            before.push(t)
        } else {
            before
        });
        assert(with_run(q.push(last), run) == if last.run == run {
            with_run(q, run).push(last)
        } else {
            with_run(q, run)
        });
    }
}

/// Sorting loses no train, adds none, and keeps the feed order of trains with the
/// same run number: for every run number the trains that carry it are the same
/// before and after, in the same order.
pub proof fn law_listing_keeps_every_train(trains: Seq<TrainView>, run: Seq<char>)
    ensures
        by_run(trains).len() == trains.len(),
        with_run(by_run(trains), run) == with_run(trains, run),
    decreases trains.len(),
{
    if trains.len() > 0 {
        let rest = trains.drop_last();
        law_listing_keeps_every_train(rest, run);
        placed_has_one_more(by_run(rest), trains.last());
        placed_keeps_feed_order(by_run(rest), trains.last(), run);
        assert(by_run(rest).push(trains.last()).drop_last() =~= by_run(rest));
    }
}

/// The optional phlog link is one entry of the root menu, put behind the external
/// links; without it the menu is the same but for that entry.
pub proof fn law_phlog_link_is_one_entry(
    pos: PositionsView,
    src_available: bool,
    host: Seq<char>,
    port: u16,
)
    ensures
        root_entries(pos, src_available, Some((host, port))) == root_entries(
            pos,
            src_available,
            None,
        ).insert(root_upto_links(pos, src_available).len() as int, phlog_entry(host, port)),
{
    let upto = root_upto_links(pos, src_available);
    assert(upto.push(phlog_entry(host, port)) + root_tail(pos) =~= (upto + root_tail(pos)).insert(
        upto.len() as int,
        phlog_entry(host, port),
    ));
}

/// Whether an entry is a link with the given selector.
pub open spec fn links_to(e: EntryView, selector: Seq<char>) -> bool {
    e matches EntryView::Link { selector: s, .. } && s == selector
}

/// The page of a train in the feed gives its position.
pub proof fn train_text_gives_position(t: TrainView, heading: Seq<char>, from_fixture: bool)
    ensures
        text::holds(train_text(t, heading, from_fixture), "position:"@),
{
    reveal_strlit("position:");
    reveal_strlit("\nposition:    ");
    let head = "Run "@ + t.run + " -- "@ + label_of(t.line) + " Line\n"@ + text::filled('=', 40)
        + "\n\nline:        "@ + label_of(t.line) + " ("@ + hex_of(t.line) + ")\nstatus:      "@
        + page_status(t) + "\ndestination: "@ + t.dest;
    let upto = head + "\nposition:    "@;
    let whole = train_text(t, heading, from_fixture);
    let i = head.len() as int + 1;
    assert(upto.subrange(i, i + 9) =~= "position:"@);
    assert(upto.len() <= whole.len() && whole.take(upto.len() as int) =~= upto);
    assert(whole.subrange(i, i + 9) =~= whole.take(upto.len() as int).subrange(i, i + 9));
    assert(text::holds_at(whole, "position:"@, i));
}

/// The page of a run that is not in the feed gives no position: it holds the word
/// only where the run number itself does.
pub proof fn gone_text_gives_no_position(run: Seq<char>)
    ensures
        text::holds(gone_text(run), "position:"@) <==> text::holds(run, "position:"@),
{
    broadcast use text::lacks_both;

    reveal_strlit("position:");
    reveal_strlit("Run ");
    let word = "position:"@;
    let s = gone_text(run);
    let tail = " -- no longer reporting\n"@ + text::filled('=', 40)
        + "\n\nThis run is not in the current live feed. It may have finished\n"@
        + "its trip, gone out of service, or changed run number.\n\n"@
        + "Head back to the line listing to pick another train.\n"@;
    assert(s =~= "Run "@ + run + tail);
    assert(text::lacks(tail, ':')) by {
        text::filled_lacks('=', 40, ':');
        gone_words_lack_colons();
    }
    let n = run.len() as int;
    if text::holds(run, word) {
        let i = choose|i: int| text::holds_at(run, word, i);
        assert(s.subrange(i + 4, i + 4 + 9) =~= run.subrange(i, i + 9));
        assert(text::holds_at(s, word, i + 4));
    }
    if text::holds(s, word) {
        let i = choose|i: int| text::holds_at(s, word, i);
        let w = s.subrange(i, i + 9);
        assert(word.len() == 9 && word[8] == ':');
        assert(w == word);
        assert(s[i + 8] == w[8]);
        reveal(text::lacks);
        if i + 8 >= 4 + n {
            assert(s[i + 8] == tail[i + 8 - 4 - n]);
        }
        if i < 4 {
            assert(w[3 - i] == s[3] && s[3] == ' ');
            assert(i + 8 >= 4);
            assert(word[3 - i] != ' ');
        }
        assert(run.subrange(i - 4, i - 4 + 9) =~= w);
        assert(text::holds_at(run, word, i - 4));
    }
}

proof fn gone_words_lack_colons()
    ensures
        text::lacks(" -- no longer reporting\n"@, ':'),
        text::lacks("\n\nThis run is not in the current live feed. It may have finished\n"@, ':'),
        text::lacks("its trip, gone out of service, or changed run number.\n\n"@, ':'),
        text::lacks("Head back to the line listing to pick another train.\n"@, ':'),
{
    reveal(text::lacks);
    reveal_strlit(" -- no longer reporting\n");
    reveal_strlit("\n\nThis run is not in the current live feed. It may have finished\n");
    reveal_strlit("its trip, gone out of service, or changed run number.\n\n");
    reveal_strlit("Head back to the line listing to pick another train.\n");
}

/// A detail page gives a position where the run is in the feed, and none where it is
/// not, unless the run number itself holds the word.
pub proof fn law_only_running_trains_have_a_position(pos: PositionsView, run: Seq<char>)
    ensures
        text::holds(train_page_text(pos, run), "position:"@) <==> first_with_run(
            pos.trains,
            run,
        ) is Some || text::holds(run, "position:"@),
{
    match first_with_run(pos.trains, run) {
        Some(t) => {
            train_text_gives_position(t, page_heading(t), pos.from_fixture);
        },
        None => {
            gone_text_gives_no_position(run);
        },
    }
}

/// No other line of a line's menu reads like the notice of an unknown one.
pub proof fn notice_is_unlike_the_rest(line: Seq<char>, n: nat)
    ensures
        unknown_notice(line) != label_of(line) + " Line -- live trains"@,
        unknown_notice(line) != text::filled('=', 40),
        unknown_notice(line) != ""@,
        unknown_notice(line) != text::dec(n) + " train(s) running -- select one for details:"@,
        unknown_notice(line) != "(offline demo data from bundled fixture)"@,
        unknown_notice(line) != "No trains currently reporting on this line."@,
        unknown_notice(line) != "Known: red blue brn g org p pink y"@,
{
    let s = unknown_notice(line);
    reveal_strlit("Unknown line '");
    reveal_strlit("'.");
    reveal_strlit("");
    reveal_strlit(" Line -- live trains");
    reveal_strlit(" train(s) running -- select one for details:");
    reveal_strlit("(offline demo data from bundled fixture)");
    reveal_strlit("No trains currently reporting on this line.");
    reveal_strlit("Known: red blue brn g org p pink y");
    assert(s[0] == 'U' && s.last() == '.');
    assert((label_of(line) + " Line -- live trains"@).last() == 's');
    assert((text::dec(n) + " train(s) running -- select one for details:"@).last() == ':');
    assert(text::filled('=', 40)[0] == '=');
    assert("(offline demo data from bundled fixture)"@[0] == '(');
    assert("No trains currently reporting on this line."@[0] == 'N');
    assert("Known: red blue brn g org p pink y"@[0] == 'K');
}

/// A line's menu says that the line is unknown exactly where it is: no train runs on
/// it, and it is not on the board.
pub proof fn law_only_unknown_lines_are_called_so(pos: PositionsView, line: Seq<char>)
    ensures
        line_entries(pos, line).contains(info_line(unknown_notice(line))) <==> on_line(
            pos.trains,
            line,
        ).len() == 0 && !transit::line_keys().contains(line),
{
    let all = on_line(pos.trains, line);
    let trains = by_run(all);
    law_listing_keeps_every_train(all, line);
    notice_is_unlike_the_rest(line, trains.len());
    let notice = info_line(unknown_notice(line));
    let e = line_entries(pos, line);
    if trains.len() == 0 && !transit::line_keys().contains(line) {
        assert(e[2] == notice);
    } else {
        assert forall|i: int| 0 <= i < e.len() implies e[i] != notice by {
            if trains.len() > 0 && 4 <= i < 4 + trains.len() {
                assert(e[i] == row_entry(trains[i - 4]));
            }
        }
    }
}

} // verus!
