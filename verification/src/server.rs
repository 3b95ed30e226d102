//! The socket server's view builders and selector routing: what each selector is
//! answered, as a function of the positions snapshot.

use crate::trainmap;
use crate::project;
use crate::project::Geometry;
use crate::protocol;
use crate::protocol::{ItemType, MenuItem, MenuItemView};
use crate::render;
use crate::text;
use crate::transit;
use crate::transit::{Positions, PositionsView, Train, TrainView};
use vstd::prelude::*;
use vstd::string::StrSliceExecFns;
use vstd::string::StringExecFns;

verus! {

/// An item that links to this server.
pub open spec fn link_item(
    itype: ItemType,
    display: Seq<char>,
    selector: Seq<char>,
    host: Seq<char>,
    port: u16,
) -> MenuItemView {
    MenuItemView { itype, display, selector, host, port }
}

/// Appends one item.
fn add_item(items: &mut Vec<MenuItem>, m: MenuItem)
    ensures
        protocol::item_views(final(items)@) == protocol::item_views(old(items)@).push(m@),
{
    items.push(m);
    assert(protocol::item_views(items@) =~= protocol::item_views(old(items)@).push(m@));
}

// ---------- view builders ----------

/// The items of the root menu.
pub open spec fn root_items(host: Seq<char>, port: u16) -> Seq<MenuItemView> {
    seq![
        protocol::info_item("==============================================="@),
        protocol::info_item("  gopher-cta : live CTA 'L' trains over Gopher"@),
        protocol::info_item("==============================================="@),
        protocol::info_item(""@),
        link_item(ItemType::Text, "Live train map (braille)"@, "/map"@, host, port),
        link_item(ItemType::Menu, "Trains by line"@, "/cta"@, host, port),
        link_item(ItemType::Text, "About this server"@, "/about"@, host, port),
        protocol::info_item(""@),
        protocol::info_item("Data: CTA Train Tracker. Not affiliated with the CTA."@),
    ]
}

/// The root menu.
pub fn build_root(host: &str, port: u16) -> (r: String)
    ensures
        r@ == protocol::menu_wire(root_items(host@, port)),
{
    let mut items: Vec<MenuItem> = Vec::new();
    assert(protocol::item_views(items@) =~= Seq::<MenuItemView>::empty());
    add_item(&mut items, MenuItem::info("==============================================="));
    add_item(&mut items, MenuItem::info("  gopher-cta : live CTA 'L' trains over Gopher"));
    add_item(&mut items, MenuItem::info("==============================================="));
    add_item(&mut items, MenuItem::info(""));
    add_item(
        &mut items,
        MenuItem::link(ItemType::Text, "Live train map (braille)", "/map", host, port),
    );
    add_item(&mut items, MenuItem::link(ItemType::Menu, "Trains by line", "/cta", host, port));
    add_item(&mut items, MenuItem::link(ItemType::Text, "About this server", "/about", host, port));
    add_item(&mut items, MenuItem::info(""));
    add_item(
        &mut items,
        MenuItem::info("Data: CTA Train Tracker. Not affiliated with the CTA."),
    );
    assert(protocol::item_views(items@) =~= root_items(host@, port));
    protocol::render_menu(items.as_slice())
}

/// The `/cta` menu's item for one line, with its live count.
pub open spec fn line_item(
    trains: Seq<TrainView>,
    key: Seq<char>,
    host: Seq<char>,
    port: u16,
) -> MenuItemView {
    link_item(
        ItemType::Text,
        text::padded(render::label_of(key), 8) + " ("@ + text::dec(
            render::on_line(trains, key).len(),
        ) + " running)"@,
        "/cta/"@ + key,
        host,
        port,
    )
}

/// The items of the `/cta` menu.
pub open spec fn cta_items(trains: Seq<TrainView>, host: Seq<char>, port: u16) -> Seq<
    MenuItemView,
> {
    seq![
        protocol::info_item("CTA 'L' lines -- select one for live positions"@),
        protocol::info_item(""@),
    ] + transit::line_keys().map_values(|key: Seq<char>| line_item(trains, key, host, port))
}

/// The `/cta` menu: one entry per line, with a live train count.
pub fn build_cta_menu(pos: &Positions, host: &str, port: u16) -> (r: String)
    ensures
        r@ == protocol::menu_wire(cta_items(pos@.trains, host@, port)),
{
    let mut items: Vec<MenuItem> = Vec::new();
    assert(protocol::item_views(items@) =~= Seq::<MenuItemView>::empty());
    add_item(&mut items, MenuItem::info("CTA 'L' lines -- select one for live positions"));
    add_item(&mut items, MenuItem::info(""));
    let ghost head = protocol::item_views(items@);
    let ghost rows = transit::line_keys().map_values(
        |key: Seq<char>| line_item(pos@.trains, key, host@, port),
    );
    let keys = render::line_order();
    let mut k: usize = 0;
    assert(head =~= head + rows.take(0));
    while k < 8
        invariant
            k <= 8,
            keys@.len() == 8,
            forall|i: int| 0 <= i < 8 ==> (#[trigger] keys@[i])@ == transit::line_keys()[i],
            rows == transit::line_keys().map_values(
                |key: Seq<char>| line_item(pos@.trains, key, host@, port),
            ),
            protocol::item_views(items@) == head + rows.take(k as int),
        decreases 8 - k,
    {
        let key = keys[k];
        let n: usize = render::count_on_line(pos, key);
        let mut display = text::pad(render::line_label(key), 8);
        display.append(" (");
        text::push_dec(&mut display, n as u128);
        display.append(" running)");
        let mut selector = "/cta/".to_owned();
        selector.append(key);
        add_item(
            &mut items,
            MenuItem::link(ItemType::Text, display.as_str(), selector.as_str(), host, port),
        );
        assert(rows[k as int] == line_item(pos@.trains, key@, host@, port));
        k = k + 1;
        assert(protocol::item_views(items@) =~= head + rows.take(k as int));
    }
    assert(rows.take(8) =~= rows);
    assert(protocol::item_views(items@) =~= cta_items(pos@.trains, host@, port));
    protocol::render_menu(items.as_slice())
}

/// The flags of a train in its line's menu.
pub open spec fn flags_text(t: TrainView) -> Seq<char> {
    if t.approaching && t.delayed {
        "  [approaching, DELAYED]"@
    } else if t.approaching {
        "  [approaching]"@
    } else if t.delayed {
        "  [DELAYED]"@
    } else {
        ""@
    }
}

/// A train's item in its line's menu.
pub open spec fn train_item(t: TrainView, host: Seq<char>, port: u16) -> MenuItemView {
    link_item(
        ItemType::Menu,
        "Run "@ + text::padded(t.run, 5) + " -> "@ + t.dest + flags_text(t),
        "/train/"@ + t.run,
        host,
        port,
    )
}

/// A train's item in its line's menu.
fn train_row(t: &Train, host: &str, port: u16) -> (m: MenuItem)
    ensures
        m@ == train_item(t@, host@, port),
{
    let mut display = "Run ".to_owned();
    let run = text::pad(t.run.as_str(), 5);
    display.append(run.as_str());
    display.append(" -> ");
    display.append(t.dest.as_str());
    if t.approaching && t.delayed {
        display.append("  [approaching, DELAYED]");
    } else if t.approaching {
        display.append("  [approaching]");
    } else if t.delayed {
        display.append("  [DELAYED]");
    } else {
        display.append("");
    }
    let mut selector = "/train/".to_owned();
    selector.append(t.run.as_str());
    MenuItem::link(ItemType::Menu, display.as_str(), selector.as_str(), host, port)
}

/// The head of a line's menu.
pub open spec fn line_head(line: Seq<char>) -> Seq<MenuItemView> {
    seq![
        protocol::info_item(render::label_of(line) + " Line -- live trains"@),
        protocol::info_item(text::filled('=', 40)),
    ]
}

/// The items of a line's menu.
pub open spec fn line_items(
    pos: PositionsView,
    line: Seq<char>,
    host: Seq<char>,
    port: u16,
) -> Seq<MenuItemView> {
    let trains = render::by_run(render::on_line(pos.trains, line));
    if trains.len() > 0 {
        let listing = line_head(line).push(
            protocol::info_item(
                text::dec(trains.len()) + " train(s) running -- select one for details:"@,
            ),
        ).push(protocol::info_item(""@)) + trains.map_values(
            |t: TrainView| train_item(t, host, port),
        );
        if pos.from_fixture {
            listing.push(protocol::info_item(""@)).push(
                protocol::info_item("(offline demo data from bundled fixture)"@),
            )
        } else {
            listing
        }
    } else if transit::line_keys().contains(line) {
        line_head(line).push(protocol::info_item("No trains currently reporting on this line."@))
    } else {
        line_head(line).push(protocol::info_item(render::unknown_notice(line))).push(
            protocol::info_item("Known: red blue brn g org p pink y"@),
        )
    }
}

/// Per-line view: a gopher menu whose run rows are clickable items that drill into
/// `/train/<run>` detail pages. Host/port are those of the other menus, so links
/// resolve back to this server.
pub fn build_line_menu(pos: &Positions, line: &str, host: &str, port: u16) -> (r: String)
    ensures
        r@ == protocol::menu_wire(line_items(pos@, line@, host@, port)),
{
    let order = render::running_order(&pos.trains, line);
    let ghost all = pos@.trains;
    let ghost trains = render::by_run(render::on_line(all, line@));
    let ghost rows = trains.map_values(|t: TrainView| train_item(t, host@, port));
    let n: usize = order.len();
    assert(render::picked(all, order@).len() == n);
    let mut items: Vec<MenuItem> = Vec::new();
    assert(protocol::item_views(items@) =~= Seq::<MenuItemView>::empty());
    let mut title = render::line_label(line).to_owned();
    title.append(" Line -- live trains");
    add_item(&mut items, MenuItem::info(title.as_str()));
    let rule = text::repeat('=', 40);
    add_item(&mut items, MenuItem::info(rule.as_str()));
    if n == 0 {
        if render::is_line(line) {
            add_item(&mut items, MenuItem::info("No trains currently reporting on this line."));
        } else {
            let mut notice = "Unknown line '".to_owned();
            notice.append(line);
            notice.append("'.");
            add_item(&mut items, MenuItem::info(notice.as_str()));
            add_item(&mut items, MenuItem::info("Known: red blue brn g org p pink y"));
        }
        assert(protocol::item_views(items@) =~= line_items(pos@, line@, host@, port));
        return protocol::render_menu(items.as_slice());
    }
    let mut count = text::dec_text(n as u128);
    count.append(" train(s) running -- select one for details:");
    add_item(&mut items, MenuItem::info(count.as_str()));
    add_item(&mut items, MenuItem::info(""));
    let ghost head = protocol::item_views(items@);
    let mut k: usize = 0;
    assert(head =~= head + rows.take(0));
    while k < n
        invariant
            k <= n,
            n == order@.len(),
            all == pos@.trains,
            forall|j: int| 0 <= j < order@.len() ==> #[trigger] order@[j] < pos.trains@.len(),
            render::picked(all, order@) == trains,
            rows == trains.map_values(|t: TrainView| train_item(t, host@, port)),
            protocol::item_views(items@) == head + rows.take(k as int),
        decreases n - k,
    {
        assert(trains[k as int] == all[order@[k as int] as int]);
        add_item(&mut items, train_row(&pos.trains[order[k]], host, port));
        k = k + 1;
        assert(protocol::item_views(items@) =~= head + rows.take(k as int));
    }
    assert(rows.take(n as int) =~= rows);
    if pos.from_fixture {
        add_item(&mut items, MenuItem::info(""));
        add_item(&mut items, MenuItem::info("(offline demo data from bundled fixture)"));
    }
    assert(protocol::item_views(items@) =~= line_items(pos@, line@, host@, port));
    protocol::render_menu(items.as_slice())
}

/// A train's heading, in degrees.
pub open spec fn heading_text(t: TrainView) -> Seq<char> {
    match t.heading {
        Some(h) => render::three_digits(h as nat),
        None => "unknown"@,
    }
}

/// The detail text for run `run` of a snapshot.
pub open spec fn train_detail(pos: PositionsView, run: Seq<char>) -> Seq<char> {
    match render::first_with_run(pos.trains, run) {
        Some(t) => render::train_text(t, heading_text(t), pos.from_fixture),
        None => render::gone_text(run),
    }
}

/// Per-train detail page (text): identity, line/color, live position, heading,
/// destination, and next stop with its predicted time. An unknown or expired run
/// returns a clean "no longer reporting" page rather than an error.
pub fn build_train_text(pos: &Positions, run_id: &str) -> (r: String)
    ensures
        r@ == train_detail(pos@, run_id@),
{
    let t: &Train = match render::find_run(pos, run_id) {
        Some(i) => &pos.trains[i],
        None => {
            return render::gone_page(run_id);
        },
    };
    let mut heading = String::new();
    match t.heading {
        Some(h) => {
            render::push_three_digits(&mut heading, h);
            assert(heading@ =~= render::three_digits(h as nat));
        },
        None => {
            heading = "unknown".to_owned();
        },
    }
    render::train_body(t, heading.as_str(), pos.from_fixture)
}

/// The headline view: a braille geographic plot of every live train.
pub fn build_map(pos: &Positions, geo: &Geometry, source_name: &str) -> (r: String)
    requires
        geo.valid(),
    ensures
        r@ == trainmap::map_text(pos@, *geo, source_name@),
{
    trainmap::map_page(pos, geo, source_name)
}

/// The about text of a server whose map has the given geometry.
pub open spec fn about_body(geo: Geometry) -> Seq<char> {
    "gopher-cta\n==========\n\n\
    A Gopher (RFC 1436) server that plots live CTA 'L' train positions as a\n\
    Unicode-braille geographic map, projected from lat/lon onto a sub-character\n\
    canvas. Per-line text positions are served under /cta.\n\nCanvas: "@ + text::dec(
        geo.wc as nat,
    ) + "x"@ + text::dec(geo.hc as nat) + " braille cells ("@ + text::dec(geo.wp as nat) + "x"@
        + text::dec(geo.hp as nat)
        + " pixels).\n\
    Projection: km-based bbox map, cos(lat) longitude shrink + terminal\n\
    cell-aspect correction, so the city renders north-up and undistorted.\n\n\
    Built in Rust (tokio). Data from the CTA Train Tracker API.\n\
    Not affiliated with the Chicago Transit Authority.\n"@
}

/// The about text.
pub fn about_text() -> (r: String)
    ensures
        r@ == about_body((Geometry { wc: 48, hc: 30, wp: 96, hp: 120 })),
{
    let geo = project::geometry();
    let mut out =
        "gopher-cta\n==========\n\n\
    A Gopher (RFC 1436) server that plots live CTA 'L' train positions as a\n\
    Unicode-braille geographic map, projected from lat/lon onto a sub-character\n\
    canvas. Per-line text positions are served under /cta.\n\nCanvas: ".to_owned();
    text::push_dec(&mut out, geo.wc as u128);
    out.append("x");
    text::push_dec(&mut out, geo.hc as u128);
    out.append(" braille cells (");
    text::push_dec(&mut out, geo.wp as u128);
    out.append("x");
    text::push_dec(&mut out, geo.hp as u128);
    out.append(
        " pixels).\n\
    Projection: km-based bbox map, cos(lat) longitude shrink + terminal\n\
    cell-aspect correction, so the city renders north-up and undistorted.\n\n\
    Built in Rust (tokio). Data from the CTA Train Tracker API.\n\
    Not affiliated with the Chicago Transit Authority.\n",
    );
    out
}

// ---------- requests ----------

/// Whether a request line is complete: it ends with a line feed, or is longer than
/// any selector should be.
pub fn request_complete(buf: &Vec<u8>) -> (r: bool)
    ensures
        r == ((buf@.len() > 0 && buf@.last() == 10u8) || buf@.len() > 1024),
{
    let n: usize = buf.len();
    (n > 0 && buf[n - 1] == 10u8) || n > 1024
}

/// What [`String::from_utf8_lossy`] makes of bytes.
pub uninterp spec fn lossy(bytes: Seq<u8>) -> Seq<char>;

/// `String::from_utf8_lossy`: bytes as text, with a replacement character for what
/// is not valid UTF-8. The text of valid UTF-8 is what it encodes; which
/// replacements invalid bytes give is left to its name.
#[verifier::external_body]
fn lossy_text(bytes: &Vec<u8>) -> (r: String)
    ensures
        r@ == lossy(bytes@),
        vstd::utf8::valid_utf8(bytes@) ==> r@ == vstd::utf8::decode_utf8(bytes@),
{
    String::from_utf8_lossy(bytes).into_owned()
}

/// The selector in the bytes of a request.
pub fn requested_selector(buf: &Vec<u8>) -> (r: String)
    ensures
        r@ == protocol::selector_of(lossy(buf@)),
        vstd::utf8::valid_utf8(buf@) ==> r@ == protocol::selector_of(
            vstd::utf8::decode_utf8(buf@),
        ),
{
    let raw = lossy_text(buf);
    protocol::parse_selector(raw.as_str()).to_owned()
}

/// Where a selector leads.
#[derive(Debug, Clone)]
pub enum Route {
    Root,
    About,
    TrainMap,
    Cta,
    Line(String),
    Train(String),
    Unknown(String),
}

/// What a [`Route`] holds.
pub enum RouteView {
    Root,
    About,
    TrainMap,
    Cta,
    Line(Seq<char>),
    Train(Seq<char>),
    Unknown(Seq<char>),
}

impl View for Route {
    type V = RouteView;

    open spec fn view(&self) -> RouteView {
        match *self {
            Route::Root => RouteView::Root,
            Route::About => RouteView::About,
            Route::TrainMap => RouteView::TrainMap,
            Route::Cta => RouteView::Cta,
            Route::Line(s) => RouteView::Line(s@),
            Route::Train(s) => RouteView::Train(s@),
            Route::Unknown(s) => RouteView::Unknown(s@),
        }
    }
}

/// A selector without the slashes at its end.
pub open spec fn no_slashes(s: Seq<char>) -> Seq<char>
    decreases s.len(),
{
    if s.len() > 0 && s.last() == '/' {
        no_slashes(s.drop_last())
    } else {
        s
    }
}

/// Where a selector leads: slashes at its end do not matter.
pub open spec fn route_of(selector: Seq<char>) -> RouteView {
    let s = no_slashes(selector);
    if s == ""@ {
        RouteView::Root
    } else if s == "/about"@ {
        RouteView::About
    } else if s == "/map"@ {
        RouteView::TrainMap
    } else if s == "/cta"@ {
        RouteView::Cta
    } else if text::starts_with(s, "/cta/"@) {
        RouteView::Line(s.skip("/cta/"@.len() as int))
    } else if text::starts_with(s, "/train/"@) {
        RouteView::Train(s.skip("/train/"@.len() as int))
    } else {
        RouteView::Unknown(s)
    }
}

/// Where a selector leads.
pub fn find_route(selector: &str) -> (r: Route)
    ensures
        r@ == route_of(selector@),
{
    let v = text::chars_of(selector);
    let mut n: usize = v.len();
    assert(v@.take(n as int) =~= v@);
    while n > 0 && v[n - 1] == '/'
        invariant
            n <= v@.len(),
            v@ == selector@,
            no_slashes(v@.take(n as int)) == no_slashes(selector@),
        decreases n,
    {
        assert(v@.take(n as int).drop_last() =~= v@.take(n - 1));
        assert(v@.take(n as int).last() == v@[n - 1]);
        n = n - 1;
    }
    proof {
        if n > 0 {
            assert(v@.take(n as int).last() == v@[n - 1]);
        }
    }
    let s = selector.substring_char(0, n);
    assert(s@ =~= v@.take(n as int));
    if text::text_eq(s, "") {
        Route::Root
    } else if text::text_eq(s, "/about") {
        Route::About
    } else if text::text_eq(s, "/map") {
        Route::TrainMap
    } else if text::text_eq(s, "/cta") {
        Route::Cta
    } else if let Some(line) = text::after_prefix(s, "/cta/") {
        Route::Line(line.to_owned())
    } else if let Some(run) = text::after_prefix(s, "/train/") {
        Route::Train(run.to_owned())
    } else {
        Route::Unknown(s.to_owned())
    }
}

impl Route {
    /// Whether the answer is made of a positions snapshot.
    pub fn needs_positions(&self) -> (r: bool)
        ensures
            r == (self@ is TrainMap || self@ is Cta || self@ is Line || self@ is Train),
    {
        match self {
            Route::TrainMap => true,
            Route::Cta => true,
            Route::Line(_) => true,
            Route::Train(_) => true,
            _ => false,
        }
    }
}

/// The snapshot that a fetch gave: none of it, without a train, where the fetch
/// failed.
pub fn snapshot(outcome: Result<Positions, String>) -> (p: Positions)
    ensures
        p@ == match outcome {
            Ok(q) => q@,
            Err(_) => transit::no_positions(),
        },
{
    match outcome {
        Ok(p) => p,
        Err(_) => Positions::default(),
    }
}

/// A server's address and the geometry of its map.
pub struct Server {
    pub host: String,
    pub port: u16,
    pub geo: Geometry,
}

/// The text that answers an unknown selector.
pub open spec fn unknown_text(selector: Seq<char>) -> Seq<char> {
    "Unknown selector: "@ + selector + "\r\n\r\nGo back to the root menu."@
}

/// The full wire response to a route.
pub open spec fn response(
    host: Seq<char>,
    port: u16,
    geo: Geometry,
    route: RouteView,
    pos: PositionsView,
    source_name: Seq<char>,
) -> Seq<char> {
    match route {
        RouteView::Root => protocol::menu_wire(root_items(host, port)),
        RouteView::About => protocol::text_wire(
            about_body(Geometry { wc: 48, hc: 30, wp: 96, hp: 120 }),
        ),
        RouteView::TrainMap => protocol::text_wire(trainmap::map_text(pos, geo, source_name)),
        RouteView::Cta => protocol::menu_wire(cta_items(pos.trains, host, port)),
        RouteView::Line(line) => protocol::menu_wire(line_items(pos, line, host, port)),
        RouteView::Train(run) => protocol::text_wire(train_detail(pos, run)),
        RouteView::Unknown(s) => protocol::text_wire(unknown_text(s)),
    }
}

impl Server {
    /// A server at an address, with the service area's geometry.
    pub fn new(host: String, port: u16) -> (r: Server)
        ensures
            r.host == host,
            r.port == port,
            r.geo == (Geometry { wc: 48, hc: 30, wp: 96, hp: 120 }),
            r.geo.valid(),
    {
        Server { host, port, geo: project::geometry() }
    }

    /// The full wire response (menu or text, terminated) to a route. `pos` counts
    /// only where [`Route::needs_positions`] says so.
    pub fn respond(&self, route: &Route, pos: &Positions, source_name: &str) -> (r: String)
        requires
            self.geo.valid(),
        ensures
            r@ == response(self.host@, self.port, self.geo, route@, pos@, source_name@),
    {
        match route {
            Route::Root => build_root(self.host.as_str(), self.port),
            Route::About => {
                let body = about_text();
                protocol::render_text(body.as_str())
            },
            Route::TrainMap => {
                let body = build_map(pos, &self.geo, source_name);
                protocol::render_text(body.as_str())
            },
            Route::Cta => build_cta_menu(pos, self.host.as_str(), self.port),
            Route::Line(line) => build_line_menu(
                pos,
                line.as_str(),
                self.host.as_str(),
                self.port,
            ),
            Route::Train(run) => {
                let body = build_train_text(pos, run.as_str());
                protocol::render_text(body.as_str())
            },
            Route::Unknown(s) => {
                let mut body = "Unknown selector: ".to_owned();
                body.append(s.as_str());
                body.append("\r\n\r\nGo back to the root menu.");
                protocol::render_text(body.as_str())
            },
        }
    }
}

// ---------- laws of the server ----------

/// Whatever is asked, the answer ends with the terminator.
pub proof fn law_every_response_is_terminated(
    host: Seq<char>,
    port: u16,
    geo: Geometry,
    selector: Seq<char>,
    pos: PositionsView,
    source_name: Seq<char>,
)
    ensures
        protocol::ends_with(
            response(host, port, geo, route_of(selector), pos, source_name),
            ".\r\n"@,
        ),
{
    let none = Seq::<MenuItemView>::empty();
    match route_of(selector) {
        RouteView::Root => {
            protocol::law_every_reply_is_terminated(root_items(host, port), ""@);
        },
        RouteView::About => {
            protocol::law_every_reply_is_terminated(
                none,
                about_body(Geometry { wc: 48, hc: 30, wp: 96, hp: 120 }),
            );
        },
        RouteView::TrainMap => {
            protocol::law_every_reply_is_terminated(none, trainmap::map_text(pos, geo, source_name));
        },
        RouteView::Cta => {
            protocol::law_every_reply_is_terminated(cta_items(pos.trains, host, port), ""@);
        },
        RouteView::Line(line) => {
            protocol::law_every_reply_is_terminated(line_items(pos, line, host, port), ""@);
        },
        RouteView::Train(run) => {
            protocol::law_every_reply_is_terminated(none, train_detail(pos, run));
        },
        RouteView::Unknown(s) => {
            protocol::law_every_reply_is_terminated(none, unknown_text(s));
        },
    }
}

/// Slashes at the end of a selector do not matter: the empty selector and `/` both
/// lead to the root, and so on.
pub proof fn law_trailing_slashes_do_not_matter(selector: Seq<char>)
    ensures
        route_of(selector.push('/')) == route_of(selector),
{
    assert(selector.push('/').drop_last() =~= selector);
}

/// The links of the server's menus lead where they say: a line's selector to its
/// menu and a train's to its page, where key and run are not empty and do not end
/// with a slash.
pub proof fn law_links_lead_where_they_say(s: Seq<char>)
    requires
        s.len() > 0,
        s.last() != '/',
    ensures
        route_of("/cta/"@ + s) == RouteView::Line(s),
        route_of("/train/"@ + s) == RouteView::Train(s),
        route_of("/map"@) == RouteView::TrainMap,
        route_of("/cta"@) == RouteView::Cta,
        route_of("/about"@) == RouteView::About,
        route_of(""@) == RouteView::Root,
{
    reveal_strlit("");
    reveal_strlit("/about");
    reveal_strlit("/map");
    reveal_strlit("/cta");
    reveal_strlit("/cta/");
    reveal_strlit("/train/");
    let a = "/cta/"@ + s;
    let b = "/train/"@ + s;
    assert(a.last() == s.last());
    assert(b.last() == s.last());
    assert(a.take(5) =~= "/cta/"@);
    assert(a.skip(5) =~= s);
    assert(b.take(7) =~= "/train/"@);
    assert(b.skip(7) =~= s);
    assert(a[4] == '/' && b[4] == 'i');
    assert("/cta"@[1] == 'c' && "/map"@[1] == 'm' && "/about"@[1] == 'a');
    assert(a[1] == 'c' && b[1] == 't');
    assert(b.take(5)[1] == 't' && "/cta/"@[1] == 'c');
    assert("/about"@.last() == 't' && "/map"@.last() == 'p' && "/cta"@.last() == 'a');
}

/// A line's menu says that the line is unknown exactly where it is: no train runs on
/// it, and it is not on the board.
pub proof fn law_only_unknown_lines_are_called_so(
    pos: PositionsView,
    line: Seq<char>,
    host: Seq<char>,
    port: u16,
)
    ensures
        line_items(pos, line, host, port).contains(
            protocol::info_item(render::unknown_notice(line)),
        ) <==> render::on_line(pos.trains, line).len() == 0 && !transit::line_keys().contains(line),
{
    let all = render::on_line(pos.trains, line);
    let trains = render::by_run(all);
    render::law_listing_keeps_every_train(all, line);
    render::notice_is_unlike_the_rest(line, trains.len());
    let notice = protocol::info_item(render::unknown_notice(line));
    let e = line_items(pos, line, host, port);
    if trains.len() == 0 && !transit::line_keys().contains(line) {
        assert(e[2] == notice);
    } else {
        assert forall|i: int| 0 <= i < e.len() implies e[i] != notice by {
            if trains.len() > 0 && 4 <= i < 4 + trains.len() {
                assert(e[i] == train_item(trains[i - 4], host, port));
            }
        }
    }
}

/// A detail page gives a position where the run is in the feed, and none where it is
/// not, unless the run number itself holds the word.
pub proof fn law_only_running_trains_have_a_position(pos: PositionsView, run: Seq<char>)
    ensures
        text::holds(train_detail(pos, run), "position:"@) <==> render::first_with_run(
            pos.trains,
            run,
        ) is Some || text::holds(run, "position:"@),
{
    match render::first_with_run(pos.trains, run) {
        Some(t) => {
            render::train_text_gives_position(t, heading_text(t), pos.from_fixture);
        },
        None => {
            render::gone_text_gives_no_position(run);
        },
    }
}

} // verus!
