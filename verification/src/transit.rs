//! Transit data sources: the train model, the feed's wire shapes, and the rules
//! that turn one into the other.
//!
//! The CTA JSON-from-XML conversion collapses single-element arrays into bare
//! objects, so every list field of the feed is "one or many" ([`OneOrMany`]).

use crate::text;
use vstd::prelude::*;
use vstd::string::StringExecFns;

verus! {

// ---------- the train model ----------

/// A single train with everything the map and per-line views need.
#[derive(Debug, Clone, PartialEq)]
pub struct Train {
    /// Route key: "red", "blue", "brn", ...
    pub line: String,
    /// Run number.
    pub run: String,
    /// Destination name.
    pub dest: String,
    /// Next station name.
    pub next_station: String,
    /// Latitude, in the units of [`crate::project`].
    pub lat: i64,
    /// Longitude, in the units of [`crate::project`].
    pub lon: i64,
    /// Heading in degrees, clockwise from north.
    pub heading: Option<u16>,
    /// Predicted arrival at the next station.
    pub arr_time: Option<String>,
    pub approaching: bool,
    pub delayed: bool,
}

/// A snapshot of all live trains plus the feed's own timestamp.
#[derive(Debug, Clone)]
pub struct Positions {
    pub trains: Vec<Train>,
    pub feed_time: Option<String>,
    /// True when these came from the bundled fixture rather than the live API.
    pub from_fixture: bool,
}

/// What a [`Train`] holds.
pub struct TrainView {
    pub line: Seq<char>,
    pub run: Seq<char>,
    pub dest: Seq<char>,
    pub next_station: Seq<char>,
    pub lat: i64,
    pub lon: i64,
    pub heading: Option<u16>,
    pub arr_time: Option<Seq<char>>,
    pub approaching: bool,
    pub delayed: bool,
}

/// What a [`Positions`] snapshot holds.
pub struct PositionsView {
    pub trains: Seq<TrainView>,
    pub feed_time: Option<Seq<char>>,
    pub from_fixture: bool,
}

/// The characters of an optional text.
pub open spec fn opt_view(o: Option<String>) -> Option<Seq<char>> {
    match o {
        Some(s) => Some(s@),
        None => None,
    }
}

/// The characters of an optional text, none where it is missing.
pub open spec fn or_empty(o: Option<String>) -> Seq<char> {
    match o {
        Some(s) => s@,
        None => Seq::empty(),
    }
}

impl View for Train {
    type V = TrainView;

    open spec fn view(&self) -> TrainView {
        TrainView {
            line: self.line@,
            run: self.run@,
            dest: self.dest@,
            next_station: self.next_station@,
            lat: self.lat,
            lon: self.lon,
            heading: self.heading,
            arr_time: opt_view(self.arr_time),
            approaching: self.approaching,
            delayed: self.delayed,
        }
    }
}

/// What each train of a list holds.
pub open spec fn train_views(v: Seq<Train>) -> Seq<TrainView> {
    v.map_values(|t: Train| t@)
}

impl View for Positions {
    type V = PositionsView;

    open spec fn view(&self) -> PositionsView {
        PositionsView {
            trains: train_views(self.trains@),
            feed_time: opt_view(self.feed_time),
            from_fixture: self.from_fixture,
        }
    }
}

/// A snapshot without a train and without a timestamp.
pub open spec fn no_positions() -> PositionsView {
    PositionsView { trains: Seq::empty(), feed_time: None, from_fixture: false }
}

impl Default for Positions {
    fn default() -> (r: Self)
        ensures
            r@ == no_positions(),
    {
        let r = Positions { trains: Vec::new(), feed_time: None, from_fixture: false };
        assert(r@.trains =~= no_positions().trains);
        r
    }
}

// ---------- the feed's wire shapes ----------

/// A list field of the feed: a bare object where the list has one element.
#[derive(Debug, Clone)]
pub enum OneOrMany<T> {
    One(T),
    Many(Vec<T>),
}

impl<T> OneOrMany<T> {
    /// The elements, in order.
    pub open spec fn elements(self) -> Seq<T> {
        match self {
            OneOrMany::One(x) => seq![x],
            OneOrMany::Many(v) => v@,
        }
    }

    /// The elements as a list.
    pub fn into_vec(self) -> (r: Vec<T>)
        ensures
            r@ == self.elements(),
    {
        match self {
            OneOrMany::One(x) => {
                let mut v: Vec<T> = Vec::new();
                v.push(x);
                assert(v@ =~= seq![x]);
                v
            },
            OneOrMany::Many(v) => v,
        }
    }
}

/// The elements of an optional list field: none where it is missing.
pub open spec fn flattened<T>(o: Option<OneOrMany<T>>) -> Seq<T> {
    match o {
        Some(x) => x.elements(),
        None => Seq::empty(),
    }
}

/// The elements of an optional list field as a list.
pub fn flat<T>(o: Option<OneOrMany<T>>) -> (r: Vec<T>)
    ensures
        r@ == flattened(o),
{
    match o {
        Some(x) => x.into_vec(),
        None => Vec::new(),
    }
}

/// The body of a positions reply.
pub struct PosResp {
    pub ctatt: PosCtatt,
}

/// The envelope of a positions reply: timestamp, error and routes.
pub struct PosCtatt {
    pub tmst: Option<String>,
    pub err_cd: Option<String>,
    pub err_nm: Option<String>,
    pub route: Option<OneOrMany<RawRoute>>,
}

/// One route of a positions reply.
pub struct RawRoute {
    pub name: String,
    pub train: Option<OneOrMany<RawTrain>>,
}

/// One train of a positions reply. A coordinate is `None` where the feed sends
/// none, or sends a text that is no number.
pub struct RawTrain {
    pub rn: Option<String>,
    pub dest_nm: Option<String>,
    pub next_sta_nm: Option<String>,
    pub arr_t: Option<String>,
    pub is_app: Option<String>,
    pub is_dly: Option<String>,
    pub lat: Option<i64>,
    pub lon: Option<i64>,
    pub heading: Option<String>,
}

/// Whether a flag of the feed is set.
pub open spec fn is_truthy(s: Option<String>) -> bool {
    s matches Some(t) && (t@ == "1"@ || t@ == "true"@)
}

/// Whether a flag of the feed is set: `1` or `true`.
pub fn truthy(s: &Option<String>) -> (r: bool)
    ensures
        r == is_truthy(*s),
{
    match s {
        Some(t) => text::text_eq(t.as_str(), "1") || text::text_eq(t.as_str(), "true"),
        None => false,
    }
}

/// The heading that the feed's text writes out, if it writes out one.
pub open spec fn heading_of(h: Option<String>) -> Option<u16> {
    match h {
        Some(t) => match text::parsed_uint(t@, u16::MAX as nat) {
            Some(n) => Some(n as u16),
            None => None,
        },
        None => None,
    }
}

/// The train that a feed entry of route `line` describes: none where it has no
/// usable position.
pub open spec fn train_of(line: Seq<char>, t: RawTrain) -> Option<TrainView> {
    match (t.lat, t.lon) {
        (Some(lat), Some(lon)) => Some(
            TrainView {
                line,
                run: or_empty(t.rn),
                dest: or_empty(t.dest_nm),
                next_station: or_empty(t.next_sta_nm),
                lat,
                lon,
                heading: heading_of(t.heading),
                arr_time: opt_view(t.arr_t),
                approaching: is_truthy(t.is_app),
                delayed: is_truthy(t.is_dly),
            },
        ),
        _ => None,
    }
}

/// The trains of the feed entries of route `line`, in feed order, those without a
/// usable position left out.
pub open spec fn trains_of(line: Seq<char>, ts: Seq<RawTrain>) -> Seq<TrainView>
    decreases ts.len(),
{
    if ts.len() == 0 {
        Seq::empty()
    } else {
        let before = trains_of(line, ts.drop_last());
        match train_of(line, ts.last()) {
            Some(t) => before.push(t),
            None => before,
        }
    }
}

/// The trains of all routes, in feed order.
pub open spec fn trains_of_routes(routes: Seq<RawRoute>) -> Seq<TrainView>
    decreases routes.len(),
{
    if routes.len() == 0 {
        Seq::empty()
    } else {
        trains_of_routes(routes.drop_last()) + trains_of(
            routes.last().name@,
            flattened(routes.last().train),
        )
    }
}

/// Whether the feed reports an error: an error code other than `0`.
pub open spec fn is_error(c: PosCtatt) -> bool {
    c.err_cd matches Some(code) && code@ != "0"@
}

/// What a positions reply says: the feed's own error text, or the trains.
pub open spec fn parsed_positions(resp: PosResp) -> Result<PositionsView, Seq<char>> {
    let c = resp.ctatt;
    if is_error(c) {
        Err(
            match c.err_nm {
                Some(e) => e@,
                None => "CTA error"@,
            },
        )
    } else {
        Ok(
            PositionsView {
                trains: trains_of_routes(flattened(c.route)),
                feed_time: opt_view(c.tmst),
                from_fixture: false,
            },
        )
    }
}

/// Whether an outcome is the stated one, by what it holds.
pub open spec fn outcome_is(
    r: Result<Positions, String>,
    want: Result<PositionsView, Seq<char>>,
) -> bool {
    match (r, want) {
        (Ok(p), Ok(v)) => p@ == v,
        (Err(e), Err(v)) => e@ == v,
        _ => false,
    }
}

/// The text in `o`, or an empty one.
fn text_or_empty(o: &Option<String>) -> (r: String)
    ensures
        r@ == or_empty(*o),
{
    match o {
        Some(s) => s.clone(),
        None => String::new(),
    }
}

/// A copy of an optional text.
pub fn copy_opt(o: &Option<String>) -> (r: Option<String>)
    ensures
        opt_view(r) == opt_view(*o),
{
    match o {
        Some(s) => Some(s.clone()),
        None => None,
    }
}

/// The train that a feed entry describes, if it has a usable position.
fn read_train(line: &str, t: &RawTrain) -> (r: Option<Train>)
    ensures
        match r {
            Some(x) => train_of(line@, *t) == Some(x@),
            None => train_of(line@, *t) is None,
        },
{
    let (lat, lon) = match (t.lat, t.lon) {
        (Some(lat), Some(lon)) => (lat, lon),
        _ => {
            return None;
        },
    };
    let heading: Option<u16> = match &t.heading {
        Some(h) => match text::parse_uint(h.as_str(), 65535) {
            Some(n) => Some(n as u16),
            None => None,
        },
        None => None,
    };
    Some(
        Train {
            line: line.to_owned(),
            run: text_or_empty(&t.rn),
            dest: text_or_empty(&t.dest_nm),
            next_station: text_or_empty(&t.next_sta_nm),
            lat,
            lon,
            heading,
            arr_time: copy_opt(&t.arr_t),
            approaching: truthy(&t.is_app),
            delayed: truthy(&t.is_dly),
        },
    )
}

/// Turn a positions reply into a flat list of trains. Trains missing a usable
/// lat/lon are dropped (they can't be plotted and have no map value).
pub fn parse_positions(resp: PosResp) -> (r: Result<Positions, String>)
    ensures
        outcome_is(r, parsed_positions(resp)),
{
    let ctatt = resp.ctatt;
    let failed = match &ctatt.err_cd {
        Some(code) => !text::text_eq(code.as_str(), "0"),
        None => false,
    };
    if failed {
        return Err(
            match &ctatt.err_nm {
                Some(e) => e.clone(),
                None => "CTA error".to_owned(),
            },
        );
    }
    let feed_time = copy_opt(&ctatt.tmst);
    let routes = flat(ctatt.route);
    let ghost all = routes@;
    let mut trains: Vec<Train> = Vec::new();
    let mut i: usize = 0;
    assert(train_views(trains@) =~= trains_of_routes(all.take(0)));
    while i < routes.len()
        invariant
            routes@ == all,
            i <= all.len(),
            train_views(trains@) == trains_of_routes(all.take(i as int)),
        decreases all.len() - i,
    {
        read_route(&routes[i], &mut trains);
        assert(all.take(i + 1).drop_last() =~= all.take(i as int));
        i = i + 1;
    }
    assert(all.take(i as int) =~= all);
    Ok(Positions { trains, feed_time, from_fixture: false })
}

/// Appends the train that a feed entry describes, if it has a usable position.
fn push_train(line: &str, t: &RawTrain, trains: &mut Vec<Train>)
    ensures
        train_views(final(trains)@) == match train_of(line@, *t) {
            Some(x) => train_views(old(trains)@).push(x),
            None => train_views(old(trains)@),
        },
{
    match read_train(line, t) {
        Some(x) => {
            trains.push(x);
            assert(train_views(trains@) =~= train_views(old(trains)@).push(x@));
        },
        None => {},
    }
}

/// Appends the trains of one route.
fn read_route(route: &RawRoute, trains: &mut Vec<Train>)
    ensures
        train_views(final(trains)@) == train_views(old(trains)@) + trains_of(
            route.name@,
            flattened(route.train),
        ),
{
    let ghost before = train_views(trains@);
    match &route.train {
        None => {
            assert(train_views(trains@) =~= before + trains_of(route.name@, Seq::empty()));
        },
        Some(OneOrMany::One(t)) => {
            let ghost ts = flattened(route.train);
            assert(ts.drop_last() =~= Seq::<RawTrain>::empty());
            push_train(route.name.as_str(), t, trains);
            reveal_with_fuel(trains_of, 2);
            assert(train_views(trains@) =~= before + trains_of(route.name@, ts));
        },
        Some(OneOrMany::Many(v)) => {
            let mut k: usize = 0;
            assert(train_views(trains@) =~= before + trains_of(route.name@, v@.take(0)));
            while k < v.len()
                invariant
                    k <= v@.len(),
                    train_views(trains@) == before + trains_of(route.name@, v@.take(k as int)),
                decreases v@.len() - k,
            {
                push_train(route.name.as_str(), &v[k], trains);
                assert(v@.take(k + 1).drop_last() =~= v@.take(k as int));
                k = k + 1;
                assert(train_views(trains@) =~= before + trains_of(
                    route.name@,
                    v@.take(k as int),
                ));
            }
            assert(v@.take(k as int) =~= v@);
        },
    }
}

// ---------- route keys ----------

/// The 'L' route keys in board order.
pub open spec fn line_keys() -> Seq<Seq<char>> {
    seq!["red"@, "blue"@, "brn"@, "g"@, "org"@, "p"@, "pink"@, "y"@]
}

/// The routes fetched unless the configuration names others.
pub fn default_routes() -> (r: Vec<String>)
    ensures
        text::views(r@) == line_keys(),
{
    let mut v: Vec<String> = Vec::new();
    v.push("red".to_owned());
    v.push("blue".to_owned());
    v.push("brn".to_owned());
    v.push("g".to_owned());
    v.push("org".to_owned());
    v.push("p".to_owned());
    v.push("pink".to_owned());
    v.push("y".to_owned());
    assert(text::views(v@) =~= line_keys());
    v
}

/// The routes that the configuration asks for: the comma-separated keys, each
/// without the blanks around it, or the default ones where it names none.
pub open spec fn configured_routes(raw: Option<String>) -> Seq<Seq<char>> {
    match raw {
        Some(s) if s@.len() > 0 => text::split_on(s@, ',').map_values(
            |r: Seq<char>| text::trimmed(r),
        ),
        _ => line_keys(),
    }
}

/// The routes to fetch, from the configured list.
pub fn route_keys(raw: &Option<String>) -> (r: Vec<String>)
    ensures
        text::views(r@) == configured_routes(*raw),
{
    let s = match raw {
        Some(s) => s,
        None => {
            return default_routes();
        },
    };
    if s.as_str().is_empty() {
        return default_routes();
    }
    let parts = text::split(s.as_str(), ',');
    let mut out: Vec<String> = Vec::new();
    let mut i: usize = 0;
    let ghost want = configured_routes(*raw);
    while i < parts.len()
        invariant
            i <= parts@.len(),
            out@.len() == i,
            want.len() == parts@.len(),
            forall|j: int|
                0 <= j < want.len() ==> #[trigger] want[j] == text::trimmed(parts@[j]@),
            forall|j: int| 0 <= j < i ==> #[trigger] out@[j]@ == want[j],
        decreases parts@.len() - i,
    {
        out.push(text::trim(parts[i].as_str()).to_owned());
        i = i + 1;
    }
    assert(text::views(out@) =~= want);
    out
}

/// The API key in effect: a configured one that is not empty.
pub fn api_key(raw: Option<String>) -> (r: Option<String>)
    ensures
        r == match raw {
            Some(k) if k@.len() > 0 => raw,
            _ => None::<String>,
        },
{
    match raw {
        Some(k) => if k.as_str().is_empty() {
            None
        } else {
            Some(k)
        },
        None => None,
    }
}

// ---------- CTA ----------

/// The CTA Train Tracker: its key, its routes and the recorded reply that stands
/// in for the live one.
pub struct CtaSource {
    pub key: Option<String>,
    pub routes: Vec<String>,
    pub fixture: String,
}

/// What a fetch gives: the live reply where there is one that parses, else the
/// recorded one, marked as such.
pub open spec fn settled(
    live: Option<Result<PosResp, String>>,
    fixture: Result<PosResp, String>,
) -> Result<PositionsView, Seq<char>> {
    match live {
        Some(Ok(resp)) if parsed_positions(resp) is Ok => parsed_positions(resp),
        _ => match fixture {
            Ok(resp) => match parsed_positions(resp) {
                Ok(p) => Ok(PositionsView { from_fixture: true, ..p }),
                Err(e) => Err(e),
            },
            Err(e) => Err(e@),
        },
    }
}

impl CtaSource {
    /// Build a CTA source. `key` is the Train Tracker API key (None => offline
    /// fixture mode). `fixture` is the recorded reply used both as the offline
    /// data and as a fallback if a live fetch fails.
    pub fn new(key: Option<String>, routes: Vec<String>, fixture: String) -> (r: Self)
        ensures
            r.key == key,
            r.routes == routes,
            r.fixture == fixture,
    {
        CtaSource { key, routes, fixture }
    }

    /// Human label for menus.
    pub fn name(&self) -> (r: &'static str)
        ensures
            r@ == "CTA 'L'"@,
    {
        "CTA 'L'"
    }

    /// The routes as a request parameter.
    pub fn route_param(&self) -> (r: String)
        ensures
            r@ == text::joined(text::views(self.routes@), ","@),
    {
        text::join(&self.routes, ",")
    }

    /// The address of the live reply: none without a key.
    pub fn live_url(&self) -> (r: Option<String>)
        ensures
            match self.key {
                Some(key) => r matches Some(u) && u@
                    == "https://lapi.transitchicago.com/api/1.0/ttpositions.aspx?key="@ + key@
                    + "&rt="@ + text::joined(text::views(self.routes@), ","@)
                    + "&outputType=JSON"@,
                None => r is None,
            },
    {
        match &self.key {
            Some(key) => {
                let mut u = "https://lapi.transitchicago.com/api/1.0/ttpositions.aspx?key=".to_owned();
                u.append(key.as_str());
                u.append("&rt=");
                let rt = self.route_param();
                u.append(rt.as_str());
                u.append("&outputType=JSON");
                Some(u)
            },
            None => None,
        }
    }

    /// The positions of a fetch. With a key, `live` is what the live fetch gave; on
    /// any failure of it the recorded reply takes its place, so the map always
    /// renders something. Without a key only the recorded reply counts.
    pub fn positions(
        &self,
        live: Option<Result<PosResp, String>>,
        fixture: Result<PosResp, String>,
    ) -> (r: Result<Positions, String>)
        ensures
            outcome_is(
                r,
                settled(
                    if self.key is Some {
                        live
                    } else {
                        None
                    },
                    fixture,
                ),
            ),
            self.key is None && r is Ok ==> r->Ok_0@.from_fixture,
            live matches Some(Ok(resp)) ==> self.key is Some && parsed_positions(resp) is Ok
                ==> outcome_is(r, parsed_positions(resp)),
            r is Err && fixture is Err ==> r->Err_0@ == fixture->Err_0@,
    {
        if self.key.is_some() {
            if let Some(Ok(resp)) = live {
                if let Ok(p) = parse_positions(resp) {
                    return Ok(p);
                }
            }
        }
        match fixture {
            Ok(resp) => match parse_positions(resp) {
                Ok(p) => Ok(
                    Positions { trains: p.trains, feed_time: p.feed_time, from_fixture: true },
                ),
                Err(e) => Err(e),
            },
            Err(e) => Err(e),
        }
    }
}

/// A usable recorded reply makes every fetch succeed, whatever became of the live
/// one: the tree is always produced.
pub proof fn law_fixture_backs_every_fetch(
    live: Option<Result<PosResp, String>>,
    fixture: Result<PosResp, String>,
)
    requires
        fixture matches Ok(resp) && parsed_positions(resp) is Ok,
    ensures
        settled(live, fixture) is Ok,
        (live matches Some(Ok(resp)) && parsed_positions(resp) is Ok) <==> !(settled(
            live,
            fixture,
        )->Ok_0.from_fixture),
{
}

// ---------- Metra (stub) ----------

/// The extension point for a second agency: it reports no trains, so a caller
/// iterating over sources degrades gracefully.
pub struct MetraSource;

impl MetraSource {
    /// Human label for menus.
    pub fn name(&self) -> (r: &'static str)
        ensures
            r@ == "Metra (unimplemented)"@,
    {
        "Metra (unimplemented)"
    }

    /// No trains.
    pub fn positions(&self) -> (r: Result<Positions, String>)
        ensures
            outcome_is(r, Ok(no_positions())),
    {
        Ok(Positions::default())
    }
}

} // verus!
