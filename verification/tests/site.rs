//! The pages, menus and trees of a recorded snapshot over a sample overlay.

use gopher_cta::atlas::{self, Area, Atlas, Expressway, GeoData, Landmark, Meta, River, Shoreline};
use gopher_cta::chargrid::CharGrid;
use gopher_cta::fetch::{self, Config, Next, Step};
use gopher_cta::gph;
use gopher_cta::narration::{self, NarrationView, Panel, PanelKind, PollState};
use gopher_cta::page;
use gopher_cta::project;
use gopher_cta::protocol;
use gopher_cta::render::{self, Entry, ItemKind, MapBase};
use gopher_cta::server::{self, Route, Server};
use gopher_cta::text;
use gopher_cta::trainmap;
use gopher_cta::transit::{
    self, parse_positions, CtaSource, MetraSource, OneOrMany, PosCtatt, PosResp, Positions,
    RawRoute, RawTrain,
};
use gopher_cta::tree::{self, Snapshot, StaticFiles, TreeItem};
use serde_json::Value;

const FIXTURE: &str = r#"{"ctatt": {"tmst": "2026-06-21T02:14:30", "errCd": "0", "errNm": null, "route": [
{"@name": "red", "train": [
  {"rn": "801", "destNm": "Howard", "nextStaNm": "Loyola", "arrT": "2026-06-21T02:17:00", "isApp": "0", "isDly": "0", "lat": "42.00857", "lon": "-87.66145", "heading": "358"},
  {"rn": "812", "destNm": "95th/Dan Ryan", "nextStaNm": "Belmont", "arrT": "2026-06-21T02:15:00", "isApp": "1", "isDly": "0", "lat": "41.93975", "lon": "-87.65338", "heading": "178"},
  {"rn": "823", "destNm": "Howard", "nextStaNm": "Lake", "arrT": "2026-06-21T02:16:00", "isApp": "0", "isDly": "0", "lat": "41.87882", "lon": "-87.62763", "heading": "1"},
  {"rn": "834", "destNm": "95th/Dan Ryan", "nextStaNm": "Garfield", "arrT": "2026-06-21T02:18:00", "isApp": "0", "isDly": "0", "lat": "41.80117", "lon": "-87.63105", "heading": "180"},
  {"rn": "845", "destNm": "Howard", "nextStaNm": "87th", "arrT": "2026-06-21T02:16:00", "isApp": "0", "isDly": "0", "lat": "41.72938", "lon": "-87.62447", "heading": "0"}
]},
{"@name": "blue", "train": [
  {"rn": "121", "destNm": "O'Hare", "nextStaNm": "Logan Square", "arrT": "2026-06-21T02:16:00", "isApp": "0", "isDly": "0", "lat": "41.92160", "lon": "-87.69689", "heading": "320"},
  {"rn": "137", "destNm": "Forest Park", "nextStaNm": "Racine", "arrT": "2026-06-21T02:15:00", "isApp": "1", "isDly": "0", "lat": "41.87592", "lon": "-87.65940", "heading": "268"},
  {"rn": "153", "destNm": "O'Hare", "nextStaNm": "Jefferson Park", "arrT": "2026-06-21T02:19:00", "isApp": "0", "isDly": "1", "lat": "41.95992", "lon": "-87.74320", "heading": "301"},
  {"rn": "168", "destNm": "Forest Park", "nextStaNm": "Cicero", "arrT": "2026-06-21T02:17:00", "isApp": "0", "isDly": "0", "lat": "41.87178", "lon": "-87.73450", "heading": "270"}
]},
{"@name": "brn", "train": [
  {"rn": "401", "destNm": "Kimball", "nextStaNm": "Southport", "arrT": "2026-06-21T02:16:00", "isApp": "0", "isDly": "0", "lat": "41.94335", "lon": "-87.65890", "heading": "272"},
  {"rn": "412", "destNm": "Loop", "nextStaNm": "Sedgwick", "arrT": "2026-06-21T02:15:00", "isApp": "1", "isDly": "0", "lat": "41.91050", "lon": "-87.63890", "heading": "182"}
]},
{"@name": "g", "train": [
  {"rn": "009", "destNm": "Harlem/Lake", "nextStaNm": "Ashland", "arrT": "2026-06-21T02:16:00", "isApp": "0", "isDly": "0", "lat": "41.88528", "lon": "-87.66310", "heading": "271"},
  {"rn": "016", "destNm": "Cottage Grove", "nextStaNm": "51st", "arrT": "2026-06-21T02:17:00", "isApp": "0", "isDly": "0", "lat": "41.80510", "lon": "-87.61850", "heading": "179"}
]},
{"@name": "org", "train": [
  {"rn": "701", "destNm": "Midway", "nextStaNm": "Pulaski", "arrT": "2026-06-21T02:17:00", "isApp": "0", "isDly": "0", "lat": "41.80030", "lon": "-87.71850", "heading": "225"},
  {"rn": "712", "destNm": "Loop", "nextStaNm": "Halsted", "arrT": "2026-06-21T02:16:00", "isApp": "0", "isDly": "0", "lat": "41.84610", "lon": "-87.65520", "heading": "45"}
]},
{"@name": "p", "train": 
  {"rn": "501", "destNm": "Linden", "nextStaNm": "Davis", "arrT": "2026-06-21T02:16:00", "isApp": "0", "isDly": "0", "lat": "42.04360", "lon": "-87.68150", "heading": "340"}},
{"@name": "pink", "train": 
  {"rn": "301", "destNm": "54th/Cermak", "nextStaNm": "Polk", "arrT": "2026-06-21T02:16:00", "isApp": "0", "isDly": "0", "lat": "41.87020", "lon": "-87.66960", "heading": "180"}},
{"@name": "y", "train": 
  {"rn": "601", "destNm": "Howard", "nextStaNm": "Howard", "arrT": "2026-06-21T02:18:00", "isApp": "0", "isDly": "0", "lat": "42.02010", "lon": "-87.69420", "heading": "120"}}
]}}"#;

const OVERLAY: &str = r##"{"meta": {"name": "Chicago"},
"shoreline": {"name": "Lake Michigan shoreline", "points": [
    [42.0650, -87.6770], [42.0450, -87.6710], [42.0230, -87.6640], [42.0050, -87.6570],
    [41.9880, -87.6520], [41.9710, -87.6420], [41.9540, -87.6360], [41.9370, -87.6310],
    [41.9180, -87.6270], [41.9000, -87.6190], [41.8880, -87.6110], [41.8720, -87.6170],
    [41.8500, -87.6090], [41.8230, -87.5980], [41.7900, -87.5780], [41.7580, -87.5500],
    [41.7120, -87.5250]]},
"expressways": [
  {"name": "I-90/94 Kennedy + Dan Ryan", "points": [
    [41.9830, -87.8400], [41.9660, -87.7600], [41.9500, -87.7270], [41.9300, -87.6880],
    [41.9120, -87.6650], [41.8900, -87.6470], [41.8750, -87.6450], [41.8480, -87.6420],
    [41.8100, -87.6310], [41.7680, -87.6260], [41.7200, -87.6240]]},
  {"name": "I-290 Eisenhower", "points": [
    [41.8755, -87.6400], [41.8740, -87.7000], [41.8710, -87.7700], [41.8690, -87.8500]]},
  {"name": "I-55 Stevenson", "points": [
    [41.8470, -87.6200], [41.8350, -87.6800], [41.8180, -87.7300], [41.7980, -87.7900]]},
  {"name": "US-41 Lake Shore Drive", "points": [
    [41.9860, -87.6560], [41.9450, -87.6400], [41.9100, -87.6260], [41.8800, -87.6170],
    [41.8300, -87.6060], [41.7850, -87.5820]]}
],
"rivers": [
  {"name": "Chicago River (main stem)", "points": [
    [41.8885, -87.6130], [41.8870, -87.6270], [41.8860, -87.6380]]},
  {"name": "North Branch", "points": [
    [41.8860, -87.6380], [41.9050, -87.6480], [41.9300, -87.6750], [41.9600, -87.6930]]},
  {"name": "South Branch", "points": [
    [41.8860, -87.6380], [41.8650, -87.6350], [41.8480, -87.6450], [41.8420, -87.6700]]}
],
"areas": [
  {"code": "EVN", "name": "Evanston", "lat": 42.0451, "lon": -87.6877},
  {"code": "ROG", "name": "Rogers Park", "lat": 42.0106, "lon": -87.6696},
  {"code": "UPT", "name": "Uptown", "lat": 41.9665, "lon": -87.6533},
  {"code": "JEF", "name": "Jefferson Park", "lat": 41.9697, "lon": -87.7635},
  {"code": "LGS", "name": "Logan Square", "lat": 41.9231, "lon": -87.7093},
  {"code": "OAK", "name": "Oak Park", "lat": 41.885, "lon": -87.7845},
  {"code": "PIL", "name": "Pilsen", "lat": 41.856, "lon": -87.66},
  {"code": "ENG", "name": "Englewood", "lat": 41.779, "lon": -87.644},
  {"code": "BEV", "name": "Beverly", "lat": 41.7182, "lon": -87.672}
],
"landmarks": [
  {"name": "Willis Tower", "marker": "W", "code": "WIL", "lat": 41.8789, "lon": -87.6359, "category": "skyline"},
  {"name": "875 North Michigan", "marker": "H", "code": "HAN", "lat": 41.8988, "lon": -87.6229, "category": "skyline"},
  {"name": "Navy Pier", "marker": "N", "code": "NVP", "lat": 41.8917, "lon": -87.6086, "category": "lakefront"},
  {"name": "Cloud Gate", "marker": "B", "code": "BEA", "lat": 41.8827, "lon": -87.6233, "category": "public art"},
  {"name": "Field Museum", "marker": "F", "code": "FLD", "lat": 41.8663, "lon": -87.617, "category": "museum"},
  {"name": "Museum of Science and Industry", "marker": "M", "code": "MSI", "lat": 41.7906, "lon": -87.583, "category": "museum"},
  {"name": "Wrigley Field", "marker": "R", "code": "WRG", "lat": 41.9484, "lon": -87.6553, "category": "ballpark"},
  {"name": "White Sox ballpark", "marker": "S", "code": "SOX", "lat": 41.8299, "lon": -87.6338, "category": "ballpark"},
  {"name": "United Center", "marker": "U", "code": "UNC", "lat": 41.8807, "lon": -87.6742, "category": "arena"},
  {"name": "Lincoln Park Zoo", "marker": "L", "code": "LPZ", "lat": 41.9211, "lon": -87.634, "category": "park"},
  {"name": "Garfield Park Conservatory", "marker": "K", "code": "GPC", "lat": 41.8864, "lon": -87.7173, "category": "park"},
  {"name": "University of Chicago", "marker": "C", "code": "UCH", "lat": 41.7886, "lon": -87.5987, "category": "campus"},
  {"name": "Midway (MDW)", "marker": "D", "code": "MDW", "lat": 41.7868, "lon": -87.7522, "category": "airport"},
  {"name": "O'Hare (ORD)", "marker": "O", "code": "ORD", "lat": 41.9742, "lon": -87.9073, "category": "airport"}
]}"##;

// ---------- reading the sample data ----------

/// A coordinate in the library's units.
fn units(v: f64) -> i64 {
    (v * project::DEGREE as f64) as i64
}

fn opt_text(v: &Value, key: &str) -> Option<String> {
    v.get(key).and_then(|x| x.as_str()).map(|s| s.to_string())
}

fn opt_units(v: &Value, key: &str) -> Option<i64> {
    opt_text(v, key).and_then(|s| s.parse::<f64>().ok()).map(units)
}

fn raw_train(v: &Value) -> RawTrain {
    RawTrain {
        rn: opt_text(v, "rn"),
        dest_nm: opt_text(v, "destNm"),
        next_sta_nm: opt_text(v, "nextStaNm"),
        arr_t: opt_text(v, "arrT"),
        is_app: opt_text(v, "isApp"),
        is_dly: opt_text(v, "isDly"),
        lat: opt_units(v, "lat"),
        lon: opt_units(v, "lon"),
        heading: opt_text(v, "heading"),
    }
}

fn one_or_many<T>(v: Option<&Value>, read: fn(&Value) -> T) -> Option<OneOrMany<T>> {
    match v {
        Some(Value::Array(a)) => Some(OneOrMany::Many(a.iter().map(read).collect())),
        Some(Value::Object(_)) => v.map(|x| OneOrMany::One(read(x))),
        _ => None,
    }
}

fn raw_route(v: &Value) -> RawRoute {
    RawRoute {
        name: opt_text(v, "@name").unwrap(),
        train: one_or_many(v.get("train"), raw_train),
    }
}

fn reply(body: &str) -> PosResp {
    let v: Value = serde_json::from_str(body).unwrap();
    let c = v.get("ctatt").unwrap();
    PosResp {
        ctatt: PosCtatt {
            tmst: opt_text(c, "tmst"),
            err_cd: opt_text(c, "errCd"),
            err_nm: opt_text(c, "errNm"),
            route: one_or_many(c.get("route"), raw_route),
        },
    }
}

fn fixture_positions() -> Positions {
    let mut p = parse_positions(reply(FIXTURE)).unwrap();
    p.from_fixture = true;
    p
}

fn points(v: &Value) -> Vec<[i64; 2]> {
    v.get("points")
        .unwrap()
        .as_array()
        .unwrap()
        .iter()
        .map(|p| {
            [
                units(p[0].as_f64().unwrap()),
                units(p[1].as_f64().unwrap()),
            ]
        })
        .collect()
}

fn list(v: &Value, key: &str) -> Vec<Value> {
    v.get(key).unwrap().as_array().unwrap().clone()
}

fn degrees(v: &Value, key: &str) -> i64 {
    units(v.get(key).unwrap().as_f64().unwrap())
}

fn overlay() -> GeoData {
    let v: Value = serde_json::from_str(OVERLAY).unwrap();
    GeoData {
        meta: Meta {
            name: opt_text(v.get("meta").unwrap(), "name").unwrap(),
        },
        shoreline: Shoreline {
            name: opt_text(v.get("shoreline").unwrap(), "name").unwrap(),
            points: points(v.get("shoreline").unwrap()),
        },
        expressways: list(&v, "expressways")
            .iter()
            .map(|r| Expressway {
                name: opt_text(r, "name").unwrap(),
                points: points(r),
            })
            .collect(),
        rivers: list(&v, "rivers")
            .iter()
            .map(|r| River { points: points(r) })
            .collect(),
        areas: list(&v, "areas")
            .iter()
            .map(|a| Area {
                code: opt_text(a, "code").unwrap(),
                name: opt_text(a, "name").unwrap(),
                lat: degrees(a, "lat"),
                lon: degrees(a, "lon"),
            })
            .collect(),
        landmarks: list(&v, "landmarks")
            .iter()
            .map(|m| Landmark {
                name: opt_text(m, "name").unwrap(),
                marker: opt_text(m, "marker").unwrap().chars().next().unwrap(),
                code: opt_text(m, "code").unwrap(),
                lat: degrees(m, "lat"),
                lon: degrees(m, "lon"),
                category: opt_text(m, "category").unwrap(),
            })
            .collect(),
    }
}

fn sample_atlas() -> Atlas {
    Atlas::build(overlay(), project::geometry())
}

fn sample_base() -> MapBase {
    MapBase::build(&overlay(), &project::geometry())
}

fn sample_files() -> StaticFiles {
    StaticFiles {
        caps: b"CAPS\r\n\r\nCapsVersion=1\r\nPathDelimeter=/\r\nPathKeepPreDelimeter=FALSE\r\nServerSoftware=geomyidae\r\n".to_vec(),
        robots: b"User-agent: *\nDisallow: /train/\n".to_vec(),
        src_archive: None,
    }
}

/// The grid body of a map or atlas page: the lines between the dashed rules.
fn body_lines(page: &str) -> Vec<&str> {
    page.lines()
        .skip_while(|l| !l.starts_with("---"))
        .skip(1)
        .take_while(|l| !l.starts_with("---"))
        .collect()
}

// ---------- transit ----------

#[test]
fn parses_fixture_into_trains() {
    let pos = parse_positions(reply(FIXTURE)).unwrap();
    // 5 red + 4 blue + 2 brn + 2 g + 2 org + 1 p + 1 pink + 1 y = 18
    assert_eq!(pos.trains.len(), 18);
    assert_eq!(pos.feed_time.as_deref(), Some("2026-06-21T02:14:30"));
}

#[test]
fn one_or_many_handles_single_train() {
    let pos = parse_positions(reply(FIXTURE)).unwrap();
    let yellow: Vec<_> = pos.trains.iter().filter(|t| t.line == "y").collect();
    assert_eq!(yellow.len(), 1);
    assert_eq!(yellow[0].run, "601");
    assert_eq!(yellow[0].dest, "Howard");
}

#[test]
fn flags_and_coords_parse() {
    let pos = parse_positions(reply(FIXTURE)).unwrap();
    let delayed: Vec<_> = pos.trains.iter().filter(|t| t.delayed).collect();
    assert_eq!(delayed.len(), 1); // blue run 153
    assert_eq!(delayed[0].run, "153");
    let app: Vec<_> = pos.trains.iter().filter(|t| t.approaching).collect();
    assert_eq!(app.len(), 3);
    let r801 = pos.trains.iter().find(|t| t.run == "801").unwrap();
    let one = project::DEGREE as f64;
    assert!((r801.lat as f64 / one - 42.00857).abs() < 1e-6);
    assert!((r801.lon as f64 / one - (-87.66145)).abs() < 1e-6);
    assert_eq!(r801.heading, Some(358));
}

#[test]
fn cta_error_payload_is_an_error() {
    let body = r#"{"ctatt":{"errCd":"107","errNm":"Invalid API key","route":null}}"#;
    assert!(parse_positions(reply(body)).is_err());
}

#[test]
fn error_without_a_text_has_a_default_one() {
    let body = r#"{"ctatt":{"errCd":"107","route":null}}"#;
    assert_eq!(parse_positions(reply(body)).unwrap_err(), "CTA error");
    let body = r#"{"ctatt":{"errCd":"107","errNm":"Invalid API key","route":null}}"#;
    assert_eq!(parse_positions(reply(body)).unwrap_err(), "Invalid API key");
    let body = r#"{"ctatt":{"errCd":"0","route":null}}"#;
    assert!(parse_positions(reply(body)).unwrap().trains.is_empty());
}

#[test]
fn trains_without_a_position_are_dropped() {
    let body = r#"{"ctatt":{"route":{"@name":"red","train":[
        {"rn":"1","lat":"41.9","lon":"-87.6","heading":"x","isApp":"true"},
        {"rn":"2","lat":"north","lon":"-87.6"},
        {"rn":"3","lat":"41.9"},
        {"lat":"41.9","lon":"-87.6","heading":"+90"}]}}}"#;
    let pos = parse_positions(reply(body)).unwrap();
    assert_eq!(pos.trains.len(), 2);
    assert_eq!(pos.trains[0].run, "1");
    assert_eq!(pos.trains[0].heading, None);
    assert!(pos.trains[0].approaching && !pos.trains[0].delayed);
    assert_eq!(pos.trains[1].run, "");
    assert_eq!(pos.trains[1].heading, Some(90));
    assert_eq!(pos.feed_time, None);
}

#[test]
fn cta_source_falls_back_to_fixture_without_key() {
    let src = CtaSource::new(None, transit::default_routes(), FIXTURE.to_string());
    let pos = src.positions(None, Ok(reply(FIXTURE))).unwrap();
    assert!(pos.from_fixture);
    assert_eq!(pos.trains.len(), 18);
    assert_eq!(src.live_url(), None);
    assert_eq!(src.name(), "CTA 'L'");
}

#[test]
fn live_reply_wins_and_a_failed_one_falls_back() {
    let src = CtaSource::new(
        Some("KEY".to_string()),
        vec!["red".to_string(), "y".to_string()],
        FIXTURE.to_string(),
    );
    assert_eq!(src.route_param(), "red,y");
    assert_eq!(
        src.live_url().unwrap(),
        "https://lapi.transitchicago.com/api/1.0/ttpositions.aspx?key=KEY&rt=red,y&outputType=JSON"
    );
    let empty = r#"{"ctatt":{"tmst":"now"}}"#;
    let live = src
        .positions(Some(Ok(reply(empty))), Ok(reply(FIXTURE)))
        .unwrap();
    assert!(!live.from_fixture && live.trains.is_empty());
    let failed = src
        .positions(Some(Err("timeout".to_string())), Ok(reply(FIXTURE)))
        .unwrap();
    assert!(failed.from_fixture && failed.trains.len() == 18);
    let error = r#"{"ctatt":{"errCd":"107"}}"#;
    let refused = src
        .positions(Some(Ok(reply(error))), Ok(reply(FIXTURE)))
        .unwrap();
    assert!(refused.from_fixture);
    assert!(src.positions(None, Ok(reply(error))).is_err());
    assert_eq!(
        src.positions(None, Err("bad file".to_string())).unwrap_err(),
        "bad file"
    );
    // Without a key a live reply does not count.
    let keyless = CtaSource::new(None, vec![], String::new());
    assert!(keyless
        .positions(Some(Ok(reply(empty))), Ok(reply(FIXTURE)))
        .unwrap()
        .from_fixture);
}

#[test]
fn metra_stub_is_empty() {
    let pos = MetraSource.positions().unwrap();
    assert!(pos.trains.is_empty());
    assert_eq!(MetraSource.name(), "Metra (unimplemented)");
}

#[test]
fn configured_routes_and_key() {
    assert_eq!(transit::route_keys(&None), transit::default_routes());
    assert_eq!(
        transit::route_keys(&Some(String::new())),
        transit::default_routes()
    );
    assert_eq!(
        transit::route_keys(&Some(" red , blue,".to_string())),
        vec!["red", "blue", ""]
    );
    assert_eq!(transit::api_key(Some(String::new())), None);
    assert_eq!(transit::api_key(None), None);
    assert_eq!(
        transit::api_key(Some("k".to_string())),
        Some("k".to_string())
    );
}

// ---------- menus ----------

#[test]
fn root_menu_links_map_and_each_line() {
    let entries = render::root_menu(&fixture_positions(), false, None);
    // map link
    assert!(entries.iter().any(|e| matches!(e,
        Entry::Link { kind: ItemKind::Text, selector, .. } if selector == "/map.txt")));
    // one menu link per line, pointing at /<line>
    for k in render::line_order() {
        let want = render::line_selector(k);
        assert!(
            entries.iter().any(|e| matches!(e,
                Entry::Link { kind: ItemKind::Menu, selector, .. } if *selector == want)),
            "missing line link {k}"
        );
    }
}

#[test]
fn line_menu_lists_red_trains_as_links() {
    let entries = render::line_menu(&fixture_positions(), "red");
    // header info present
    assert!(entries
        .iter()
        .any(|e| matches!(e, Entry::Info(s) if s == "Red Line -- live trains")));
    assert!(entries
        .iter()
        .any(|e| matches!(e, Entry::Info(s) if s.contains("5 train(s) running"))));
    // five type-0 train links with the expected selectors and displays
    let links: Vec<_> = entries
        .iter()
        .filter_map(|e| match e {
            Entry::Link {
                kind: ItemKind::Text,
                display,
                selector,
                ..
            } => Some((display.as_str(), selector.as_str())),
            _ => None,
        })
        .collect();
    assert_eq!(links.len(), 5);
    // Run 801 is en route to Howard; its next stop (Loyola) is folded in.
    assert!(links.iter().any(|(d, s)| *s == "/train/801.txt"
        && d.starts_with("Run 801")
        && d.contains("Howard")
        && d.contains("next Loyola")));
    // Run 812 is approaching: the row names the station, not a bare flag.
    assert!(links
        .iter()
        .any(|(d, s)| *s == "/train/812.txt" && d.contains("approaching ")));
    for run in ["801", "812", "823", "834", "845"] {
        assert!(
            links
                .iter()
                .any(|(_, sel)| *sel == format!("/train/{run}.txt")),
            "missing /train/{run}.txt"
        );
    }
    assert_eq!(
        links[0].0,
        "Run 801   -> Howard         next Loyola"
    );
}

#[test]
fn render_line_menu_unknown_line() {
    let entries = render::line_menu(&fixture_positions(), "chartreuse");
    assert!(entries
        .iter()
        .any(|e| matches!(e, Entry::Info(s) if s.contains("Unknown line"))));
    // no train links for a bogus line
    assert!(!entries.iter().any(|e| matches!(e, Entry::Link { .. })));
}

#[test]
fn known_line_without_trains_says_so() {
    let entries = render::line_menu(&Positions::default(), "red");
    assert_eq!(
        entries[2],
        Entry::Info("No trains currently reporting on this line.".to_string())
    );
    assert_eq!(entries.len(), 3);
}

#[test]
fn listing_is_sorted_by_run_and_stable() {
    let mut pos = fixture_positions();
    let mut a = pos.trains[0].clone();
    a.run = "10".to_string();
    a.dest = "first".to_string();
    let mut b = a.clone();
    b.dest = "second".to_string();
    let mut c = a.clone();
    c.run = "9".to_string();
    c.next_station = "  ".to_string();
    c.dest = "third".to_string();
    pos.trains = vec![c.clone(), a, b];
    let rows: Vec<String> = render::line_menu(&pos, "red")
        .into_iter()
        .filter_map(|e| match e {
            Entry::Link { display, .. } => Some(display),
            _ => None,
        })
        .collect();
    // Code-point order of the run numbers; equal runs in feed order.
    assert_eq!(
        rows,
        vec![
            "Run 10    -> first          next Loyola",
            "Run 10    -> second         next Loyola",
            "Run 9     -> third",
        ]
    );
    c.delayed = true;
    pos.trains = vec![c.clone()];
    assert!(
        matches!(&render::line_menu(&pos, "red")[4], Entry::Link { display, .. }
        if display == "Run 9     -> third          DELAYED")
    );
    c.next_station = " Lake ".to_string();
    c.approaching = true;
    pos.trains = vec![c.clone()];
    assert!(
        matches!(&render::line_menu(&pos, "red")[4], Entry::Link { display, .. }
        if display == "Run 9     -> third          DELAYED, next Lake")
    );
    c.delayed = false;
    c.next_station = String::new();
    pos.trains = vec![c];
    assert!(
        matches!(&render::line_menu(&pos, "red")[4], Entry::Link { display, .. }
        if display == "Run 9     -> third          approaching")
    );
}

#[test]
fn line_ansi256_distinct_per_line() {
    assert_eq!(render::line_ansi256("red"), 196);
    assert_ne!(render::line_ansi256("red"), render::line_ansi256("blue"));
    assert_eq!(render::line_ansi256("unknown"), 244);
}

#[test]
fn line_labels_and_colors() {
    assert_eq!(render::line_label("brn"), "Brown");
    assert_eq!(render::line_label("pexp"), "Purple");
    assert_eq!(render::line_label("zzz"), "zzz");
    assert_eq!(render::line_color("org"), "#f9461c");
    assert_eq!(render::line_color("zzz"), "#888888");
}

#[test]
fn cardinal8_points() {
    assert_eq!(render::cardinal8(0), "N");
    assert_eq!(render::cardinal8(358), "N");
    assert_eq!(render::cardinal8(45), "NE");
    assert_eq!(render::cardinal8(90), "E");
    assert_eq!(render::cardinal8(180), "S");
    assert_eq!(render::cardinal8(270), "W");
}

// ---------- train pages ----------

#[test]
fn train_page_valid_id() {
    let text = render::train_page(&fixture_positions(), "801");
    assert!(text.starts_with("Run 801 -- Red Line"));
    assert!(text.contains("line:        Red (#c60c30)"));
    assert!(text.contains("destination: Howard"));
    assert!(text.contains("next stop:   Loyola"));
    assert!(text.contains("predicted 2026-06-21T02:17:00"));
    assert!(text.contains("heading 358 (N)"));
    assert!(text.contains("position:    42.00857, -87.66145   heading"));
}

#[test]
fn train_page_approaching_status() {
    let text = render::train_page(&fixture_positions(), "812");
    assert!(text.contains("status:      approaching"));
}

#[test]
fn train_page_unknown_id() {
    let text = render::train_page(&fixture_positions(), "9999");
    assert!(text.starts_with("Run 9999 -- no longer reporting"));
    assert!(!text.contains("position:"));
}

#[test]
fn train_page_whole_text() {
    let mut pos = fixture_positions();
    let t = pos.trains.iter_mut().find(|t| t.run == "801").unwrap();
    t.heading = Some(7);
    t.arr_time = None;
    let want = format!(
        "Run 801 -- Red Line\n{}\n\nline:        Red (#c60c30)\nstatus:      en route\n\
         destination: Howard\nposition:    42.00857, -87.66145   heading 007 (N)\n\
         next stop:   Loyola\n\nThe CTA positions feed reports only the next stop, so the full\n\
         upcoming-stop sequence isn't available here without a separate\n\
         per-station query.\n\n(offline demo data from bundled fixture)\n",
        "=".repeat(40)
    );
    assert_eq!(render::train_page(&pos, "801"), want);
    assert!(server::build_train_text(&pos, "801").contains("heading 007\n"));
}

// ---------- the braille map ----------

#[test]
fn map_page_has_braille_and_footer() {
    let text = render::map_page(&fixture_positions(), &project::geometry(), "CTA 'L'");
    assert!(text
        .chars()
        .any(|c| (0x2800..=0x28FF).contains(&(c as u32))));
    assert!(text.contains("18 trains plotted of 18 reporting"));
    assert!(text.contains("legend"));
    assert!(text.contains("offline fixture"));
}

#[test]
fn map_ansi_colours_braille_plain_does_not() {
    let geo = project::geometry();
    let base = sample_base();
    let plain = render::map_page(&fixture_positions(), &geo, "CTA 'L'");
    let ansi = render::map_page_ansi(&base, &fixture_positions(), &geo, "CTA 'L'");
    assert!(!plain.contains('\x1b'), "plain map must be ESC-free");
    assert!(ansi.contains("\x1b[38;5;"), "ansi map must carry SGR codes");
    // still a braille plot underneath
    assert!(ansi
        .chars()
        .any(|c| (0x2800..=0x28FF).contains(&(c as u32))));
}

#[test]
fn map_ansi_overlays_geo_skeleton_plain_does_not() {
    let geo = project::geometry();
    let base = sample_base();
    // Even with no trains, the coloured map carries the static skeleton.
    let ansi = render::map_page_ansi(&base, &Positions::default(), &geo, "CTA 'L'");
    assert!(
        ansi.contains("\x1b[38;5;44m"),
        "water (cyan: coast + river) missing from ANSI map overlay"
    );
    // Place-name labels render in white over the plot, even with no trains.
    assert!(
        ansi.contains("\x1b[38;5;231m"),
        "place-name labels (white) missing from ANSI map overlay"
    );
    assert!(ansi.contains("overlay: water"));
    // Inline place codes + a decode legend.
    assert!(ansi.contains("places (code -> name)"));
    assert!(ansi.contains("MDW  Midway"), "Midway code/legend missing");
    // The plain map stays a pure-train view: no overlay, no geo dots.
    let plain = render::map_page(&Positions::default(), &geo, "CTA 'L'");
    assert!(
        !plain.contains("overlay:"),
        "plain map must not name an overlay"
    );
    let plain_grid: String = body_lines(&plain).concat();
    assert!(
        plain_grid.chars().all(|c| c == '\u{2800}'),
        "plain map grid must be blank braille with no trains/geo"
    );
}

#[test]
fn map_base_rasterizes_geo_into_braille() {
    let base = sample_base();
    // The base canvas has non-blank cells (the shoreline/river/expressways).
    let painted = base
        .canvas
        .render()
        .chars()
        .filter(|&c| (0x2801..=0x28FF).contains(&(c as u32)))
        .count();
    assert!(painted > 0, "geo skeleton left no dots on the base canvas");
    // ...and matching coloured cells in the base palette.
    assert!(base.colors.contains(&trainmap::GEO_COAST_COLOR)); // coast + river share this cyan
    assert!(base.colors.contains(&trainmap::GEO_ROAD_COLOR));
    // The static label layer carries the place names (lake + anchors).
    assert!(
        base.labels.iter().any(|l| l.is_some()),
        "no place-name labels were placed on the base"
    );
}

#[test]
fn map_page_row_count_matches_geometry() {
    let geo = project::geometry();
    let text = render::map_page(&fixture_positions(), &geo, "CTA 'L'");
    let braille_rows = text
        .lines()
        .filter(|l| l.chars().any(|c| (0x2800..=0x28FF).contains(&(c as u32))))
        .count();
    assert_eq!(braille_rows, geo.hc);
}

#[test]
fn map_lights_exactly_the_trains() {
    let geo = project::geometry();
    let pos = fixture_positions();
    let page = render::map_page(&pos, &geo, "CTA 'L'");
    let rows: Vec<Vec<char>> = body_lines(&page).iter().map(|l| l.chars().collect()).collect();
    assert!(rows.iter().all(|r| r.len() == geo.wc));
    for y in 0..geo.hp {
        for x in 0..geo.wp {
            let bits = (rows[y / 4][x / 2] as u32 - 0x2800) as u8;
            let lit = bits & gopher_cta::braille::dot_bit(x % 2, y % 4) != 0;
            let train = pos
                .trains
                .iter()
                .any(|t| project::project(t.lat, t.lon, &geo) == Some((x, y)));
            assert_eq!(lit, train, "pixel ({x}, {y})");
        }
    }
}

#[test]
fn off_map_trains_are_named() {
    let mut pos = fixture_positions();
    pos.trains[2].lat = units(40.0);
    pos.trains[4].lon = units(-86.0);
    let page = render::map_page(&pos, &project::geometry(), "CTA 'L'");
    assert!(page.contains("16 trains plotted of 18 reporting."));
    assert_eq!(page::dropped_runs(&pos), vec!["823", "845"]);
    assert!(page::dropped_runs(&fixture_positions()).is_empty());
}

#[test]
fn last_train_tints_its_cell() {
    let geo = project::geometry();
    let base = sample_base();
    let mut pos = fixture_positions();
    pos.trains.truncate(2);
    for t in pos.trains.iter_mut() {
        t.lat = units(41.70);
        t.lon = units(-87.80);
    }
    pos.trains[1].line = "y".to_string();
    let page = render::map_page_ansi(&base, &pos, &geo, "CTA 'L'");
    assert!(page.contains("\x1b[38;5;226m"));
    assert!(!page.contains("\x1b[38;5;196m"));
}

#[test]
fn labels_land_whole_or_not_at_all() {
    let geo = project::geometry();
    let mut labels: Vec<Option<(char, u8)>> = vec![None; geo.wc * geo.hc];
    assert!(trainmap::place_label(&mut labels, &geo, 3, 1, "ABC", 7));
    assert_eq!(labels[geo.wc + 3], Some(('A', 7)));
    assert_eq!(labels[geo.wc + 5], Some(('C', 7)));
    let before = labels.clone();
    // Overlap: dropped whole.
    assert!(!trainmap::place_label(&mut labels, &geo, 5, 1, "XYZ", 9));
    assert_eq!(labels, before);
    // Clipped at the right edge, and at the left one.
    let edge = geo.wc as i32 - 1;
    assert!(trainmap::place_label(&mut labels, &geo, edge, 0, "PQ", 9));
    assert_eq!(labels[geo.wc - 1], Some(('P', 9)));
    assert!(trainmap::place_label(&mut labels, &geo, -1, 2, "RS", 9));
    assert_eq!(labels[2 * geo.wc], Some(('S', 9)));
    // Rows outside the frame.
    assert!(!trainmap::place_label(&mut labels, &geo, 0, -1, "T", 9));
    assert!(!trainmap::place_label(&mut labels, &geo, 0, geo.hc as i32, "T", 9));
}

#[test]
fn lake_label_reserves_its_column() {
    let geo = project::geometry();
    let mut labels: Vec<Option<(char, u8)>> = vec![None; geo.wc * geo.hc];
    trainmap::place_lake_label(&mut labels, &geo);
    let column: String = (0..geo.hc)
        .filter_map(|r| labels[r * geo.wc + geo.wc - 2].map(|l| l.0))
        .collect();
    assert_eq!(column, "LAKE MICHIGAN");
    assert_eq!(labels.iter().filter(|l| l.is_some()).count(), 13);
}

// ---------- the atlas ----------

#[test]
fn geo_json_parses() {
    let geo = overlay();
    assert_eq!(geo.shoreline.points.len(), 17);
    assert_eq!(geo.landmarks.len(), 14);
    // Mnemonic markers come from the data and are unique.
    let willis = geo
        .landmarks
        .iter()
        .find(|m| m.name == "Willis Tower")
        .unwrap();
    assert_eq!(willis.marker, 'W');
    let field = geo
        .landmarks
        .iter()
        .find(|m| m.name == "Field Museum")
        .unwrap();
    assert_eq!(field.marker, 'F');
    let markers: std::collections::HashSet<char> =
        geo.landmarks.iter().map(|m| m.marker).collect();
    assert_eq!(markers.len(), 14, "landmark markers must be unique");
    assert_eq!(geo.expressways.len(), 4);
    assert!(geo.expressways[0].name.contains("90/94"));
    assert_eq!(geo.expressways[0].points.len(), 11);
    let road_names: Vec<&str> = geo.expressways.iter().map(|r| r.name.as_str()).collect();
    assert!(road_names.iter().any(|n| n.contains("Eisenhower")));
    assert!(road_names.iter().any(|n| n.contains("Stevenson")));
    assert!(road_names.iter().any(|n| n.contains("Lake Shore")));
    assert_eq!(geo.rivers.len(), 3);
    assert!(geo.rivers.iter().all(|r| r.points.len() >= 2));
}

#[test]
fn project_cell_collapses_the_train_projection() {
    let geom = project::geometry();
    // The same call the trains use, collapsed to a char cell.
    let (px, py) = project::project(units(41.88), units(-87.63), &geom).unwrap();
    assert_eq!(
        atlas::project_cell(units(41.88), units(-87.63), &geom),
        Some(((px / 2) as i32, (py / 4) as i32))
    );
}

#[test]
fn atlas_base_shows_shoreline_and_landmarks_without_trains() {
    let atlas = sample_atlas();
    // No trains, so nothing overwrites the static layers.
    let body = atlas.render(&Positions::default(), "CTA 'L'");
    assert!(body.contains('#'), "shoreline marker missing from grid");
    assert!(body.contains("0 trains plotted of 0 reporting"));
    assert!(body.contains("of 14 landmarks shown"));
    // A marker with an isolated cell (Midway, far SW) is listed by mnemonic.
    assert!(body.contains("  D  Midway (MDW)"));
    // The off-bbox O'Hare is filtered out, not floated in the legend.
    assert!(!body.contains("O'Hare"));
}

#[test]
fn atlas_labels_the_lake() {
    let geom = project::geometry();
    let atlas = sample_atlas();
    let body = atlas.render(&Positions::default(), "CTA 'L'");
    assert!(body.contains("north up; west = city, east = Lake Michigan"));
    // The label is painted vertically at column wc-2; read that column down the
    // grid body (between the dashed rules): it spells the lake's name.
    let column: String = body_lines(&body)
        .iter()
        .filter_map(|l| l.chars().nth(geom.wc - 2))
        .filter(|c| *c != ' ')
        .collect();
    assert!(column.contains("LAKEMICHIGAN"), "got column {column:?}");
}

#[test]
fn atlas_plots_fixture_trains_and_legend() {
    let atlas = sample_atlas();
    let body = atlas.render(&fixture_positions(), "CTA 'L'");
    assert!(body.starts_with("CTA 'L' -- geographic atlas"));
    assert!(
        ['^', '>', 'v', '<', 'o'].iter().any(|&c| body.contains(c)),
        "no train heading marker on the grid"
    );
    assert!(body.contains("18 trains plotted of 18 reporting"));
    assert!(body.contains("offline fixture"));
    // Legend present, listing only the visible markers.
    assert!(body.contains("LANDMARKS"));
    assert!(body.contains("of 14 landmarks shown"));
    // Per-line counts mirror the braille map.
    assert!(body.contains("legend (trains per line):"));
    assert!(body.contains("Red      5"));
}

#[test]
fn landmarks_menu_links_every_landmark() {
    let atlas = sample_atlas();
    let menu = atlas.landmarks_menu();
    // All 14 landmarks present as type-0 links to /landmark/<marker>.txt.
    let links: Vec<_> = menu
        .iter()
        .filter_map(|e| match e {
            Entry::Link {
                kind: ItemKind::Text,
                display,
                selector,
                ..
            } => Some((display.as_str(), selector.as_str())),
            _ => None,
        })
        .collect();
    assert_eq!(links.len(), 14);
    assert!(links
        .iter()
        .any(|(d, s)| d.contains("Willis Tower") && *s == "/landmark/W.txt"));
    assert!(links.iter().any(|(_, s)| *s == "/landmark/F.txt")); // Field Museum
}

#[test]
fn landmark_page_known_and_unknown() {
    let atlas = sample_atlas();
    let willis = atlas.landmark_page('W');
    assert!(willis.starts_with("Willis Tower"));
    assert!(willis.contains("category:     skyline"));
    assert!(willis.contains("atlas marker: W"));
    assert!(willis.contains("position:     41.87890, -87.63590"));
    // Unknown marker -> clean notice, no panic.
    let bogus = atlas.landmark_page('Z');
    assert!(bogus.starts_with("Unknown landmark 'Z'"));
}

#[test]
fn atlas_draws_expressways() {
    let atlas = sample_atlas();
    let body = atlas.render(&Positions::default(), "CTA 'L'");
    // A road glyph appears in the grid body (between the dashed rules).
    let grid: String = body_lines(&body).join("\n");
    assert!(
        ['=', '|', '/', '\\'].iter().any(|&c| grid.contains(c)),
        "no expressway glyph in the grid"
    );
    // The legend names the route.
    assert!(body.contains("expressways"));
    assert!(body.contains("Kennedy + Dan Ryan"));
}

#[test]
fn atlas_ansi_colours_grid_plain_does_not() {
    let atlas = sample_atlas();
    let plain = atlas.render(&fixture_positions(), "CTA 'L'");
    let ansi = atlas.render_ansi(&fixture_positions(), "CTA 'L'");
    assert!(!plain.contains('\x1b'), "plain atlas must be ESC-free");
    // Shoreline is always drawn, so its water colour is always present.
    assert!(ansi.contains("\x1b[38;5;44m"), "shoreline colour missing");
    // Same plain legend in both.
    assert!(ansi.contains("LANDMARKS"));
    assert!(ansi.contains("18 trains plotted of 18 reporting"));
}

#[test]
fn a_train_covers_a_landmark_and_its_legend_line() {
    let atlas = sample_atlas();
    let mut pos = fixture_positions();
    let midway = overlay().landmarks.into_iter().find(|m| m.marker == 'D').unwrap();
    pos.trains.truncate(1);
    pos.trains[0].lat = midway.lat;
    pos.trains[0].lon = midway.lon;
    pos.trains[0].heading = None;
    let body = atlas.render(&pos, "CTA 'L'");
    assert!(!body.contains("  D  Midway (MDW)"));
    assert!(body_lines(&body).concat().contains('o'));
    // The menu and the page are still there.
    assert!(atlas.landmark_page('D').starts_with("Midway (MDW)"));
}

#[test]
fn a_train_does_not_break_the_lake_label() {
    let geom = project::geometry();
    let atlas = sample_atlas();
    let mut pos = fixture_positions();
    let t = pos.trains[0].clone();
    pos.trains.clear();
    // Trains all over the far-east columns.
    for k in 0..400 {
        let mut x = t.clone();
        x.lat = units(41.65 + 0.42 * (k % 100) as f64 / 100.0);
        x.lon = units(-87.47 + 0.005 * (k / 100) as f64);
        pos.trains.push(x);
    }
    let body = atlas.render(&pos, "CTA 'L'");
    let column: String = body_lines(&body)
        .iter()
        .filter_map(|l| l.chars().nth(geom.wc - 2))
        .collect();
    for c in "LAKEMICHIGAN".chars() {
        assert!(column.contains(c), "letter {c} missing from {column:?}");
    }
}

#[test]
fn char_grid_of_a_clone_is_its_own() {
    let a = CharGrid::new(2, 1);
    let mut b = a.clone();
    b.put(0, 0, 'x', 1, 0);
    assert_eq!(a.render(), "");
    assert_eq!(b.render(), "x");
}

// ---------- narration ----------

#[test]
fn due_cadence() {
    assert!(narration::due(None, 1000, 60)); // never fetched -> due
    assert!(!narration::due(Some(1000), 1030, 60)); // 30s < 60s -> not due
    assert!(narration::due(Some(1000), 1060, 60)); // exactly the interval -> due
}

#[test]
fn fmt_age_buckets() {
    assert_eq!(narration::fmt_age(None, 1000), "not yet retrieved");
    assert_eq!(narration::fmt_age(Some(1000), 1042), "updated 42s ago");
    assert_eq!(narration::fmt_age(Some(1000), 1300), "updated 5m ago");
    assert_eq!(narration::fmt_age(Some(1000), 1000 + 7200), "updated 2h ago");
    assert_eq!(narration::fmt_age(Some(1000), 900), "updated 0s ago");
    assert_eq!(narration::fmt_age(Some(0), 89), "updated 89s ago");
    assert_eq!(narration::fmt_age(Some(0), 90), "updated 1m ago");
    assert_eq!(narration::fmt_age(Some(0), 5399), "updated 89m ago");
    assert_eq!(narration::fmt_age(Some(0), 5400), "updated 1h ago");
}

#[test]
fn dispatch_page_has_summary_and_feed_stats() {
    let view = NarrationView {
        dispatch: Panel {
            summary: "Service running well system-wide.".into(),
            updated_at: Some(900),
        },
        ..Default::default()
    };
    let page = narration::dispatch_page(&view, &fixture_positions(), 942);
    assert!(page.starts_with("CTA 'L' -- dispatch"));
    assert!(page.contains("Service running well system-wide."));
    assert!(page.contains("trains reporting : 18"));
    assert!(page.contains("approaching      : 3")); // fixture has 3 approaching
    assert!(page.contains("delayed          : 1")); // fixture has 1 delayed
    assert!(page.contains("last feed        : 2026-06-21T02:14:30"));
    assert!(page.contains("updated 42s ago"));
}

#[test]
fn dispatch_page_placeholder_without_narration() {
    let page = narration::dispatch_page(&NarrationView::default(), &fixture_positions(), 1000);
    assert!(page.contains("dispatch narration unavailable"));
    // feed stats still render: the page is useful without the AI text.
    assert!(page.contains("trains reporting : 18"));
    assert!(page.contains("not yet retrieved"));
}

#[test]
fn sitrep_page_shows_station_and_body() {
    let view = NarrationView {
        sitrep: Panel {
            summary: "Minor delays inbound.".into(),
            updated_at: Some(500),
        },
        home_name: "Kedzie".into(),
        ..Default::default()
    };
    let page = narration::sitrep_page(&view, 560);
    assert!(page.starts_with("CTA 'L' -- SITREP"));
    assert!(page.contains("station: Kedzie"));
    assert!(page.contains("Minor delays inbound."));
    assert!(page.contains("source: AI alerts summary"));
}

#[test]
fn events_page_placeholder() {
    let page = narration::events_page(&NarrationView::default(), 1000);
    assert!(page.starts_with("CTA 'L' -- event advisory"));
    assert!(page.contains("no event advisory available"));
    assert!(page.contains("AI events advisory"));
}

#[test]
fn urlenc_encodes_spaces_and_slash() {
    assert_eq!(narration::urlenc("Kedzie"), "Kedzie");
    assert_eq!(narration::urlenc("95th/Dan Ryan"), "95th%2FDan%20Ryan");
    assert_eq!(narration::urlenc("a-_.~Z9é%"), "a-_.~Z9%C3%A9%25");
    // Part by part, and unchanged only where every byte is unreserved.
    assert_eq!(narration::urlenc("95th/") + &narration::urlenc("Dan Ryan"), "95th%2FDan%20Ryan");
    assert_eq!(narration::urlenc("a-_.~Z9"), "a-_.~Z9");
    assert_eq!(narration::urlenc(""), "");
    assert_eq!(narration::urlenc("\n\u{7f}"), "%0A%7F");
}

#[test]
fn poller_asks_for_what_is_due() {
    let mut state = PollState::new();
    let all = narration::poll(&mut state, 1000, "41070", "95th/Dan Ryan");
    let paths: Vec<&str> = all.iter().map(|r| r.path.as_str()).collect();
    assert_eq!(
        paths,
        vec![
            "/api/feed/narration",
            "/api/alerts/summary?station=41070&stn=95th%2FDan%20Ryan",
            "/api/events/advisory",
        ]
    );
    assert!(narration::poll(&mut state, 1030, "41070", "x").is_empty());
    let next = narration::poll(&mut state, 1060, "41070", "x");
    assert_eq!(next.len(), 1);
    assert_eq!(next[0].kind, PanelKind::Dispatch);
    assert_eq!(narration::poll(&mut state, 1300, "41070", "x").len(), 2);
    assert_eq!(narration::poll(&mut state, 2800, "41070", "x").len(), 3);
}

#[test]
fn replies_that_count_and_those_that_do_not() {
    let resp = |s: Option<&str>, e: Option<&str>| narration::AiResp {
        summary: s.map(|x| x.to_string()),
        error: e.map(|x| x.to_string()),
    };
    assert_eq!(
        narration::usable_summary(resp(Some(" ok "), None)),
        Ok(" ok ".to_string())
    );
    assert_eq!(
        narration::usable_summary(resp(Some("ok"), Some("down"))),
        Err("down".to_string())
    );
    assert_eq!(
        narration::usable_summary(resp(Some(" \n"), None)),
        Err("empty summary".to_string())
    );
    assert_eq!(
        narration::usable_summary(resp(None, None)),
        Err("empty summary".to_string())
    );
    let mut view = NarrationView::default();
    narration::apply_reply(&mut view, PanelKind::Events, Ok("fair".to_string()), 50);
    assert_eq!(view.events.summary, "fair");
    assert_eq!(view.events.updated_at, Some(50));
    assert_eq!(view.dispatch.updated_at, None);
    narration::apply_reply(&mut view, PanelKind::Events, Err("down".to_string()), 60);
    assert_eq!(view.events.summary, "fair");
    assert_eq!(view.events.updated_at, Some(50));
}

#[test]
fn settings_and_their_defaults() {
    assert_eq!(
        narration::base(None),
        "https://cta-track-grid.felipe-debene.workers.dev"
    );
    assert_eq!(narration::base(Some("http://x".to_string())), "http://x");
    assert_eq!(narration::home_mapid(None), "41070");
    assert_eq!(narration::home_name(None), "Kedzie");
    assert_eq!(narration::home_name(Some("Lake".to_string())), "Lake");
}

#[test]
fn the_clock_moves_on_from_the_epoch() {
    let before = std::time::SystemTime::now()
        .duration_since(std::time::UNIX_EPOCH)
        .unwrap()
        .as_secs() as i64;
    let now = narration::now_secs();
    assert!(before <= now && now <= before + 60);
    assert_eq!(narration::epoch_seconds(None), 0);
    assert_eq!(narration::epoch_seconds(Some(17)), 17);
}

// ---------- the server ----------

#[test]
fn root_menu_is_well_formed() {
    let menu = server::build_root("localhost", 7070);
    assert!(menu.ends_with(".\r\n"));
    assert!(menu.contains("\t/map\tlocalhost\t7070\r\n"));
    assert!(menu.contains("1Trains by line\t/cta\tlocalhost\t7070\r\n"));
}

#[test]
fn map_has_braille_and_legend() {
    let pos = fixture_positions();
    let geo = project::geometry();
    let text = server::build_map(&pos, &geo, "CTA 'L'");
    // contains braille glyphs (>= U+2800)
    assert!(text
        .chars()
        .any(|c| (c as u32) >= 0x2800 && (c as u32) <= 0x28FF));
    assert!(text.contains("18 trains plotted of 18 reporting") || text.contains("plotted"));
    assert!(text.contains("legend"));
    assert!(text.contains("offline fixture"));
}

#[test]
fn map_row_count_matches_geometry() {
    let pos = fixture_positions();
    let geo = project::geometry();
    let text = server::build_map(&pos, &geo, "CTA 'L'");
    // The canvas block is hc rows; find them by braille content.
    let braille_rows = text
        .lines()
        .filter(|l| l.chars().any(|c| (0x2800..=0x28FF).contains(&(c as u32))))
        .count();
    assert_eq!(braille_rows, geo.hc);
}

#[test]
fn all_fixture_trains_plot_inside_bbox() {
    let pos = fixture_positions();
    let geo = project::geometry();
    let text = server::build_map(&pos, &geo, "CTA 'L'");
    assert!(text.contains("18 trains plotted of 18 reporting"));
}

#[test]
fn line_menu_lists_red_trains_as_clickable_items() {
    let pos = fixture_positions();
    let menu = server::build_line_menu(&pos, "red", "h", 70);
    assert!(menu.ends_with(".\r\n"));
    assert!(menu.contains("Red Line -- live trains"));
    assert!(menu.contains("5 train(s) running"));
    // Each run is a type-1 (menu) line pointing at /train/<run> on this host.
    assert!(menu.contains("1Run 801"));
    assert!(menu.contains("\t/train/801\th\t70\r\n"));
    // All five red runs should be drill-down links.
    for run in ["801", "812", "823", "834", "845"] {
        assert!(
            menu.contains(&format!("/train/{run}\t")),
            "missing /train/{run}"
        );
    }
    assert!(menu.contains("1Run 812   -> 95th/Dan Ryan  [approaching]\t"));
}

#[test]
fn server_line_menu_unknown_line() {
    let pos = fixture_positions();
    let menu = server::build_line_menu(&pos, "chartreuse", "h", 70);
    assert!(menu.ends_with(".\r\n"));
    assert!(menu.contains("Unknown line"));
}

#[test]
fn train_detail_valid_id() {
    let pos = fixture_positions();
    let text = server::build_train_text(&pos, "801");
    assert!(text.starts_with("Run 801 -- Red Line"));
    assert!(text.contains("line:        Red (#c60c30)"));
    assert!(text.contains("destination: Howard"));
    assert!(text.contains("next stop:   Loyola"));
    assert!(text.contains("predicted 2026-06-21T02:17:00")); // arrT
    assert!(text.contains("heading 358"));
}

#[test]
fn train_detail_approaching_status() {
    let pos = fixture_positions();
    // Run 812 has isApp=1 in the fixture.
    let text = server::build_train_text(&pos, "812");
    assert!(text.contains("status:      approaching"));
}

#[test]
fn train_detail_unknown_id() {
    let pos = fixture_positions();
    let text = server::build_train_text(&pos, "9999");
    assert!(text.starts_with("Run 9999 -- no longer reporting"));
    assert!(!text.contains("position:"));
}

#[test]
fn cta_menu_lists_all_lines_with_counts() {
    let pos = fixture_positions();
    let menu = server::build_cta_menu(&pos, "h", 70);
    assert!(menu.ends_with(".\r\n"));
    for k in render::line_order() {
        assert!(menu.contains(&format!("/cta/{k}\t")), "missing line {k}");
    }
    assert!(menu.contains("(5 running)")); // red
}

#[test]
fn flags_of_a_row_are_listed_together() {
    let mut pos = fixture_positions();
    pos.trains.truncate(1);
    pos.trains[0].approaching = true;
    pos.trains[0].delayed = true;
    let menu = server::build_line_menu(&pos, "red", "h", 70);
    assert!(menu.contains("Howard  [approaching, DELAYED]\t"));
    pos.trains[0].approaching = false;
    assert!(server::build_line_menu(&pos, "red", "h", 70).contains("Howard  [DELAYED]\t"));
}

#[test]
fn selectors_lead_where_they_say() {
    assert!(matches!(server::find_route(""), Route::Root));
    assert!(matches!(server::find_route("///"), Route::Root));
    assert!(matches!(server::find_route("/about/"), Route::About));
    assert!(matches!(server::find_route("/map"), Route::TrainMap));
    assert!(matches!(server::find_route("/cta/"), Route::Cta));
    assert!(matches!(server::find_route("/cta/red/"), Route::Line(l) if l == "red"));
    assert!(matches!(server::find_route("/train/801"), Route::Train(r) if r == "801"));
    assert!(matches!(server::find_route("/nope/"), Route::Unknown(s) if s == "/nope"));
    assert!(!server::find_route("/about").needs_positions());
    assert!(server::find_route("/cta/red").needs_positions());
}

#[test]
fn every_response_is_terminated() {
    let srv = Server::new("h".to_string(), 70);
    let pos = fixture_positions();
    for sel in ["", "/about", "/map", "/cta", "/cta/red", "/train/801", "/what?"] {
        let r = srv.respond(&server::find_route(sel), &pos, "CTA 'L'");
        assert!(r.ends_with("\r\n.\r\n"), "selector {sel}");
    }
    let r = srv.respond(&server::find_route("/what?"), &pos, "CTA 'L'");
    assert_eq!(
        r,
        "Unknown selector: /what?\r\n\r\nGo back to the root menu.\r\n.\r\n"
    );
    let about = srv.respond(&Route::About, &pos, "CTA 'L'");
    assert!(about.contains("Canvas: 48x30 braille cells (96x120 pixels).\r\n"));
}

#[test]
fn requests_are_read_up_to_the_line_end() {
    assert!(!server::request_complete(&b"/map".to_vec()));
    assert!(server::request_complete(&b"/map\r\n".to_vec()));
    assert!(!server::request_complete(&vec![65u8; 1024]));
    assert!(server::request_complete(&vec![65u8; 1025]));
    assert_eq!(server::requested_selector(&b"/map\r\n".to_vec()), "/map");
    assert_eq!(server::requested_selector(&vec![47, 0xC3, 0xA9, 10]), "/\u{e9}");
    assert_eq!(server::requested_selector(&vec![47, 0xFF, 10]), "/\u{fffd}");
}

#[test]
fn failed_fetch_gives_an_empty_snapshot() {
    assert!(server::snapshot(Err("down".to_string())).trains.is_empty());
    assert_eq!(server::snapshot(Ok(fixture_positions())).trains.len(), 18);
}

// ---------- fetch ----------

#[test]
fn menu_index_renders_geomyidae_gph() {
    let pos = fixture_positions();

    // Root: info banner stays a plain (info) line; map is a type-0 link; each line
    // is a type-1 submenu link. server/port are placeholder tokens.
    let root = gph::render_menu_index(&render::root_menu(
        &pos,
        true,
        Some(("gopher.debene.dev", 7071)),
    ));
    assert!(root.contains("  gopher-cta : live CTA 'L' trains over Gopher\n"));
    assert!(root.contains("[0|Live train map (braille)|/map.txt|server|port]\n"));
    assert!(root.contains("[0|Geographic atlas (coast + landmarks)|/atlas.txt|server|port]\n"));
    assert!(root.contains("[1|Chicago landmarks|/landmarks|server|port]\n"));
    assert!(root.contains("[0|Dispatch (summary + feed stats)|/dispatch.txt|server|port]\n"));
    assert!(root.contains("[0|SITREP (AI alerts summary)|/sitrep.txt|server|port]\n"));
    assert!(root.contains("[0|Event advisory (AI)|/events.txt|server|port]\n"));
    assert!(root.contains("[1|Red      (5 running)|/red|server|port]\n"));
    assert!(root.contains("[0|FAQ|/faq.txt|server|port]\n"));
    assert!(root.contains("[0|Troubleshooting|/help.txt|server|port]\n"));
    // source tarball advertised as gopher type 9 (binary) when available
    assert!(
        root.contains("[9|Source code (tar.gz, fetch over gopher)|/src.tar.gz|server|port]\n")
    );
    // external links render as gopher type 'h' with a URL: selector
    assert!(root.contains(
        "[h|Source code (GitHub)|URL:https://github.com/felipedbene/gopher-cta|server|port]\n"
    ));
    assert!(root.contains("|URL:https://tracker.debene.dev/|server|port]\n"));
    // the phlog hub link is the one link that carries a concrete host/port
    assert!(root.contains("[1|Phlog -- the blog|/|gopher.debene.dev|7071]\n"));
    // never bake a real host/port into a local (this-tree) link
    assert!(!root.contains("localhost"));
    assert!(!root.contains("\t"));

    // Per-line: each train is a type-0 link to its detail page.
    let red = gph::render_menu_index(&render::line_menu(&pos, "red"));
    assert!(red.contains("[0|Run 801   -> Howard"));
    assert!(red.contains("|/train/801.txt|server|port]\n"));
    assert!(red.contains("Red Line -- live trains\n")); // info header
}

#[test]
fn phlog_link_adds_exactly_one_line_and_changes_nothing_else() {
    let pos = fixture_positions();
    let without = gph::render_menu_index(&render::root_menu(&pos, true, None));
    let with = gph::render_menu_index(&render::root_menu(
        &pos,
        true,
        Some(("gopher.debene.dev", 7071)),
    ));
    let a: Vec<&str> = without.lines().collect();
    let b: Vec<&str> = with.lines().collect();
    assert_eq!(b.len(), a.len() + 1, "phlog must add exactly one line");

    let extra = "[1|Phlog -- the blog|/|gopher.debene.dev|7071]";
    assert!(b.contains(&extra), "the new line must be the phlog link");
    let rest: Vec<&str> = b.into_iter().filter(|l| *l != extra).collect();
    assert_eq!(rest, a, "all pre-existing lines must be byte-identical");
}

#[test]
fn gph_escapes_bars_and_leading_letters() {
    let menu = vec![
        render::info("[not a link]"),
        render::info("trains"),
        render::info(""),
        render::link(ItemKind::Text, "a|b", "/x|y"),
    ];
    assert_eq!(
        gph::render_menu_index(&menu),
        "t[not a link]\nttrains\n\n[0|a\\|b|/x\\|y|server|port]\n"
    );
}

#[test]
fn phlog_link_parsing() {
    let parse = fetch::parse_phlog_link;
    assert_eq!(
        parse("gopher://gopher.debene.dev:7071").unwrap(),
        Some(("gopher.debene.dev".to_string(), 7071))
    );
    assert_eq!(
        parse("gopher://example.org").unwrap(),
        Some(("example.org".to_string(), 70))
    );
    assert_eq!(parse("none").unwrap(), None);
    assert_eq!(parse("").unwrap(), None);
    assert!(parse("http://x").is_err());
    // The texts of the errors, and the edges.
    assert_eq!(parse("NoNe").unwrap(), None);
    assert_eq!(
        parse("gopher://h:70/1/x:y").unwrap(),
        Some(("h".to_string(), 70))
    );
    assert_eq!(
        parse("gopher://a:b:9").unwrap(),
        Some(("a:b".to_string(), 9))
    );
    assert_eq!(
        parse("http://x").unwrap_err(),
        "--phlog-link must start with gopher:// (got http://x)"
    );
    assert_eq!(
        parse("gopher://h:65536").unwrap_err(),
        "bad port in --phlog-link: 65536"
    );
    assert_eq!(
        parse("gopher://:70").unwrap_err(),
        "--phlog-link has no host: gopher://:70"
    );
}

#[test]
fn flags_and_their_errors() {
    let read = |list: &[&str], out: Option<&str>| {
        let args: Vec<String> = list.iter().map(|s| s.to_string()).collect();
        Config::from_args(&args, out.map(|s| s.to_string()))
    };
    let c = read(&[], None).unwrap();
    assert_eq!((c.out.as_str(), c.once, c.interval), ("public", false, 30));
    assert_eq!(c.phlog_link, Some(("gopher.debene.dev".to_string(), 7071)));
    assert_eq!(c.after_cycle(), Next::Sleep(30));
    // A failed fetch publishes nothing and does not end the run.
    assert_eq!(c.after_fetch(true), Step::Publish);
    assert_eq!(c.after_fetch(false), Step::Rest(Next::Sleep(30)));
    assert_eq!(c.mode(), "every 30s");
    assert_eq!(read(&[], Some("/srv")).unwrap().out, "/srv");
    let c = read(
        &["--interval", "0", "--once", "--out", "d", "--phlog-link", "none"],
        Some("/srv"),
    )
    .unwrap();
    assert_eq!((c.out.as_str(), c.once, c.interval), ("d", true, 1));
    assert_eq!(c.phlog_link, None);
    assert_eq!(c.after_cycle(), Next::Stop);
    assert_eq!(c.after_fetch(true), Step::Publish);
    assert_eq!(c.after_fetch(false), Step::Rest(Next::Stop));
    assert_eq!(c.mode(), "once");
    let err = |list: &[&str]| read(list, None).err().unwrap();
    assert_eq!(err(&["--interval"]), "--interval needs <secs>");
    assert_eq!(err(&["--interval", "-1"]), "bad --interval: -1");
    assert_eq!(err(&["--out"]), "--out needs <dir>");
    assert_eq!(err(&["--phlog-link"]), "--phlog-link needs <url>");
    assert_eq!(err(&["--what"]), "unknown fetch arg: --what");
    assert!(err(&["--phlog-link", "x"]).starts_with("--phlog-link must start"));
}

#[test]
fn leading_fetch_is_tolerated() {
    let args = |list: &[&str]| -> Vec<String> { list.iter().map(|s| s.to_string()).collect() };
    assert_eq!(
        fetch::command_flags(&args(&["prog", "fetch", "--once"])),
        vec!["--once"]
    );
    assert_eq!(
        fetch::command_flags(&args(&["prog", "--once", "fetch"])),
        vec!["--once", "fetch"]
    );
    assert!(fetch::command_flags(&args(&["prog"])).is_empty());
}

#[test]
fn old_snapshots_go_and_the_current_one_stays() {
    assert_eq!(fetch::snapshot_name(1750000000123), "out-1750000000123");
    assert_eq!(fetch::snapshot_stamp("out-1750000000123"), Some(1750000000123));
    assert_eq!(fetch::snapshot_stamp("out-"), None);
    assert_eq!(fetch::snapshot_stamp("out-+1"), None);
    assert_eq!(fetch::snapshot_stamp("out-007"), None);
    assert_eq!(fetch::snapshot_stamp("current"), None);
    let stamps = vec![5, 1, 4, 2, 3];
    assert_eq!(fetch::stale_snapshots(&stamps, None, 3), vec![1, 2]);
    assert_eq!(fetch::stale_snapshots(&stamps, Some(1), 3), vec![2]);
    assert!(fetch::stale_snapshots(&stamps, Some(5), 5).is_empty());
    assert_eq!(fetch::KEEP_SNAPSHOTS, 3);
}

// ---------- the tree ----------

fn path_of(item: &TreeItem) -> &str {
    match item {
        TreeItem::Dir(p) => p,
        TreeItem::Text { path, .. } => path,
        TreeItem::Bytes { path, .. } => path,
    }
}

fn text_at(items: &[TreeItem], want: &str) -> String {
    items
        .iter()
        .find_map(|i| match i {
            TreeItem::Text { path, body } if path == want => Some(body.clone()),
            _ => None,
        })
        .unwrap()
}

fn bytes_at(items: &[TreeItem], want: &str) -> Vec<u8> {
    items
        .iter()
        .find_map(|i| match i {
            TreeItem::Bytes { path, body } if path == want => Some(body.clone()),
            _ => None,
        })
        .unwrap()
}

fn files_under(items: &[TreeItem], dir: &str) -> usize {
    items
        .iter()
        .filter(|i| !matches!(i, TreeItem::Dir(_)) && path_of(i).starts_with(dir))
        .count()
}

fn sample_tree(pos: &Positions, files: &StaticFiles) -> Vec<TreeItem> {
    let geo = project::geometry();
    tree::write_tree(&Snapshot {
        pos,
        geo: &geo,
        atlas: &sample_atlas(),
        map_base: &sample_base(),
        narration: &NarrationView::default(),
        now: 1000,
        source_name: "CTA 'L'",
        files,
        phlog: None,
    })
}

#[test]
fn write_tree_builds_full_navigable_tree() {
    let pos = fixture_positions();
    let snap = sample_tree(&pos, &sample_files());

    // root index links to the map, the atlas, and the red submenu
    let root = text_at(&snap, "index.gph");
    assert!(root.contains("[0|Live train map (braille)|/map.txt|server|port]"));
    assert!(root.contains("[0|Geographic atlas (coast + landmarks)|/atlas.txt|server|port]"));
    // the atlas page itself is written
    assert!(text_at(&snap, "atlas.txt").contains("geographic atlas"));
    assert!(root.contains("[1|Red      (5 running)|/red|server|port]"));

    // per-line submenu exists and drills into a train
    let red = text_at(&snap, "red/index.gph");
    assert!(red.contains("[0|Run 801   -> Howard"));
    assert!(red.contains("|/train/801.txt|server|port]"));

    // the linked train detail page actually exists with matching content
    let train = text_at(&snap, "train/801.txt");
    assert!(train.starts_with("Run 801 -- Red Line"));
    assert!(train.contains("destination: Howard"));

    // a detail page per running train (18 in the fixture)
    assert_eq!(files_under(&snap, "train/"), pos.trains.len());

    // caps.txt is published verbatim with CRLF and the literal CAPS header.
    let caps = bytes_at(&snap, "caps.txt");
    assert!(
        caps.starts_with(b"CAPS\r\n"),
        "caps.txt must start CAPS+CRLF"
    );
    assert!(
        caps.windows(2).any(|w| w == b"\r\n"),
        "caps.txt must be CRLF"
    );
    let caps_s = String::from_utf8_lossy(&caps);
    assert!(caps_s.contains("CapsVersion=1"));
    assert!(caps_s.contains("ServerSoftware=geomyidae"));
    // canonical (mis)spellings preserved
    assert!(caps_s.contains("PathDelimeter=/"));
    assert!(caps_s.contains("PathKeepPreDelimeter=FALSE"));

    // robots.txt is published and disallows the ephemeral train pages.
    let robots = String::from_utf8(bytes_at(&snap, "robots.txt")).unwrap();
    assert!(robots.contains("User-agent: *"));
    assert!(robots.contains("Disallow: /train/"));

    // landmarks: root links the menu; the menu drills into a detail page; the page
    // exists with matching content.
    assert!(root.contains("[1|Chicago landmarks|/landmarks|server|port]"));
    let lm = text_at(&snap, "landmarks/index.gph");
    assert!(lm.contains("/landmark/W.txt"));
    let willis = text_at(&snap, "landmark/W.txt");
    assert!(willis.starts_with("Willis Tower"));
    assert!(willis.contains("category:     skyline"));
    // one detail page per landmark (14 in the overlay)
    assert_eq!(files_under(&snap, "landmark/"), 14);
}

#[test]
fn tree_holds_every_page_and_hides_one() {
    let snap = sample_tree(&fixture_positions(), &sample_files());
    assert!(text_at(&snap, "map.txt").contains("trains plotted"));
    assert!(text_at(&snap, "about.txt").contains("gopher-cta"));
    assert!(text_at(&snap, "faq.txt").contains("Why braille?"));
    assert!(text_at(&snap, "help.txt").contains("Troubleshooting"));
    assert!(text_at(&snap, "dig.txt").contains("You found the burrow"));
    // The atlas page is published alongside the braille map.
    let atlas_txt = text_at(&snap, "atlas.txt");
    assert!(atlas_txt.contains("geographic atlas"));
    assert!(atlas_txt.contains("of 14 landmarks shown"));
    assert!(atlas_txt.contains("places named"));
    // As many places are named as landmarks show.
    let footer = atlas_txt.lines().find(|l| l.contains("landmarks shown")).unwrap();
    let (_, tail) = footer.split_once("reporting.  ").unwrap();
    let shown = tail.split(' ').next().unwrap();
    assert_eq!(tail, format!("{shown} of 14 landmarks shown.  {shown} places named."));
    assert!(text_at(&snap, "map.ansi").contains("\x1b[38;5;"));
    assert!(text_at(&snap, "atlas.ansi").contains("\x1b[38;5;"));
    assert!(text_at(&snap, "dispatch.txt").contains("feed stats:"));
    assert!(text_at(&snap, "sitrep.txt").contains("SITREP"));
    assert!(text_at(&snap, "events.txt").contains("event advisory"));
    // The hidden page is linked from no menu.
    for item in &snap {
        if let TreeItem::Text { path, body } = item {
            if path.ends_with("index.gph") {
                assert!(!body.contains("/dig.txt"), "{path}");
            }
        }
    }
    // No source tarball: neither file nor link.
    assert!(!snap.iter().any(|i| path_of(i) == "src.tar.gz"));
    assert!(!text_at(&snap, "index.gph").contains("src.tar.gz"));
}

#[test]
fn no_local_link_dangles() {
    let mut files = sample_files();
    files.src_archive = Some(vec![1, 2, 3]);
    let snap = sample_tree(&fixture_positions(), &files);
    assert_eq!(bytes_at(&snap, "src.tar.gz"), vec![1, 2, 3]);
    let mut checked = 0;
    for item in &snap {
        if let TreeItem::Text { path, body } = item {
            if !path.ends_with("index.gph") {
                continue;
            }
            for line in body.lines().filter(|l| l.starts_with('[')) {
                let fields: Vec<&str> = line.trim_matches(|c| c == '[' || c == ']').split('|').collect();
                if fields[0] == "h" {
                    continue;
                }
                assert_eq!((fields[3], fields[4]), ("server", "port"));
                let target = match fields[0] {
                    "1" => format!("{}/index.gph", &fields[2][1..]),
                    _ => fields[2][1..].to_string(),
                };
                assert!(snap.iter().any(|i| path_of(i) == target), "{line}");
                checked += 1;
            }
        }
    }
    assert!(checked > 40);
}

#[test]
fn run_numbers_that_could_escape_get_no_page() {
    let mut pos = fixture_positions();
    pos.trains[0].run = "../x".to_string();
    let snap = sample_tree(&pos, &sample_files());
    assert_eq!(files_under(&snap, "train/"), 17);
    assert!(!snap.iter().any(|i| path_of(i).contains("..")));
    // The directories are there even without a train.
    let bare = sample_tree(&Positions::default(), &sample_files());
    for dir in ["red", "y", "train", "landmarks", "landmark"] {
        assert!(bare.iter().any(|i| matches!(i, TreeItem::Dir(p) if p == dir)), "{dir}");
    }
}

// ---------- fixed pages ----------

#[test]
fn fixed_pages_say_what_they_should() {
    let about = render::about_page();
    assert!(about.starts_with("        ______________________________\n     __/  []"));
    assert!(about.contains("  Canvas: 48x30 braille cells (96x120 pixels).\n\nSource:  https://"));
    assert!(about.ends_with("Not affiliated with the Chicago Transit Authority.\n"));
    let faq = render::faq_page();
    assert!(faq.starts_with("gopher-cta : FAQ\n================\n\nQ: Why braille?\nA: Each"));
    assert!(faq.contains("why \"N of M reporting\"?\n"));
    assert!(faq.ends_with("A: Gophers burrow. Keep digging.\n"));
    let help = render::help_page();
    assert!(help.contains("  The map is 48 columns wide -- give the terminal at least that\n"));
    let dig = render::dig_page();
    assert!(dig.starts_with("You found the burrow.\n=====================\n\n      .--.\n"));
    assert!(dig.contains("    _/`--'\\_\n   (__/  \\__)   >> now approaching: gopherspace\n"));
}

// ---------- the wire and the text pages together ----------

#[test]
fn pages_survive_the_wire() {
    let page = render::map_page(&fixture_positions(), &project::geometry(), "CTA 'L'");
    let wire = protocol::render_text(&page);
    let back: Vec<&str> = wire.split("\r\n").collect();
    let sent: Vec<&str> = page.split('\n').collect();
    assert_eq!(back[..sent.len()], sent[..]);
    assert_eq!(&back[sent.len()..], &[".", ""]);
    assert_eq!(text::trim("  \u{3000}x y\t\n"), "x y");
}
