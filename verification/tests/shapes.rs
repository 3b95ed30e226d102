//! Projection, drawing, text and wire building blocks.

use gopher_cta::atlas::{
    heading_glyph, road_glyph, LANDMARK_COLOR, PRIO_LANDMARK, PRIO_SHORE, PRIO_TRAIN, SHORE_GLYPH,
    TRAIN_GLYPH, WATER_COLOR,
};
use gopher_cta::braille::{dot_bit, Canvas};
use gopher_cta::chargrid::CharGrid;
use gopher_cta::project::{
    degrees_text, geometry, project, CELL_ASPECT, DEGREE, LAT_MAX, LAT_MIN, LON_MAX, LON_MIN, W,
};
use gopher_cta::protocol::{
    parse_selector, render_menu, render_text, split_query, ItemType, MenuItem,
};
use gopher_cta::raster::bresenham;
use gopher_cta::text;

/// Degrees in the library's units.
fn deg(v: f64) -> i64 {
    (v * DEGREE as f64) as i64
}

// ---------- projection ----------

/// Width and height of the plotted area in kilometres.
fn area_km() -> (f64, f64) {
    let mid = (41.65f64 + 42.07) / 2.0;
    let lon_km = 111.32 * mid.to_radians().cos();
    ((87.90 - 87.45) * lon_km, (42.07 - 41.65) * 111.32)
}

#[test]
fn geometry_is_sane() {
    let g = geometry();
    assert_eq!(g.wc, W);
    assert_eq!(g.wp, 2 * W);
    // h_km/w_km ~ 1.254, * (48/2) = 30.1 -> 30 rows. Taller than wide.
    assert_eq!(g.hc, 30);
    assert_eq!(g.hp, 4 * g.hc);
    // Faithful aspect: on-screen height (rows * CELL_ASPECT) vs width (cols)
    // should track the real km aspect to within a row.
    let (w_km, h_km) = area_km();
    let screen_aspect = (g.hc as f64 * CELL_ASPECT as f64) / g.wc as f64;
    assert!((screen_aspect - h_km / w_km).abs() < 0.05);
    assert!(g.hc * 2 > g.wc, "city should render taller than wide");
}

#[test]
fn corners_map_to_canvas_corners() {
    let g = geometry();
    // SW corner (min lat, min lon): bottom-left -> x=0, y=hp-1
    assert_eq!(project(LAT_MIN, LON_MIN, &g).unwrap(), (0, g.hp - 1));
    // NE corner (max lat, max lon): top-right -> x=wp-1, y=0
    assert_eq!(project(LAT_MAX, LON_MAX, &g).unwrap(), (g.wp - 1, 0));
    // NW corner: top-left
    assert_eq!(project(LAT_MAX, LON_MIN, &g).unwrap(), (0, 0));
    // SE corner: bottom-right
    assert_eq!(project(LAT_MIN, LON_MAX, &g).unwrap(), (g.wp - 1, g.hp - 1));
    // The edges are those of the plotted area.
    assert_eq!(LAT_MIN, deg(41.65));
    assert_eq!(LAT_MAX, deg(42.07));
    assert_eq!(LON_MIN, deg(-87.90));
    assert_eq!(LON_MAX, deg(-87.45));
}

#[test]
fn known_point_maps_to_expected_cell() {
    // lon: -87.805 is 0.095/0.45 = 0.211 across; lat: 41.755 is 0.105/0.42 = 0.25 up.
    let g = geometry();
    let (col, row) = project(deg(41.755), deg(-87.805), &g).unwrap();
    // col = round(0.211 * (wp-1)) = round(0.211*95) = 20
    assert_eq!(col, 20);
    // row = (hp-1) - round(0.25*(hp-1)) = 119 - round(29.75) = 119 - 30 = 89
    assert_eq!(row, 89);
}

#[test]
fn midpoint_lands_near_center() {
    let g = geometry();
    let lat_mid = (LAT_MIN + LAT_MAX) / 2;
    let lon_mid = (LON_MIN + LON_MAX) / 2;
    let (px, py) = project(lat_mid, lon_mid, &g).unwrap();
    assert!((px as i64 - (g.wp as i64 - 1) / 2).abs() <= 1, "px={px}");
    assert!((py as i64 - (g.hp as i64 - 1) / 2).abs() <= 1, "py={py}");
}

#[test]
fn out_of_bbox_is_dropped() {
    let g = geometry();
    assert!(project(deg(40.0), deg(-87.6), &g).is_none()); // too far south
    assert!(project(deg(41.8), deg(-88.5), &g).is_none()); // too far west
    assert!(project(deg(42.5), deg(-87.6), &g).is_none()); // too far north
    assert!(project(deg(41.8), deg(-87.0), &g).is_none()); // too far east
    assert!(project(LAT_MIN - 1, LON_MIN, &g).is_none());
    assert!(project(LAT_MAX, LON_MAX + 1, &g).is_none());
}

#[test]
fn the_loop_is_roughly_centered() {
    // Chicago Loop ~ (41.88, -87.63). Should land in the interior.
    let g = geometry();
    let (px, py) = project(deg(41.88), deg(-87.63), &g).unwrap();
    assert!(px > 20 && px < (g.wp - 20));
    assert!(py > 20 && py < (g.hp - 20));
}

#[test]
fn projection_agrees_with_floating_point() {
    let g = geometry();
    let (w_km, h_km) = area_km();
    let lon_km = w_km / 0.45;
    let mut compared = 0;
    for a in 0..400 {
        for b in 0..400 {
            let lat = 41.6501 + 0.00104 * a as f64;
            let lon = -87.8999 + 0.00112 * b as f64;
            let x = (lon + 87.90) * lon_km / w_km * 95.0;
            let y = (lat - 41.65) * 111.32 / h_km * 119.0;
            // A point halfway between two pixels may go either way.
            if (x.fract() - 0.5).abs() < 1e-6 || (y.fract() - 0.5).abs() < 1e-6 {
                continue;
            }
            let want = (x.round() as usize, 119 - y.round() as usize);
            assert_eq!(project(deg(lat), deg(lon), &g), Some(want));
            compared += 1;
        }
    }
    assert!(compared > 150000);
}

#[test]
fn degrees_print_as_floating_point_does() {
    for v in [
        0.0, 41.8789, -87.6359, 42.00857, -87.66145, 1.0, -0.5, 41.999995, 179.999999, 41.123455,
        41.123465,
    ] {
        assert_eq!(degrees_text(deg(v)), format!("{v:.5}"), "{v}");
    }
    for k in 0..20000 {
        let v = 41.65 + k as f64 * 0.0000213;
        assert_eq!(degrees_text(deg(v)), format!("{v:.5}"));
    }
    assert_eq!(degrees_text(DEGREE / 2), "0.50000");
    assert_eq!(degrees_text(-DEGREE), "-1.00000");
}

// ---------- braille ----------

#[test]
fn single_top_left_dot() {
    // only (0,0) -> 0x2801 -> ⠁
    let mut c = Canvas::new(1, 1);
    c.set(0, 0);
    assert_eq!(c.cell(0, 0), 0x01);
    assert_eq!(c.render(), "⠁");
    assert_eq!(c.render().chars().next().unwrap() as u32, 0x2801);
}

#[test]
fn all_eight_dots() {
    // all 8 dots -> 0x28FF -> ⣿
    let mut c = Canvas::new(1, 1);
    for px in 0..2 {
        for py in 0..4 {
            c.set(px, py);
        }
    }
    assert_eq!(c.cell(0, 0), 0xFF);
    assert_eq!(c.render(), "⣿");
    assert_eq!(c.render().chars().next().unwrap() as u32, 0x28FF);
}

#[test]
fn top_left_and_bottom_right() {
    // (0,0)+(1,3) -> 0x01|0x80 = 0x81 -> 0x2881 -> ⢁
    let mut c = Canvas::new(1, 1);
    c.set(0, 0);
    c.set(1, 3);
    assert_eq!(c.cell(0, 0), 0x81);
    assert_eq!(c.render(), "⢁");
    assert_eq!(c.render().chars().next().unwrap() as u32, 0x2881);
}

#[test]
fn dot_bits_match_spec() {
    assert_eq!(dot_bit(0, 0), 0x01);
    assert_eq!(dot_bit(0, 1), 0x02);
    assert_eq!(dot_bit(0, 2), 0x04);
    assert_eq!(dot_bit(1, 0), 0x08);
    assert_eq!(dot_bit(1, 1), 0x10);
    assert_eq!(dot_bit(1, 2), 0x20);
    assert_eq!(dot_bit(0, 3), 0x40);
    assert_eq!(dot_bit(1, 3), 0x80);
}

#[test]
fn dimensions_and_blank_render() {
    let c = Canvas::new(80, 10);
    assert_eq!(c.width_px(), 160);
    assert_eq!(c.height_px(), 40);
    let rendered = c.render();
    // 10 rows -> 9 newlines, each row 80 blank-braille glyphs.
    assert_eq!(rendered.matches('\n').count(), 9);
    assert_eq!(rendered.lines().count(), 10);
    assert!(rendered.chars().next().unwrap() as u32 == 0x2800);
}

#[test]
fn out_of_bounds_is_ignored() {
    let mut c = Canvas::new(2, 2); // 4x8 px
    c.set(99, 99);
    c.set(4, 0);
    c.set(0, 8);
    assert_eq!(c.render(), "⠀⠀\n⠀⠀");
}

#[test]
fn order_of_dots_does_not_matter() {
    let mut a = Canvas::new(2, 1);
    a.set(0, 0);
    a.set(3, 2);
    a.set(0, 0);
    let mut b = Canvas::new(2, 1);
    b.set(3, 2);
    b.set(0, 0);
    assert_eq!(a.render(), b.render());
    assert_eq!(a.cells, vec![0x01, 0x20]);
}

#[test]
fn coloured_cells_and_labels() {
    let mut c = Canvas::new(3, 1);
    c.set(0, 0);
    let colors = vec![196, 0, 44];
    let labels = vec![None, None, Some(('X', 231))];
    assert_eq!(
        c.render_colored(&colors, &labels),
        "\x1b[38;5;196m⠁\x1b[0m⠀\x1b[38;5;231mX\x1b[0m"
    );
    // Without colour and labels it is the plain rendering.
    assert_eq!(c.render_colored(&vec![0, 0, 0], &vec![]), c.render());
}

// ---------- lines ----------

/// The textbook loop, for comparison.
fn textbook_line(mut x0: i32, mut y0: i32, x1: i32, y1: i32) -> Vec<(i32, i32)> {
    let dx = (x1 - x0).abs();
    let dy = -(y1 - y0).abs();
    let sx = if x0 < x1 { 1 } else { -1 };
    let sy = if y0 < y1 { 1 } else { -1 };
    let mut err = dx + dy;
    let mut out = vec![];
    loop {
        out.push((x0, y0));
        if x0 == x1 && y0 == y1 {
            return out;
        }
        let e2 = 2 * err;
        if e2 >= dy {
            err += dy;
            x0 += sx;
        }
        if e2 <= dx {
            err += dx;
            y0 += sy;
        }
    }
}

#[test]
fn lines_are_the_textbook_ones() {
    for x in -12..=12 {
        for y in -12..=12 {
            assert_eq!(bresenham(3, -2, 3 + x, -2 + y), textbook_line(3, -2, 3 + x, -2 + y));
        }
    }
    assert_eq!(bresenham(0, 0, 4, 2), vec![(0, 0), (1, 1), (2, 1), (3, 2), (4, 2)]);
    assert_eq!(bresenham(7, 7, 7, 7), vec![(7, 7)]);
}

#[test]
fn lines_are_connected_and_end_where_they_should() {
    let line = bresenham(-5, 9, 30, -11);
    assert_eq!(line[0], (-5, 9));
    assert_eq!(*line.last().unwrap(), (30, -11));
    for w in line.windows(2) {
        assert!((w[0].0 - w[1].0).abs() <= 1 && (w[0].1 - w[1].1).abs() <= 1);
        assert_ne!(w[0], w[1]);
    }
}

// ---------- the char grid ----------

#[test]
fn road_glyphs_follow_slope() {
    assert_eq!(road_glyph(10, 0), '='); // E-W
    assert_eq!(road_glyph(0, 10), '|'); // N-S
    assert_eq!(road_glyph(5, 5), '\\'); // down-right (NW-SE)
    assert_eq!(road_glyph(5, -5), '/'); // up-right (SW-NE)
    assert_eq!(road_glyph(-4, -4), '\\'); // up-left
    assert_eq!(road_glyph(0, 0), '=');
    assert_eq!(road_glyph(i32::MIN, i32::MAX), '/');
}

#[test]
fn heading_glyphs_are_cardinal() {
    assert_eq!(heading_glyph(Some(0)), '^');
    assert_eq!(heading_glyph(Some(358)), '^');
    assert_eq!(heading_glyph(Some(90)), '>');
    assert_eq!(heading_glyph(Some(180)), 'v');
    assert_eq!(heading_glyph(Some(270)), '<');
    assert_eq!(heading_glyph(None), 'o');
    assert_eq!(heading_glyph(Some(44)), '^');
    assert_eq!(heading_glyph(Some(45)), '>');
    assert_eq!(heading_glyph(Some(224)), 'v');
    assert_eq!(heading_glyph(Some(225)), '<');
    assert_eq!(heading_glyph(Some(315 + 360)), '^');
}

#[test]
fn char_grid_respects_priority() {
    let mut g = CharGrid::new(3, 3);
    g.put(1, 1, SHORE_GLYPH, PRIO_SHORE, WATER_COLOR);
    g.put(1, 1, TRAIN_GLYPH, PRIO_TRAIN, 196); // higher: wins
    g.put(1, 1, 'A', PRIO_LANDMARK, LANDMARK_COLOR); // lower than train: ignored
    assert!(g.render().contains(TRAIN_GLYPH));
    assert!(!g.render().contains('A'));
    assert!(!g.render().contains(SHORE_GLYPH));
    // Of equal layers the last one shows.
    g.put(1, 1, '^', PRIO_TRAIN, 39);
    assert_eq!(g.cell_at(1, 1), Some('^'));
    assert_eq!(g.render_ansi(), "\n \x1b[38;5;39m^\x1b[0m\n");
}

#[test]
fn char_grid_clips_out_of_frame() {
    let mut g = CharGrid::new(2, 2);
    g.put(-1, 0, 'x', PRIO_TRAIN, 0); // negative col
    g.put(0, 5, 'x', PRIO_TRAIN, 0); // row past frame
    g.put(9, 0, 'x', PRIO_TRAIN, 0); // col past frame
                                     // Nothing painted: every row trims to empty (just the inter-row newline).
    assert!(!g.render().contains('x'));
    assert_eq!(g.render(), "\n");
    assert_eq!(g.cell_at(-1, 0), None);
    assert_eq!(g.cell_at(0, 2), None);
    assert_eq!(g.cell_at(1, 1), Some(' '));
}

#[test]
fn rows_are_trimmed_at_their_ends() {
    let mut g = CharGrid::new(4, 1);
    g.put(1, 0, 'a', 1, 7);
    g.put(2, 0, '\u{a0}', 1, 0);
    // Plain rows lose any white space at the end, coloured ones only blanks.
    assert_eq!(g.render(), " a");
    assert_eq!(g.render_ansi(), " \x1b[38;5;7ma\x1b[0m\u{a0}");
}

#[test]
fn colour_adds_only_escapes() {
    let mut g = CharGrid::new(4, 3);
    g.put(0, 0, 'a', 1, 7);
    g.put(1, 0, '5', 1, 0);
    g.put(2, 0, 'm', 1, 255);
    g.put(3, 0, ' ', 1, 9);
    g.put(3, 2, '#', 1, 240);
    let ansi = g.render_ansi();
    let mut plain = ansi.replace("\x1b[0m", "");
    let mut colours = Vec::new();
    while let Some(at) = plain.find("\x1b[38;5;") {
        let end = at + plain[at..].find('m').unwrap();
        colours.push(plain[at + 7..end].parse::<u8>().unwrap());
        plain.replace_range(at..=end, "");
    }
    assert_eq!(plain, g.render());
    assert_eq!(plain, "a5m\n\n   #");
    // One opening for each coloured cell that is not blank, in its colour.
    assert_eq!(colours, vec![7, 255, 240]);
}

// ---------- text ----------

#[test]
fn white_space_is_that_of_unicode() {
    for u in 0..=0x10FFFFu32 {
        if let Some(c) = char::from_u32(u) {
            assert_eq!(text::white(c), c.is_whitespace(), "U+{u:04X}");
        }
    }
}

#[test]
fn trimming_and_splitting() {
    assert_eq!(text::trim(" \t a b \u{2003}\n"), "a b");
    assert_eq!(text::trim("   "), "");
    assert_eq!(text::split("a,,b,", ','), vec!["a", "", "b", ""]);
    assert_eq!(text::split("", ','), vec![""]);
    let list = vec!["x".to_string(), "y".to_string(), "z".to_string()];
    assert_eq!(text::join(&list, "; "), "x; y; z");
    assert_eq!(text::join(&vec![], "; "), "");
    assert_eq!(text::after_prefix("/cta/red", "/cta/"), Some("red"));
    assert_eq!(text::after_prefix("/ct", "/cta/"), None);
}

#[test]
fn order_of_texts_is_that_of_strings() {
    let samples = ["", "1", "10", "100", "9", "a", "A", "é", "z", "\u{ffff}", "\u{10000}", "aé"];
    for a in samples {
        for b in samples {
            assert_eq!(text::no_later(a, b), a <= b, "{a:?} {b:?}");
            assert_eq!(text::text_eq(a, b), a == b);
        }
    }
}

#[test]
fn numbers_are_read_and_written() {
    assert_eq!(text::dec_text(0), "0");
    assert_eq!(text::dec_text(u128::MAX), u128::MAX.to_string());
    let mut out = String::new();
    text::push_low_digits(&mut out, 1042, 3);
    assert_eq!(out, "042");
    for s in ["0", "+7", "007", "65535", "65536", "", "+", "-1", "1x", "99999999999999999999"] {
        assert_eq!(text::parse_uint(s, 65535), s.parse::<u16>().ok().map(|n| n as u128), "{s}");
        assert_eq!(text::parse_uint(s, u64::MAX as u128), s.parse::<u64>().ok().map(|n| n as u128), "{s}");
    }
    assert_eq!(text::parse_uint("18446744073709551615", u64::MAX as u128), Some(u64::MAX as u128));
    for s in ["340282366920938463463374607431768211455", "340282366920938463463374607431768211456"] {
        assert_eq!(text::parse_uint(s, u128::MAX), s.parse::<u128>().ok(), "{s}");
    }
    assert_eq!(text::parse_uint("18446744073709551616", u64::MAX as u128), None);
    assert_eq!(text::pad("ab", 4), "ab  ");
    assert_eq!(text::pad("abcde", 4), "abcde");
    assert_eq!(text::pad("é", 2), "é ");
}

#[test]
fn letters_and_case() {
    assert!(text::eq_ignoring_case("NoNe", "none"));
    assert!(!text::eq_ignoring_case("non", "none"));
    assert!(!text::eq_ignoring_case("É", "é"));
    assert!(text::all_alnum("801aZ") && text::all_alnum(""));
    assert!(!text::all_alnum("80-1") && !text::all_alnum("é"));
}

// ---------- protocol ----------

#[test]
fn menu_line_is_tab_delimited_with_crlf() {
    let item = MenuItem::link(ItemType::Menu, "Map", "/map", "localhost", 7070);
    let wire = item.to_wire();
    assert_eq!(wire, "1Map\t/map\tlocalhost\t7070\r\n");
    assert_eq!(wire.matches('\t').count(), 3);
    assert!(wire.ends_with("\r\n"));
}

#[test]
fn info_line_has_trailing_fields() {
    let wire = MenuItem::info("HELLO").to_wire();
    assert_eq!(wire, "iHELLO\tfake\t(NULL)\t0\r\n");
    assert_eq!(wire.matches('\t').count(), 3);
    assert_eq!(wire.chars().next().unwrap(), 'i');
}

#[test]
fn tabs_in_a_display_text_become_blanks() {
    let wire = MenuItem::link(ItemType::Search, "a\tb", "/find", "h", 70).to_wire();
    assert_eq!(wire, "7a b\t/find\th\t70\r\n");
    assert_eq!(ItemType::Text.code(), '0');
}

#[test]
fn menu_ends_with_lone_dot() {
    let items = vec![
        MenuItem::link(ItemType::Text, "About", "/about", "h", 70),
        MenuItem::info("note"),
    ];
    let menu = render_menu(&items);
    assert!(menu.ends_with(".\r\n"));
    // The terminator is its own line: preceding char is the item's LF.
    assert!(menu.ends_with("\r\n.\r\n"));
    // Every line ends in CRLF.
    for line in menu.split_inclusive("\r\n") {
        assert!(line.ends_with("\r\n"), "line not CRLF-terminated: {line:?}");
    }
    assert_eq!(render_menu(&[]), ".\r\n");
}

#[test]
fn text_payload_normalizes_and_terminates() {
    let body = "line one\nline two";
    let text = render_text(body);
    assert_eq!(text, "line one\r\nline two\r\n.\r\n");
    assert!(text.ends_with(".\r\n"));
    assert_eq!(render_text("a\r\nb\r"), "a\r\nb\r\n.\r\n");
}

#[test]
fn text_payload_escapes_lone_dot() {
    let text = render_text("before\n.\nafter");
    assert!(text.contains("\r\n..\r\n"));
    // ends with the real terminator, not the escaped one
    assert!(text.ends_with("after\r\n.\r\n"));
    assert_eq!(render_text(".\r"), "..\r\n.\r\n");
}

#[test]
fn parse_selector_strips_crlf() {
    assert_eq!(parse_selector("/map\r\n"), "/map");
    assert_eq!(parse_selector("/map\n"), "/map");
    assert_eq!(parse_selector("/map"), "/map");
    assert_eq!(parse_selector("\r\n"), ""); // empty selector = root
}

#[test]
fn split_query_splits_on_tab() {
    assert_eq!(split_query("/find\tBelmont"), ("/find", Some("Belmont")));
    assert_eq!(split_query("/find"), ("/find", None));
    assert_eq!(split_query("/find\ta\tb"), ("/find", Some("a\tb")));
}

/// The lines that a client reads, up to the lone dot.
fn lines_read(reply: &str) -> Vec<&str> {
    reply
        .split('\n')
        .map(|l| l.strip_suffix('\r').unwrap_or(l))
        .take_while(|l| *l != ".")
        .collect()
}

#[test]
fn replies_are_read_back_whole() {
    let text = render_text("one\n.\n\n..two\r\nend.");
    assert_eq!(lines_read(&text), vec!["one", "..", "", "..two", "end."]);
    let items = vec![
        MenuItem::info("."),
        MenuItem::link(ItemType::Text, "About", "/about", "h", 70),
        MenuItem::info(""),
    ];
    assert_eq!(
        lines_read(&render_menu(&items)),
        vec!["i.\tfake\t(NULL)\t0", "0About\t/about\th\t70", "i\tfake\t(NULL)\t0"]
    );
}
