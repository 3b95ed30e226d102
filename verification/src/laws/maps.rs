//! What the pages of the map and the atlas say and show, line by line.

use crate::atlas;
use crate::atlas::{Expressway, GeoData, Landmark};
use crate::braille;
use crate::chargrid;
use crate::grid;
use crate::laws::menus::{on_line_is, running};
use crate::laws::reading;
use crate::laws::reading::{count, lines};
use crate::page;
use crate::project;
use crate::project::Geometry;
use crate::render;
use crate::text;
use crate::trainmap;
use crate::trainmap::MapBase;
use crate::transit;
use crate::transit::{PositionsView, TrainView};
use vstd::prelude::*;

verus! {

/// How many trains lie in the plotted area.
pub open spec fn in_area(trains: Seq<TrainView>) -> nat {
    count(
        trains,
        |t: TrainView|
            project::LAT_MIN <= t.lat <= project::LAT_MAX && project::LON_MIN <= t.lon
                <= project::LON_MAX,
    )
}

/// As many trains count as plotted as lie in the plotted area, and the runs of the
/// others are those that are named as left out, in order.
pub proof fn law_plotted_are_those_in_the_area(trains: Seq<TrainView>)
    ensures
        page::plotted_count(trains) == in_area(trains),
        page::off_map(trains) == trains.filter(
            |t: TrainView|
                !(project::LAT_MIN <= t.lat <= project::LAT_MAX && project::LON_MIN <= t.lon
                    <= project::LON_MAX),
        ).map_values(|t: TrainView| t.run),
    decreases trains.len(),
{
    let f = |t: TrainView|
        !(project::LAT_MIN <= t.lat <= project::LAT_MAX && project::LON_MIN <= t.lon
            <= project::LON_MAX);
    let g = |t: TrainView| t.run;
    reveal(Seq::filter);
    if trains.len() > 0 {
        law_plotted_are_those_in_the_area(trains.drop_last());
        let before = trains.drop_last().filter(f);
        if f(trains.last()) {
            assert(before.push(trains.last()).map_values(g) =~= before.map_values(g).push(
                trains.last().run,
            ));
        }
    } else {
        assert(page::off_map(trains) =~= trains.filter(f).map_values(g));
    }
}

/// The lines of a page that is made of three lines, a rule, a body of several lines,
/// a rule, a line, and the rest.
proof fn framed_lines(
    a: Seq<char>,
    b: Seq<char>,
    c: Seq<char>,
    d: Seq<char>,
    body: Seq<char>,
    e: Seq<char>,
    f: Seq<char>,
    rest: Seq<char>,
)
    requires
        text::lacks(a, '\n'),
        text::lacks(b, '\n'),
        text::lacks(c, '\n'),
        text::lacks(d, '\n'),
        text::lacks(e, '\n'),
        text::lacks(f, '\n'),
    ensures
        ({
            let n = seq!['\n'];
            lines(a + n + b + n + c + n + d + n + body + n + e + n + f + n + rest) == seq![
                a,
                b,
                c,
                d,
            ] + lines(body) + seq![e, f] + lines(rest)
        }),
{
    let n = seq!['\n'];
    reading::split_of_one(a, '\n');
    reading::split_of_one(b, '\n');
    reading::split_of_one(c, '\n');
    reading::split_of_one(d, '\n');
    reading::split_of_one(e, '\n');
    reading::split_of_one(f, '\n');
    let s1 = a + n + b;
    let s2 = s1 + n + c;
    let s3 = s2 + n + d;
    let s4 = s3 + n + body;
    let s5 = s4 + n + e;
    let s6 = s5 + n + f;
    reading::split_of_two(a, b, '\n');
    reading::split_of_two(s1, c, '\n');
    reading::split_of_two(s2, d, '\n');
    reading::split_of_two(s3, body, '\n');
    reading::split_of_two(s4, e, '\n');
    reading::split_of_two(s5, f, '\n');
    reading::split_of_two(s6, rest, '\n');
    assert(lines(s3) =~= seq![a, b, c, d]);
    assert(lines(s6) =~= seq![a, b, c, d] + lines(body) + seq![e, f]);
}

/// What is said of where the data comes from.
pub open spec fn source_line(pos: PositionsView, name: Seq<char>) -> Seq<char> {
    if pos.from_fixture {
        "source: "@ + name + " (offline fixture)"@
    } else {
        "source: "@ + name
    }
}

/// What is said of the time of the feed.
pub open spec fn time_line(pos: PositionsView) -> Seq<char> {
    match pos.feed_time {
        Some(t) => "feed time: "@ + t,
        None => "feed time: unknown"@,
    }
}

/// Whether what a page says of its data is one line each.
pub open spec fn plain_source(pos: PositionsView, name: Seq<char>) -> bool {
    text::lacks(name, '\n') && (pos.feed_time matches Some(t) ==> text::lacks(t, '\n'))
}

proof fn feed_is_two_lines(pos: PositionsView, name: Seq<char>)
    requires
        plain_source(pos, name),
    ensures
        page::feed_lines(pos, name) == source_line(pos, name) + seq!['\n'] + time_line(pos)
            + seq!['\n'],
        text::lacks(source_line(pos, name), '\n'),
        text::lacks(time_line(pos), '\n'),
{
    broadcast use text::lacks_both;

    reveal_strlit("");
    reveal_strlit("\n");
    reveal_strlit("\nfeed time: ");
    reveal_strlit("feed time: ");
    reveal_strlit("feed time: unknown");
    reveal_strlit("unknown");
    reveal_strlit("source: ");
    reveal_strlit(" (offline fixture)");
    assert("\nfeed time: "@ =~= seq!['\n'] + "feed time: "@);
    assert("feed time: unknown"@ =~= "feed time: "@ + "unknown"@);
    assert("\n"@ =~= seq!['\n']);
    assert(text::lacks("feed time: "@, '\n') && text::lacks("unknown"@, '\n') && text::lacks(
        "source: "@,
        '\n',
    ) && text::lacks(" (offline fixture)"@, '\n')) by {
        reveal(text::lacks);
    }
    let b = source_line(pos, name);
    let c = time_line(pos);
    assert("source: "@ + name + ""@ =~= "source: "@ + name);
    assert(page::feed_lines(pos, name) =~= b + seq!['\n'] + c + seq!['\n']);
}

/// How many trains a page says it plots, out of how many.
pub open spec fn plotted_line(trains: Seq<TrainView>) -> Seq<char> {
    text::dec(in_area(trains)) + " trains plotted of "@ + text::dec(trains.len())
        + " reporting.  bbox lat[41.65..42.07] lon[-87.9..-87.45]"@
}

proof fn regroup_map(
    t: Seq<char>,
    b: Seq<char>,
    c: Seq<char>,
    d: Seq<char>,
    body: Seq<char>,
    k: Seq<char>,
    m: Seq<char>,
    l: Seq<char>,
    z: Seq<char>,
    over: Seq<char>,
    counts: Seq<char>,
)
    ensures
        ({
            let n = seq!['\n'];
            (t + n) + (b + n + c + n) + d + n + body + n + d + n + k + m + l + (z + n) + over
                + counts == t + n + b + n + c + n + d + n + body + n + d + n + (k + m + l + z) + n
                + (over + counts)
        }),
{
    let n = seq!['\n'];
    let head = (t + n) + (b + n + c + n);
    assert(head =~= t + n + b + n + c + n);
    let top = head + d + n + body + n + d + n;
    assert(top + k + m + l + (z + n) =~= top + (k + m + l + z) + n);
    assert(top + (k + m + l + z) + n + over + counts =~= top + (k + m + l + z) + n + (over
        + counts));
}

proof fn map_frame(
    body: Seq<char>,
    over: Seq<char>,
    pos: PositionsView,
    geo: Geometry,
    name: Seq<char>,
)
    requires
        plain_source(pos, name),
    ensures
        lines(trainmap::framed(body, over, pos, geo, name)) == seq![
            "CTA 'L' -- live train map"@,
            source_line(pos, name),
            time_line(pos),
            page::dashes(geo.wc as nat),
        ] + lines(body) + seq![page::dashes(geo.wc as nat), plotted_line(pos.trains)] + lines(
            over + page::line_counts(pos.trains),
        ),
{
    broadcast use text::lacks_both;

    let n = seq!['\n'];
    let t = "CTA 'L' -- live train map"@;
    let z = " reporting.  bbox lat[41.65..42.07] lon[-87.9..-87.45]"@;
    let m = " trains plotted of "@;
    let d = page::dashes(geo.wc as nat);
    let k = text::dec(in_area(pos.trains));
    let l = text::dec(pos.trains.len());
    assert("CTA 'L' -- live train map\n"@ =~= t + n && "\n"@ =~= n
        && " reporting.  bbox lat[41.65..42.07] lon[-87.9..-87.45]\n"@ =~= z + n) by {
        reveal_strlit("CTA 'L' -- live train map\n");
        reveal_strlit("CTA 'L' -- live train map");
        reveal_strlit("\n");
        reveal_strlit(" reporting.  bbox lat[41.65..42.07] lon[-87.9..-87.45]\n");
        reveal_strlit(" reporting.  bbox lat[41.65..42.07] lon[-87.9..-87.45]");
    }
    assert(text::lacks(t, '\n') && text::lacks(z, '\n') && text::lacks(m, '\n') && text::lacks(
        d,
        '\n',
    )) by {
        reveal(text::lacks);
        reveal_strlit("CTA 'L' -- live train map");
        reveal_strlit(" reporting.  bbox lat[41.65..42.07] lon[-87.9..-87.45]");
        reveal_strlit(" trains plotted of ");
    }
    text::dec_lacks(in_area(pos.trains), '\n');
    text::dec_lacks(pos.trains.len(), '\n');
    law_plotted_are_those_in_the_area(pos.trains);
    feed_is_two_lines(pos, name);
    let b = source_line(pos, name);
    let c = time_line(pos);
    let counts = page::line_counts(pos.trains);
    regroup_map(t, b, c, d, body, k, m, l, z, over, counts);
    framed_lines(t, b, c, d, body, d, k + m + l + z, over + counts);
}

/// The plain map page says where its data comes from and of when it is, and how many
/// trains it plots: those in the plotted area, of all that report. Its plot is as many
/// lines of as many braille characters as the map has cells, and a dot of the plot is
/// set exactly where a train is. This holds where the name of the source and the time
/// of the feed are one line each.
pub proof fn law_map_page_shows_the_trains(
    pos: PositionsView,
    geo: Geometry,
    name: Seq<char>,
    x: int,
    y: int,
)
    requires
        geo.valid(),
        plain_source(pos, name),
        0 <= x < geo.wp,
        0 <= y < geo.hp,
    ensures
        ({
            let l = lines(trainmap::map_text(pos, geo, name));
            let bits = l[4 + y / 4][x / 2] as u32 - 0x2800;
            &&& l[0] == "CTA 'L' -- live train map"@
            &&& l[1] == source_line(pos, name)
            &&& l[2] == time_line(pos)
            &&& l[4 + y / 4].len() == geo.wc
            &&& 0 <= bits < 256
            &&& (bits as u8 & braille::bit_of(x % 2, y % 4) != 0) <==> trainmap::train_at(
                pos.trains,
                geo,
                x,
                y,
            )
            &&& l[5 + geo.hc] == plotted_line(pos.trains)
        }),
{
    reveal(trainmap::map_text);
    let none = trainmap::zeros((geo.wc * geo.hc) as nat);
    let cells = trainmap::train_cells(none, geo, pos.trains);
    let rows = trainmap::plot_rows(cells, geo);
    assert forall|i: int| 0 <= i < rows.len() implies text::lacks(#[trigger] rows[i], '\n') by {
        reveal(text::lacks);
        assert forall|j: int| 0 <= j < rows[i].len() implies #[trigger] rows[i][j] != '\n' by {
            let b = cells[grid::slot(j, i, geo.wc as int)];
            assert(rows[i][j] == braille::glyph(b));
        }
    }
    reading::lines_of_joined(rows);
    map_frame(text::joined(rows, "\n"@), ""@, pos, geo, name);
    let l = lines(trainmap::map_text(pos, geo, name));
    assert(l[4 + y / 4] == rows[y / 4]);
    let b = cells[grid::slot(x / 2, y / 4, geo.wc as int)];
    assert(rows[y / 4][x / 2] == braille::glyph(b));
    trainmap::law_exactly_the_trains_are_lit(none, geo, pos.trains, x, y);
    trainmap::law_a_blank_map_is_dark(geo, x, y);
}

/// The coloured map page is the plain one with its plot in colour and over the
/// skeleton, and with what is said of the skeleton: head, counts and legend are the
/// same. Its legend of places gives the name behind each code.
pub proof fn law_coloured_map_page_says_the_same(
    base: MapBase,
    pos: PositionsView,
    geo: Geometry,
    name: Seq<char>,
)
    requires
        plain_source(pos, name),
    ensures
        ({
            let a = lines(trainmap::map_ansi_text(base, pos, geo, name));
            let dots = trainmap::train_dots(pos.trains, geo);
            let body = text::joined(
                trainmap::colored_plot_rows(
                    trainmap::dotted_all(
                        base.canvas.cells@,
                        geo.wc as int,
                        geo.hc as int,
                        dots,
                    ),
                    trainmap::tinted_all(base.colors@, geo.wc as int, dots),
                    base.labels@,
                    geo,
                ),
                "\n"@,
            );
            a == seq![
                "CTA 'L' -- live train map"@,
                source_line(pos, name),
                time_line(pos),
                page::dashes(geo.wc as nat),
            ] + lines(body) + seq![page::dashes(geo.wc as nat), plotted_line(pos.trains)] + lines(
                trainmap::overlay_text(trainmap::legend_views(base.legend@)) + page::line_counts(
                    pos.trains,
                ),
            )
        }),
{
    reveal(trainmap::map_ansi_text);
    let dots = trainmap::train_dots(pos.trains, geo);
    let body = text::joined(
        trainmap::colored_plot_rows(
            trainmap::dotted_all(base.canvas.cells@, geo.wc as int, geo.hc as int, dots),
            trainmap::tinted_all(base.colors@, geo.wc as int, dots),
            base.labels@,
            geo,
        ),
        "\n"@,
    );
    map_frame(
        body,
        trainmap::overlay_text(trainmap::legend_views(base.legend@)),
        pos,
        geo,
        name,
    );
}

/// What a cell of a coloured plot is: a label's character in the label's colour where
/// one stands there, otherwise its dots, in the colour of the cell where it has one.
pub proof fn law_labels_stand_over_dots(
    cells: Seq<u8>,
    colors: Seq<u8>,
    labels: Seq<Option<(char, u8)>>,
    i: int,
)
    requires
        0 <= i < cells.len(),
        colors.len() == cells.len(),
        labels.len() == cells.len(),
    ensures
        ({
            let s = braille::colored_cell(cells, colors, labels, i);
            let dots = (0x2800 + cells[i]) as char;
            let shown = match labels[i] {
                Some((ch, _)) => ch,
                None => dots,
            };
            let color = match labels[i] {
                Some((_, color)) => color,
                None => colors[i],
            };
            &&& shown != '\x1b' ==> chargrid::without_escapes(s) == seq![shown]
            &&& color == 0 && labels[i] is None ==> s == seq![shown]
            &&& shown != '\x1b' && (color != 0 || labels[i] is Some) ==> chargrid::openings(s)
                == seq![color as nat]
        }),
{
    let s = braille::colored_cell(cells, colors, labels, i);
    let none = Seq::<char>::empty();
    assert(s + none =~= s);
    let m = match labels[i] {
        Some((ch, color)) => (ch, color),
        None => (braille::glyph(cells[i]), colors[i]),
    };
    if m.0 != '\x1b' {
        if labels[i] is Some || colors[i] != 0 {
            chargrid::peel_sgr(m.1, m.0, none);
            assert(seq![m.0] + chargrid::without_escapes(none) =~= seq![m.0]);
            assert(seq![m.1 as nat] + chargrid::openings(none) =~= seq![m.1 as nat]);
        } else {
            chargrid::peel_char(m.0, none);
            assert(seq![m.0] + none =~= seq![m.0]);
            assert(seq![m.0] + chargrid::without_escapes(none) =~= seq![m.0]);
        }
    }
}

/// How many lines of the board have a train.
pub open spec fn busy(trains: Seq<TrainView>, keys: Seq<Seq<char>>) -> nat {
    count(keys, |key: Seq<char>| running(trains, key) > 0)
}

/// The line of the legend for a route.
pub open spec fn legend_line(trains: Seq<TrainView>, key: Seq<char>) -> Seq<char> {
    "  "@ + text::padded(render::label_of(key), 8) + " "@ + text::dec(running(trains, key))
}

proof fn counts_are_lines(trains: Seq<TrainView>, keys: Seq<Seq<char>>)
    requires
        forall|i: int| 0 <= i < keys.len() ==> text::lacks(#[trigger] keys[i], '\n'),
    ensures
        ({
            let all = text::concat(
                keys.map_values(|key: Seq<char>| page::count_line(trains, key)),
            );
            let l = lines(all);
            &&& l == keys.filter(|key: Seq<char>| running(trains, key) > 0).map_values(
                |key: Seq<char>| legend_line(trains, key),
            ).push(Seq::<char>::empty())
        }),
    decreases keys.len(),
{
    broadcast use text::lacks_both;

    let f = |key: Seq<char>| running(trains, key) > 0;
    let g = |key: Seq<char>| legend_line(trains, key);
    let mapped = keys.map_values(|key: Seq<char>| page::count_line(trains, key));
    reveal(Seq::filter);
    if keys.len() == 0 {
        reading::empty_lacks('\n');
        reading::split_of_one(Seq::<char>::empty(), '\n');
        assert(text::concat(mapped) =~= Seq::<char>::empty());
        assert(lines(text::concat(mapped)) =~= keys.filter(f).map_values(g).push(
            Seq::<char>::empty(),
        ));
    } else {
        let front = keys.drop_last();
        let key = keys.last();
        assert(keys[keys.len() - 1] == key);
        assert forall|i: int| 0 <= i < front.len() implies text::lacks(
            #[trigger] front[i],
            '\n',
        ) by {
            assert(front[i] == keys[i]);
        }
        counts_are_lines(trains, front);
        let before = text::concat(
            front.map_values(|key: Seq<char>| page::count_line(trains, key)),
        );
        assert(mapped.drop_last() =~= front.map_values(
            |key: Seq<char>| page::count_line(trains, key),
        ));
        on_line_is(trains, key, arbitrary());
        let line = legend_line(trains, key);
        let d = front.filter(f).map_values(g);
        if running(trains, key) > 0 {
            reading::labels_are_one_line(key);
            let label = render::label_of(key);
            if label.len() < 8 {
                text::filled_lacks(' ', (8 - label.len()) as nat, '\n');
            }
            text::dec_lacks(running(trains, key), '\n');
            assert(text::lacks("  "@, '\n') && text::lacks(" "@, '\n') && "\n"@ =~= seq!['\n']) by {
                reveal(text::lacks);
                reveal_strlit("  ");
                reveal_strlit(" ");
                reveal_strlit("\n");
            }
            assert(text::lacks(line, '\n'));
            reading::empty_lacks('\n');
            let e = Seq::<char>::empty();
            assert(line + "\n"@ =~= line + seq!['\n'] + e);
            reading::line_break(before, d, e, line + "\n"@, line, e);
            assert(e + line =~= line);
            assert(front.filter(f).push(key).map_values(g) =~= d.push(line));
        } else {
            reveal_strlit("");
            assert(before + ""@ =~= before);
        }
    }
}

/// The legend of a page gives, in the order of the board, a line for each line of the
/// board that has trains, with its name and how many there are, and none for the
/// others.
pub proof fn law_legend_counts_each_busy_line(trains: Seq<TrainView>)
    ensures
        lines(page::line_counts(trains)) == seq![
            Seq::<char>::empty(),
            "legend (trains per line):"@,
        ] + transit::line_keys().filter(|key: Seq<char>| running(trains, key) > 0).map_values(
            |key: Seq<char>| legend_line(trains, key),
        ).push(Seq::<char>::empty()),
{
    let keys = transit::line_keys();
    assert forall|i: int| 0 <= i < keys.len() implies text::lacks(#[trigger] keys[i], '\n') by {
        reveal(text::lacks);
        reveal_strlit("red");
        reveal_strlit("blue");
        reveal_strlit("brn");
        reveal_strlit("g");
        reveal_strlit("org");
        reveal_strlit("p");
        reveal_strlit("pink");
        reveal_strlit("y");
    }
    counts_are_lines(trains, keys);
    let all = text::concat(keys.map_values(|key: Seq<char>| page::count_line(trains, key)));
    let e = Seq::<char>::empty();
    let t = "legend (trains per line):"@;
    reveal_strlit("legend (trains per line):");
    reveal_strlit("\nlegend (trains per line):\n");
    assert("\nlegend (trains per line):\n"@ =~= e + seq!['\n'] + t + seq!['\n']);
    assert(page::line_counts(trains) =~= e + seq!['\n'] + t + seq!['\n'] + all);
    assert(text::lacks(t, '\n')) by {
        reveal(text::lacks);
    }
    reading::empty_lacks('\n');
    reading::split_of_one(e, '\n');
    reading::split_of_one(t, '\n');
    reading::split_of_two(e, t, '\n');
    reading::split_of_two(e + seq!['\n'] + t, all, '\n');
    assert(seq![e] + seq![t] =~= seq![e, t]);
}

// ---------- the atlas ----------

/// What the atlas says of how much it shows.
pub open spec fn shown_line(geo: GeoData, geom: Geometry, trains: Seq<TrainView>) -> Seq<char> {
    let seen = atlas::shown(geo.landmarks@, atlas::page_marks(geo, geom, trains), geom).len();
    text::dec(in_area(trains)) + " trains plotted of "@ + text::dec(trains.len())
        + " reporting.  "@ + text::dec(seen) + " of "@ + text::dec(geo.landmarks@.len())
        + " landmarks shown.  "@ + text::dec(seen) + " places named."@
}

proof fn regroup_atlas(
    t: Seq<char>,
    b: Seq<char>,
    c: Seq<char>,
    o: Seq<char>,
    v: Seq<char>,
    d: Seq<char>,
    body: Seq<char>,
    f: Seq<char>,
    rest: Seq<char>,
)
    requires
        text::lacks(t, '\n'),
        text::lacks(b, '\n'),
        text::lacks(c, '\n'),
        text::lacks(o, '\n'),
        text::lacks(v, '\n'),
        text::lacks(d, '\n'),
        text::lacks(f, '\n'),
    ensures
        ({
            let n = seq!['\n'];
            lines(
                t + n + b + n + c + n + o + n + v + n + d + n + body + n + d + n + f + n + rest,
            ) == seq![t, b, c, o, v, d] + lines(body) + seq![d, f] + lines(rest)
        }),
{
    let n = seq!['\n'];
    reading::split_of_one(t, '\n');
    reading::split_of_one(b, '\n');
    reading::split_of_one(c, '\n');
    reading::split_of_one(o, '\n');
    reading::split_of_one(v, '\n');
    reading::split_of_one(d, '\n');
    reading::split_of_one(f, '\n');
    let s1 = t + n + b;
    let s2 = s1 + n + c;
    let s3 = s2 + n + o;
    let s4 = s3 + n + v;
    let s5 = s4 + n + d;
    let s6 = s5 + n + body;
    let s7 = s6 + n + d;
    let s8 = s7 + n + f;
    reading::split_of_two(t, b, '\n');
    reading::split_of_two(s1, c, '\n');
    reading::split_of_two(s2, o, '\n');
    reading::split_of_two(s3, v, '\n');
    reading::split_of_two(s4, d, '\n');
    reading::split_of_two(s5, body, '\n');
    reading::split_of_two(s6, d, '\n');
    reading::split_of_two(s7, f, '\n');
    reading::split_of_two(s8, rest, '\n');
    assert(lines(s5) =~= seq![t, b, c, o, v, d]);
    assert(lines(s8) =~= seq![t, b, c, o, v, d] + lines(body) + seq![d, f]);
}

/// The page after its head and plot.
spec fn atlas_rest(geo: GeoData, seen: Seq<Landmark>, trains: Seq<TrainView>) -> Seq<char> {
    "bbox lat[41.65..42.07] lon[-87.9..-87.45]\n"@ + atlas::roads_line(geo.expressways@)
        + "\nLANDMARKS  (marker -> place)\n"@ + atlas::legend_text(seen) + page::line_counts(trains)
}

/// Whether the names of an overlay are one line each.
pub open spec fn plain_overlay(geo: GeoData) -> bool {
    &&& text::lacks(geo.meta.name@, '\n')
    &&& text::lacks(geo.shoreline.name@, '\n')
    &&& forall|i: int|
        0 <= i < geo.landmarks@.len() ==> text::lacks((#[trigger] geo.landmarks@[i]).name@, '\n')
            && geo.landmarks@[i].marker != '\n'
    &&& forall|i: int|
        0 <= i < geo.expressways@.len() ==> text::lacks(
            (#[trigger] geo.expressways@[i]).name@,
            '\n',
        )
}

proof fn atlas_join(
    t: Seq<char>,
    feed: Seq<char>,
    b: Seq<char>,
    c: Seq<char>,
    o1: Seq<char>,
    o2: Seq<char>,
    o3: Seq<char>,
    o4: Seq<char>,
    o5: Seq<char>,
    v: Seq<char>,
    d: Seq<char>,
    body: Seq<char>,
    f: Seq<char>,
    r1: Seq<char>,
    r2: Seq<char>,
    r3: Seq<char>,
    r4: Seq<char>,
    r5: Seq<char>,
)
    requires
        feed == b + seq!['\n'] + c + seq!['\n'],
    ensures
        ({
            let n = seq!['\n'];
            (t + n) + feed + o1 + o2 + o3 + o4 + (o5 + n + v + n) + d + n + body + n + d + n + (f
                + n) + r1 + r2 + r3 + r4 + r5 == t + n + b + n + c + n + (o1 + o2 + o3 + o4 + o5)
                + n + v + n + d + n + body + n + d + n + f + n + (r1 + r2 + r3 + r4 + r5)
        }),
{
    let n = seq!['\n'];
    let h = (t + n) + feed;
    assert(h =~= t + n + b + n + c + n);
    let x = h + o1 + o2 + o3 + o4 + (o5 + n + v + n);
    assert(x =~= h + (o1 + o2 + o3 + o4 + o5) + n + v + n);
    let y = x + d + n + body + n + d + n;
    assert(y + (f + n) =~= y + f + n);
    let z = y + f + n;
    assert(z + r1 + r2 + r3 + r4 + r5 =~= z + (r1 + r2 + r3 + r4 + r5));
}

proof fn flat_count(
    y: Seq<char>,
    a: Seq<char>,
    b: Seq<char>,
    c: Seq<char>,
    d: Seq<char>,
    e: Seq<char>,
    f: Seq<char>,
    g: Seq<char>,
    h: Seq<char>,
    i: Seq<char>,
    z: Seq<char>,
)
    ensures
        y + a + b + c + d + e + f + g + h + i + z == y + (a + b + c + d + e + f + g + h + i + z),
{
    assert(y + a + b + c =~= y + (a + b + c));
    let p = a + b + c;
    assert(y + p + d + e + f =~= y + (p + d + e + f));
    let q = p + d + e + f;
    assert(y + q + g + h + i + z =~= y + (q + g + h + i + z));
}

proof fn atlas_words()
    ensures
        "CTA 'L' -- geographic atlas\n"@ == "CTA 'L' -- geographic atlas"@ + seq!['\n'],
        ")\nview: north up; west = city, east = Lake Michigan\n"@ == ")"@ + seq!['\n']
            + "view: north up; west = city, east = Lake Michigan"@ + seq!['\n'],
        " places named.\n"@ == " places named."@ + seq!['\n'],
        "\n"@ == seq!['\n'],
        text::lacks("CTA 'L' -- geographic atlas"@, '\n'),
        text::lacks(")"@, '\n'),
        text::lacks("view: north up; west = city, east = Lake Michigan"@, '\n'),
        text::lacks(" places named."@, '\n'),
        text::lacks("overlay: "@, '\n'),
        text::lacks(" ("@, '\n'),
        text::lacks(" trains plotted of "@, '\n'),
        text::lacks(" reporting.  "@, '\n'),
        text::lacks(" of "@, '\n'),
        text::lacks(" landmarks shown.  "@, '\n'),
{
    reveal(text::lacks);
    reveal_strlit("CTA 'L' -- geographic atlas\n");
    reveal_strlit("CTA 'L' -- geographic atlas");
    reveal_strlit(")\nview: north up; west = city, east = Lake Michigan\n");
    reveal_strlit("view: north up; west = city, east = Lake Michigan");
    reveal_strlit(")");
    reveal_strlit(" places named.\n");
    reveal_strlit(" places named.");
    reveal_strlit("\n");
    reveal_strlit("overlay: ");
    reveal_strlit(" (");
    reveal_strlit(" trains plotted of ");
    reveal_strlit(" reporting.  ");
    reveal_strlit(" of ");
    reveal_strlit(" landmarks shown.  ");
    assert("CTA 'L' -- geographic atlas\n"@ =~= "CTA 'L' -- geographic atlas"@ + seq!['\n']);
    assert(")\nview: north up; west = city, east = Lake Michigan\n"@ =~= ")"@ + seq!['\n']
        + "view: north up; west = city, east = Lake Michigan"@ + seq!['\n']);
    assert(" places named.\n"@ =~= " places named."@ + seq!['\n']);
    assert("\n"@ =~= seq!['\n']);
}

/// The atlas page says where its data and its overlay come from, shows the grid
/// between two rules, and says how many trains it plots, of all that report, and how
/// many landmarks show, of all there are; these are the places it names. Behind that
/// come the expressways, the legend of landmarks and the counts. This holds where the
/// names are one line each.
pub proof fn law_atlas_page_says_what_it_shows(
    geo: GeoData,
    geom: Geometry,
    pos: PositionsView,
    name: Seq<char>,
    ansi: bool,
)
    requires
        plain_source(pos, name),
        plain_overlay(geo),
    ensures
        ({
            let cells = atlas::page_marks(geo, geom, pos.trains);
            let seen = atlas::shown(geo.landmarks@, cells, geom);
            let body = text::joined(
                if ansi {
                    chargrid::colored_rows(cells, geom.wc as int, geom.hc as int)
                } else {
                    chargrid::plain_rows(cells, geom.wc as int, geom.hc as int)
                },
                "\n"@,
            );
            lines(atlas::atlas_text(geo, geom, pos, name, ansi)) == seq![
                "CTA 'L' -- geographic atlas"@,
                source_line(pos, name),
                time_line(pos),
                "overlay: "@ + geo.meta.name@ + " ("@ + geo.shoreline.name@ + ")"@,
                "view: north up; west = city, east = Lake Michigan"@,
                page::dashes(geom.wc as nat),
            ] + lines(body) + seq![
                page::dashes(geom.wc as nat),
                shown_line(geo, geom, pos.trains),
            ] + lines(
                "bbox lat[41.65..42.07] lon[-87.9..-87.45]\n"@ + atlas::roads_line(
                    geo.expressways@,
                ) + "\nLANDMARKS  (marker -> place)\n"@ + atlas::legend_text(seen)
                    + page::line_counts(pos.trains),
            )
        }),
{
    broadcast use text::lacks_both;

    let n = seq!['\n'];
    let cells = atlas::page_marks(geo, geom, pos.trains);
    let seen = atlas::shown(geo.landmarks@, cells, geom);
    let body = text::joined(
        if ansi {
            chargrid::colored_rows(cells, geom.wc as int, geom.hc as int)
        } else {
            chargrid::plain_rows(cells, geom.wc as int, geom.hc as int)
        },
        "\n"@,
    );
    let t = "CTA 'L' -- geographic atlas"@;
    let v = "view: north up; west = city, east = Lake Michigan"@;
    let d = page::dashes(geom.wc as nat);
    let feed = page::feed_lines(pos, name);
    let b = source_line(pos, name);
    let c = time_line(pos);
    let o = "overlay: "@ + geo.meta.name@ + " ("@ + geo.shoreline.name@ + ")"@;
    let f = shown_line(geo, geom, pos.trains);
    let r1 = "bbox lat[41.65..42.07] lon[-87.9..-87.45]\n"@;
    let r2 = atlas::roads_line(geo.expressways@);
    let r3 = "\nLANDMARKS  (marker -> place)\n"@;
    let r4 = atlas::legend_text(seen);
    let r5 = page::line_counts(pos.trains);
    atlas_words();
    feed_is_two_lines(pos, name);
    law_plotted_are_those_in_the_area(pos.trains);
    text::dec_lacks(in_area(pos.trains), '\n');
    text::dec_lacks(pos.trains.len(), '\n');
    text::dec_lacks(seen.len(), '\n');
    text::dec_lacks(geo.landmarks@.len(), '\n');
    text::filled_lacks('-', d.len(), '\n');
    assert(d =~= text::filled('-', d.len()));
    let y = (t + n) + feed + "overlay: "@ + geo.meta.name@ + " ("@ + geo.shoreline.name@ + (")"@ + n
        + v + n) + d + n + body + n + d + n;
    let k = text::dec(in_area(pos.trains));
    let l = text::dec(pos.trains.len());
    let m = text::dec(seen.len());
    let q = text::dec(geo.landmarks@.len());
    flat_count(
        y,
        k,
        " trains plotted of "@,
        l,
        " reporting.  "@,
        m,
        " of "@,
        q,
        " landmarks shown.  "@,
        m,
        " places named."@ + n,
    );
    let parts = k + " trains plotted of "@ + l + " reporting.  "@ + m + " of "@ + q
        + " landmarks shown.  "@ + m;
    assert(parts + (" places named."@ + n) =~= f + n);
    atlas_join(
        t,
        feed,
        b,
        c,
        "overlay: "@,
        geo.meta.name@,
        " ("@,
        geo.shoreline.name@,
        ")"@,
        v,
        d,
        body,
        f,
        r1,
        r2,
        r3,
        r4,
        r5,
    );
    regroup_atlas(t, b, c, o, v, d, body, f, r1 + r2 + r3 + r4 + r5);
    reveal(atlas::atlas_text);
    assert(atlas::atlas_text(geo, geom, pos, name, ansi) == y + (f + n) + r1 + r2 + r3 + r4 + r5);
}

proof fn legend_lines_are(marks: Seq<Landmark>)
    requires
        forall|i: int|
            0 <= i < marks.len() ==> text::lacks((#[trigger] marks[i]).name@, '\n')
                && marks[i].marker != '\n',
    ensures
        lines(atlas::legend_text(marks)) == marks.map_values(
            |m: Landmark| "  "@ + seq![m.marker] + "  "@ + m.name@,
        ).push(Seq::<char>::empty()),
    decreases marks.len(),
{
    broadcast use text::lacks_both;

    let g = |m: Landmark| "  "@ + seq![m.marker] + "  "@ + m.name@;
    let all = marks.map_values(|m: Landmark| atlas::legend_line(m));
    let e = Seq::<char>::empty();
    reading::empty_lacks('\n');
    if marks.len() == 0 {
        reading::split_of_one(e, '\n');
        assert(atlas::legend_text(marks) =~= e);
        assert(lines(e) =~= marks.map_values(g).push(e));
    } else {
        let front = marks.drop_last();
        let m = marks.last();
        assert(marks[marks.len() - 1] == m);
        assert forall|i: int| 0 <= i < front.len() implies text::lacks(
            (#[trigger] front[i]).name@,
            '\n',
        ) && front[i].marker != '\n' by {
            assert(front[i] == marks[i]);
        }
        legend_lines_are(front);
        assert(all.drop_last() =~= front.map_values(|m: Landmark| atlas::legend_line(m)));
        let line = "  "@ + seq![m.marker] + "  "@ + m.name@;
        assert(text::lacks("  "@, '\n') && text::lacks(seq![m.marker], '\n') && "\n"@
            =~= seq!['\n']) by {
            reveal(text::lacks);
            reveal_strlit("  ");
            reveal_strlit("\n");
        }
        assert(line + "\n"@ =~= line + seq!['\n'] + e);
        let d = front.map_values(g);
        reading::line_break(atlas::legend_text(front), d, e, line + "\n"@, line, e);
        assert(e + line =~= line);
        assert(marks.map_values(g) =~= d.push(line));
    }
}

/// The atlas's legend gives a line for each landmark that shows, with its marker and
/// its name, and the expressways are named in one line, in order.
pub proof fn law_atlas_legend_names_the_landmarks(marks: Seq<Landmark>, roads: Seq<Expressway>)
    requires
        forall|i: int|
            0 <= i < marks.len() ==> text::lacks((#[trigger] marks[i]).name@, '\n')
                && marks[i].marker != '\n',
    ensures
        lines(atlas::legend_text(marks)) == marks.map_values(
            |m: Landmark| "  "@ + seq![m.marker] + "  "@ + m.name@,
        ).push(Seq::<char>::empty()),
        roads.len() == 0 ==> atlas::roads_line(roads).len() == 0,
        roads.len() > 0 ==> atlas::roads_line(roads) == "expressways  (= | / \\):  "@
            + text::joined(roads.map_values(|r: Expressway| r.name@), "; "@) + "\n"@,
{
    legend_lines_are(marks);
    reveal_strlit("");
    assert(atlas::road_names(roads) =~= roads.map_values(|r: Expressway| r.name@));
}

/// The rules above and below a plot are as wide as the plot, up to 78 dashes.
pub proof fn law_rules_are_as_wide_as_the_plot(wc: nat, i: int)
    ensures
        page::dashes(wc).len() <= 78,
        wc <= 78 ==> page::dashes(wc).len() == wc,
        wc > 78 ==> page::dashes(wc).len() == 78,
        0 <= i < page::dashes(wc).len() ==> page::dashes(wc)[i] == '-',
{
}

} // verus!
