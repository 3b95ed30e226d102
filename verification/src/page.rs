//! Parts that the map and atlas pages share.

use crate::project;
use crate::render;
use crate::text;
use crate::transit;
use crate::transit::{Positions, PositionsView, TrainView};
use vstd::prelude::*;
use vstd::string::StringExecFns;

verus! {

/// The escape character, with which a terminal's colour sequences start.
pub const ESCAPE: char = '\x1b';

/// Where a page's data comes from, and of when it is.
pub open spec fn feed_lines(pos: PositionsView, source_name: Seq<char>) -> Seq<char> {
    "source: "@ + source_name + (if pos.from_fixture {
        " (offline fixture)"@
    } else {
        ""@
    }) + "\nfeed time: "@ + (match pos.feed_time {
        Some(t) => t,
        None => "unknown"@,
    }) + "\n"@
}

/// Appends where the data comes from, and of when it is.
pub fn push_feed_lines(out: &mut String, pos: &Positions, source_name: &str)
    ensures
        final(out)@ == old(out)@ + feed_lines(pos@, source_name@),
{
    out.append("source: ");
    out.append(source_name);
    if pos.from_fixture {
        out.append(" (offline fixture)");
    } else {
        out.append("");
    }
    out.append("\nfeed time: ");
    match &pos.feed_time {
        Some(t) => {
            out.append(t.as_str());
        },
        None => {
            out.append("unknown");
        },
    }
    out.append("\n");
    assert(out@ =~= old(out)@ + feed_lines(pos@, source_name@));
}

/// The dashed rule above and below a plot of `wc` columns.
pub open spec fn dashes(wc: nat) -> Seq<char> {
    text::filled(
        '-',
        if wc < 78 {
            wc
        } else {
            78
        },
    )
}

/// The dashed rule above and below a plot of `wc` columns.
pub fn dashed_rule(wc: usize) -> (r: String)
    ensures
        r@ == dashes(wc as nat),
{
    let n: usize = if wc < 78 {
        wc
    } else {
        78
    };
    text::repeat('-', n)
}

/// The legend's line for one route: nothing where no train runs on it.
pub open spec fn count_line(trains: Seq<TrainView>, key: Seq<char>) -> Seq<char> {
    let n = render::on_line(trains, key).len();
    if n > 0 {
        "  "@ + text::padded(render::label_of(key), 8) + " "@ + text::dec(n) + "\n"@
    } else {
        ""@
    }
}

/// The legend: how many trains run on each line that has any, in board order.
pub open spec fn line_counts(trains: Seq<TrainView>) -> Seq<char> {
    "\nlegend (trains per line):\n"@ + text::concat(
        transit::line_keys().map_values(|key: Seq<char>| count_line(trains, key)),
    )
}

/// Appends how many trains run on each line that has any.
pub fn push_line_counts(out: &mut String, pos: &Positions)
    ensures
        final(out)@ == old(out)@ + line_counts(pos@.trains),
{
    out.append("\nlegend (trains per line):\n");
    let ghost lines = transit::line_keys().map_values(
        |key: Seq<char>| count_line(pos@.trains, key),
    );
    let ghost head = out@;
    let keys = render::line_order();
    let mut k: usize = 0;
    assert(head + text::concat(lines.take(0)) =~= head);
    while k < 8
        invariant
            k <= 8,
            keys@.len() == 8,
            forall|i: int| 0 <= i < 8 ==> (#[trigger] keys@[i])@ == transit::line_keys()[i],
            lines == transit::line_keys().map_values(
                |key: Seq<char>| count_line(pos@.trains, key),
            ),
            out@ == head + text::concat(lines.take(k as int)),
        decreases 8 - k,
    {
        let key = keys[k];
        let n: usize = render::count_on_line(pos, key);
        let ghost before = out@;
        if n > 0 {
            out.append("  ");
            let label = text::pad(render::line_label(key), 8);
            out.append(label.as_str());
            out.append(" ");
            text::push_dec(out, n as u128);
            out.append("\n");
        } else {
            out.append("");
        }
        proof {
            assert(lines.take(k + 1).drop_last() =~= lines.take(k as int));
            assert(lines[k as int] == count_line(pos@.trains, key@));
            assert(out@ =~= before + count_line(pos@.trains, key@));
            assert(before + lines[k as int] =~= head + (text::concat(lines.take(k as int))
                + lines[k as int]));
        }
        k = k + 1;
    }
    assert(lines.take(8) =~= lines);
    assert(out@ =~= old(out)@ + line_counts(pos@.trains));
}

/// How many trains lie in the plotted area.
pub open spec fn plotted_count(trains: Seq<TrainView>) -> nat
    decreases trains.len(),
{
    if trains.len() == 0 {
        0
    } else {
        let t = trains.last();
        plotted_count(trains.drop_last()) + (if project::in_bbox(t.lat, t.lon) {
            1nat
        } else {
            0nat
        })
    }
}

/// The run numbers of the trains outside the plotted area, in feed order.
pub open spec fn off_map(trains: Seq<TrainView>) -> Seq<Seq<char>>
    decreases trains.len(),
{
    if trains.len() == 0 {
        Seq::empty()
    } else {
        let t = trains.last();
        let before = off_map(trains.drop_last());
        if project::in_bbox(t.lat, t.lon) {
            before
        } else {
            before.push(t.run)
        }
    }
}

/// The run numbers of the trains that a map leaves out, for diagnostics.
pub fn dropped_runs(pos: &Positions) -> (r: Vec<String>)
    ensures
        text::views(r@) == off_map(pos@.trains),
{
    let ghost all = pos@.trains;
    let mut out: Vec<String> = Vec::new();
    let mut i: usize = 0;
    assert(text::views(out@) =~= off_map(all.take(0)));
    while i < pos.trains.len()
        invariant
            all == pos@.trains,
            i <= pos.trains@.len(),
            text::views(out@) == off_map(all.take(i as int)),
        decreases pos.trains@.len() - i,
    {
        let t = &pos.trains[i];
        proof {
            assert(all.take(i + 1).drop_last() =~= all.take(i as int));
            assert(all.take(i + 1).last() == t@);
        }
        if t.lat < project::LAT_MIN || project::LAT_MAX < t.lat || t.lon < project::LON_MIN
            || project::LON_MAX < t.lon {
            let ghost before = out@;
            out.push(t.run.as_str().to_owned());
            assert(text::views(out@) =~= text::views(before).push(t@.run));
        }
        i = i + 1;
    }
    assert(all.take(i as int) =~= all);
    out
}

/// Every train is either plotted or named among those left out.
pub proof fn law_every_train_is_plotted_or_named(trains: Seq<TrainView>)
    ensures
        plotted_count(trains) + off_map(trains).len() == trains.len(),
    decreases trains.len(),
{
    if trains.len() > 0 {
        law_every_train_is_plotted_or_named(trains.drop_last());
    }
}

// ---------- pages without colour ----------

proof fn label_holds_no_escape(key: Seq<char>)
    requires
        text::lacks(key, ESCAPE),
    ensures
        text::lacks(render::label_of(key), ESCAPE),
{
    reveal(text::lacks);
    reveal_strlit("Red");
    reveal_strlit("Blue");
    reveal_strlit("Brown");
    reveal_strlit("Green");
    reveal_strlit("Orange");
    reveal_strlit("Purple");
    reveal_strlit("Pink");
    reveal_strlit("Yellow");
}

proof fn keys_hold_no_escape(i: int)
    requires
        0 <= i < 8,
    ensures
        text::lacks(transit::line_keys()[i], ESCAPE),
{
    reveal(text::lacks);
    reveal_strlit("red");
    reveal_strlit("blue");
    reveal_strlit("brn");
    reveal_strlit("g");
    reveal_strlit("org");
    reveal_strlit("p");
    reveal_strlit("pink");
    reveal_strlit("y");
}

/// The legend of a page holds no escape character.
pub proof fn line_counts_hold_no_escape(trains: Seq<TrainView>)
    ensures
        text::lacks(line_counts(trains), ESCAPE),
{
    broadcast use text::lacks_both;

    let lines = transit::line_keys().map_values(|key: Seq<char>| count_line(trains, key));
    assert forall|i: int| 0 <= i < lines.len() implies text::lacks(#[trigger] lines[i], ESCAPE) by {
        let key = transit::line_keys()[i];
        let label = render::label_of(key);
        let n = render::on_line(trains, key).len();
        keys_hold_no_escape(i);
        label_holds_no_escape(key);
        if label.len() < 8 {
            text::filled_lacks(' ', (8 - label.len()) as nat, ESCAPE);
        }
        text::dec_lacks(n, ESCAPE);
        blank_texts_hold_no_escape();
        assert(lines[i] == count_line(trains, key));
    }
    text::concat_lacks(lines, ESCAPE);
    assert(text::lacks("\nlegend (trains per line):\n"@, ESCAPE)) by {
        reveal(text::lacks);
        reveal_strlit("\nlegend (trains per line):\n");
    }
}

/// The short texts between the parts of a page hold no escape character.
pub proof fn blank_texts_hold_no_escape()
    ensures
        text::lacks(""@, ESCAPE),
        text::lacks(" "@, ESCAPE),
        text::lacks("  "@, ESCAPE),
        text::lacks("\n"@, ESCAPE),
{
    reveal(text::lacks);
    reveal_strlit("");
    reveal_strlit(" ");
    reveal_strlit("  ");
    reveal_strlit("\n");
}

/// Whether the time of the feed, where it is known, holds no escape character.
pub open spec fn feed_time_is_clean(pos: PositionsView) -> bool {
    pos.feed_time matches Some(t) ==> text::lacks(t, ESCAPE)
}

/// The head of a page holds an escape character only where the name of the source or
/// the time of the feed does.
pub proof fn feed_lines_hold_no_escape(pos: PositionsView, source_name: Seq<char>)
    ensures
        text::lacks(feed_lines(pos, source_name), ESCAPE) <==> text::lacks(source_name, ESCAPE)
            && feed_time_is_clean(pos),
{
    broadcast use text::lacks_both;

    blank_texts_hold_no_escape();
    assert(text::lacks("source: "@, ESCAPE) && text::lacks(" (offline fixture)"@, ESCAPE)
        && text::lacks("\nfeed time: "@, ESCAPE) && text::lacks("unknown"@, ESCAPE)) by {
        reveal(text::lacks);
        reveal_strlit("source: ");
        reveal_strlit(" (offline fixture)");
        reveal_strlit("\nfeed time: ");
        reveal_strlit("unknown");
    }
}

} // verus!
