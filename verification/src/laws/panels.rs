//! What the narrative panels say, when they are fetched and how they age.

use crate::laws::reading;
use crate::laws::reading::{count, lines};
use crate::narration;
use crate::narration::{AiResp, NarrationView, Panel, PanelKind, PollState};
use crate::text;
use crate::transit::{PositionsView, TrainView};
use vstd::prelude::*;

verus! {

/// The trains flagged as approaching and as delayed are counted.
pub proof fn law_flags_are_counted(trains: Seq<TrainView>)
    ensures
        narration::approaching_count(trains) == count(trains, |t: TrainView| t.approaching),
        narration::delayed_count(trains) == count(trains, |t: TrainView| t.delayed),
    decreases trains.len(),
{
    if trains.len() > 0 {
        law_flags_are_counted(trains.drop_last());
    }
}

/// What a panel shows: the last summary as it came, or what stands in for it where
/// there is none but white space.
pub proof fn law_summaries_are_shown_as_they_came(panel: Panel, other: Seq<char>)
    ensures
        (forall|i: int| 0 <= i < panel.summary@.len() ==> text::is_space(#[trigger] panel.summary@[i]))
            ==> narration::panel_body(panel, other) == other,
        (exists|i: int| 0 <= i < panel.summary@.len() && !text::is_space(#[trigger] panel.summary@[i]))
            ==> narration::panel_body(panel, other) == panel.summary@,
{
    blank_is_trimmed(panel.summary@);
}

proof fn blank_is_trimmed(s: Seq<char>)
    ensures
        text::trimmed(s).len() == 0 <==> forall|i: int|
            0 <= i < s.len() ==> text::is_space(#[trigger] s[i]),
{
    crate::laws::feed::law_trimming_takes_off_white_space(s);
    let t = text::trimmed(s);
    let (a, b) = choose|a: Seq<char>, b: Seq<char>|
        #![trigger a + t + b]
        crate::laws::feed::blank(a) && crate::laws::feed::blank(b) && s == a + t + b;
    if t.len() == 0 {
        assert forall|i: int| 0 <= i < s.len() implies text::is_space(#[trigger] s[i]) by {
            if i < a.len() {
                assert(s[i] == a[i]);
            } else {
                assert(s[i] == b[i - a.len()]);
            }
        }
    } else {
        assert(s[a.len() as int] == t[0]);
    }
}

/// A reply can be used exactly where it reports no error and its summary is more than
/// white space; the summary is then passed on as it came.
pub proof fn law_usable_replies(resp: AiResp)
    ensures
        resp.error is Some ==> narration::summary_of(resp) == Err::<Seq<char>, Seq<char>>(
            resp.error->0@,
        ),
        resp.error is None && resp.summary is None ==> narration::summary_of(resp) is Err,
        resp.error is None && resp.summary is Some ==> (narration::summary_of(resp) is Ok
            <==> exists|i: int|
            0 <= i < resp.summary->0@.len() && !text::is_space(#[trigger] resp.summary->0@[i])),
        narration::summary_of(resp) matches Ok(s) ==> s == resp.summary->0@,
{
    if resp.summary is Some {
        blank_is_trimmed(resp.summary->0@);
    } else {
        blank_is_trimmed(Seq::<char>::empty());
    }
}

/// One of the panels.
pub open spec fn panel(view: NarrationView, kind: PanelKind) -> Panel {
    match kind {
        PanelKind::Dispatch => view.dispatch,
        PanelKind::Sitrep => view.sitrep,
        PanelKind::Events => view.events,
    }
}

/// A good reply gives its panel the new summary and the time; a failed one leaves the
/// panel as it is. The other panels stay as they are either way.
pub proof fn law_replies_reach_their_panel(
    before: NarrationView,
    after: NarrationView,
    kind: PanelKind,
    other: PanelKind,
    outcome: Result<Seq<char>, Seq<char>>,
    now: i64,
)
    requires
        narration::one_refreshed(before, after, kind, outcome, now),
    ensures
        outcome matches Ok(s) ==> panel(after, kind).summary@ == s && panel(after, kind).updated_at
            == Some(now),
        outcome is Err || other != kind ==> panel(after, other).summary@ == panel(
            before,
            other,
        ).summary@ && panel(after, other).updated_at == panel(before, other).updated_at,
        after.home_name == before.home_name,
{
}

/// The interval of a panel, in seconds: a minute for the dispatch, five minutes for
/// the alerts, half an hour for the events.
pub open spec fn interval(kind: PanelKind) -> int {
    match kind {
        PanelKind::Dispatch => 60,
        PanelKind::Sitrep => 300,
        PanelKind::Events => 1800,
    }
}

/// When a panel was last asked for.
pub open spec fn asked(state: PollState, kind: PanelKind) -> Option<i64> {
    match kind {
        PanelKind::Dispatch => state.dispatch,
        PanelKind::Sitrep => state.sitrep,
        PanelKind::Events => state.events,
    }
}

/// What a panel is asked for by.
pub open spec fn question(kind: PanelKind, mapid: Seq<char>, name: Seq<char>) -> Seq<char> {
    match kind {
        PanelKind::Dispatch => "/api/feed/narration"@,
        PanelKind::Sitrep => "/api/alerts/summary?station="@ + narration::encoded_text(mapid)
            + "&stn="@ + narration::encoded_text(name),
        PanelKind::Events => "/api/events/advisory"@,
    }
}

/// A panel is asked for exactly where it never was, or where its interval has passed
/// since, and then once, by its own endpoint.
pub proof fn law_panels_are_asked_for_when_due(
    state: PollState,
    now: i64,
    mapid: Seq<char>,
    name: Seq<char>,
    kind: PanelKind,
)
    ensures
        ({
            let asks = narration::due_requests(state, now, mapid, name);
            let due = match asked(state, kind) {
                Some(t) => now - t >= interval(kind),
                None => true,
            };
            &&& due <==> asks.contains((kind, question(kind, mapid, name)))
            &&& forall|i: int|
                0 <= i < asks.len() ==> (#[trigger] asks[i]).1 == question(asks[i].0, mapid, name)
            &&& forall|i: int, j: int|
                0 <= i < j < asks.len() ==> (#[trigger] asks[i]).0 != (#[trigger] asks[j]).0
        }),
{
    let asks = narration::due_requests(state, now, mapid, name);
    let a = narration::is_due(state.dispatch, now, narration::DISPATCH_SECS);
    let b = narration::is_due(state.sitrep, now, narration::SITREP_SECS);
    let d = narration::is_due(state.events, now, narration::EVENTS_SECS);
    let want = (kind, question(kind, mapid, name));
    let i: int = match kind {
        PanelKind::Dispatch => 0,
        PanelKind::Sitrep => if a {
            1
        } else {
            0
        },
        PanelKind::Events => (if a {
            1int
        } else {
            0
        }) + (if b {
            1int
        } else {
            0
        }),
    };
    let due = match asked(state, kind) {
        Some(t) => now - t >= interval(kind),
        None => true,
    };
    if due {
        assert(asks[i] == want);
    }
}

/// A panel that is asked for is marked as asked for now, and any other keeps its time.
pub proof fn law_asking_is_remembered(last: Option<i64>, now: i64, every: i64)
    ensures
        narration::attempted(last, now, every) == (if last is None || now - last->0 >= every {
            Some(now)
        } else {
            last
        }),
{
}

/// The age of a panel is said in seconds below a minute and a half, in whole minutes
/// below an hour and a half, in whole hours from then on; a panel from the future is
/// as good as new, and one that never came is said not to have come.
pub proof fn law_age_is_said_in_whole_units(t: i64, now: i64)
    ensures
        ({
            let age = if now >= t {
                now - t
            } else {
                0
            };
            let said = narration::age_text(Some(t), now);
            &&& age < 90 ==> said == "updated "@ + text::dec(age as nat) + "s ago"@
            &&& 90 <= age < 5400 ==> exists|m: nat|
                said == "updated "@ + #[trigger] text::dec(m) + "m ago"@ && 60 * m <= age < 60 * m
                    + 60
            &&& 5400 <= age ==> exists|h: nat|
                said == "updated "@ + #[trigger] text::dec(h) + "h ago"@ && 3600 * h <= age < 3600
                    * h + 3600
        }),
        narration::age_text(None, now) == "not yet retrieved"@,
{
    let age: nat = if now >= t {
        (now - t) as nat
    } else {
        0
    };
    let said = narration::age_text(Some(t), now);
    if 90 <= age < 5400 {
        assert(said == "updated "@ + text::dec(age / 60) + "m ago"@);
    } else if 5400 <= age {
        assert(said == "updated "@ + text::dec(age / 3600) + "h ago"@);
    }
}

proof fn age_is_one_line(t: Option<i64>, now: i64)
    ensures
        text::lacks(narration::age_text(t, now), '\n'),
{
    broadcast use text::lacks_both;

    assert(text::lacks("not yet retrieved"@, '\n') && text::lacks("updated "@, '\n')
        && text::lacks("s ago"@, '\n') && text::lacks("m ago"@, '\n') && text::lacks(
        "h ago"@,
        '\n',
    )) by {
        reveal(text::lacks);
        reveal_strlit("not yet retrieved");
        reveal_strlit("updated ");
        reveal_strlit("s ago");
        reveal_strlit("m ago");
        reveal_strlit("h ago");
    }
    if t is Some {
        let age: nat = if now > t->0 {
            (now - t->0) as nat
        } else {
            0
        };
        text::dec_lacks(age, '\n');
        text::dec_lacks(age / 60, '\n');
        text::dec_lacks(age / 3600, '\n');
    }
}

/// The part of the dispatch page behind the summary.
spec fn stats(a: Seq<char>, b: Seq<char>, e: Seq<char>, f: Seq<char>, age: Seq<char>) -> Seq<char> {
    "\nfeed stats:\n  trains reporting : "@ + a + "\n  approaching      : "@ + b + "\n  delayed          : "@ + e + "\n  last feed        : "@ + f + "\n\nsource: AI dispatch narration ("@ + age + ")\n"@
}

proof fn stats_part_1(x: Seq<char>, d: Seq<Seq<char>>, c: Seq<char>, a: Seq<char>, b: Seq<char>, e: Seq<char>, f: Seq<char>, age: Seq<char>)
    requires
        reading::lines(x) == d.push(c),
        text::lacks(a, '\n'),
        text::lacks(b, '\n'),
        text::lacks(e, '\n'),
        text::lacks(f, '\n'),
        text::lacks(age, '\n'),
    ensures
        reading::lines(x + "\nfeed stats:\n  trains reporting : "@ + a + "\n  approaching      : "@ + b + "\n  delayed          : "@ + e) == d.push(c).push("feed stats:"@).push("  trains reporting : "@ + a).push("  approaching      : "@ + b).push("  delayed          : "@ + e),
{
    let p0 = x;
    let d0 = d;
    reading::empty_lacks('\n');
    assert(text::lacks("feed stats:"@, '\n')) by {
        reveal(text::lacks);
        reveal_strlit("feed stats:");
    }
    assert(text::lacks("  trains reporting : "@, '\n')) by {
        reveal(text::lacks);
        reveal_strlit("  trains reporting : ");
    }
    assert("\nfeed stats:\n  trains reporting : "@ =~= Seq::<char>::empty() + seq!['\n'] + "feed stats:"@ + seq!['\n'] + "  trains reporting : "@) by {
        reveal_strlit("\nfeed stats:\n  trains reporting : ");
        reveal_strlit("  trains reporting : ");
        reveal_strlit("feed stats:");
    }
    let p1 = p0 + "\nfeed stats:\n  trains reporting : "@;
    reading::two_line_breaks(p0, d0, c, "\nfeed stats:\n  trains reporting : "@, Seq::<char>::empty(), "feed stats:"@, "  trains reporting : "@);
    assert(c + Seq::<char>::empty() =~= c);
    let d1 = d0.push(c).push("feed stats:"@);
    let p2 = p1 + a;
    reading::more_of_a_line(p1, d1, "  trains reporting : "@, a);
    let d2 = d1;
    assert(text::lacks("  approaching      : "@, '\n')) by {
        reveal(text::lacks);
        reveal_strlit("  approaching      : ");
    }
    assert("\n  approaching      : "@ =~= Seq::<char>::empty() + seq!['\n'] + "  approaching      : "@) by {
        reveal_strlit("\n  approaching      : ");
        reveal_strlit("  approaching      : ");
    }
    let p3 = p2 + "\n  approaching      : "@;
    reading::line_break(p2, d2, "  trains reporting : "@ + a, "\n  approaching      : "@, Seq::<char>::empty(), "  approaching      : "@);
    assert("  trains reporting : "@ + a + Seq::<char>::empty() =~= "  trains reporting : "@ + a);
    let d3 = d2.push("  trains reporting : "@ + a);
    let p4 = p3 + b;
    reading::more_of_a_line(p3, d3, "  approaching      : "@, b);
    let d4 = d3;
    assert(text::lacks("  delayed          : "@, '\n')) by {
        reveal(text::lacks);
        reveal_strlit("  delayed          : ");
    }
    assert("\n  delayed          : "@ =~= Seq::<char>::empty() + seq!['\n'] + "  delayed          : "@) by {
        reveal_strlit("\n  delayed          : ");
        reveal_strlit("  delayed          : ");
    }
    let p5 = p4 + "\n  delayed          : "@;
    reading::line_break(p4, d4, "  approaching      : "@ + b, "\n  delayed          : "@, Seq::<char>::empty(), "  delayed          : "@);
    assert("  approaching      : "@ + b + Seq::<char>::empty() =~= "  approaching      : "@ + b);
    let d5 = d4.push("  approaching      : "@ + b);
    let p6 = p5 + e;
    reading::more_of_a_line(p5, d5, "  delayed          : "@, e);
    let d6 = d5;
}

proof fn stats_part_2(x: Seq<char>, d: Seq<Seq<char>>, c: Seq<char>, a: Seq<char>, b: Seq<char>, e: Seq<char>, f: Seq<char>, age: Seq<char>)
    requires
        reading::lines(x) == d.push(c),
        text::lacks(a, '\n'),
        text::lacks(b, '\n'),
        text::lacks(e, '\n'),
        text::lacks(f, '\n'),
        text::lacks(age, '\n'),
    ensures
        reading::lines(x + "\n  last feed        : "@ + f + "\n\nsource: AI dispatch narration ("@ + age + ")\n"@) == d.push(c).push("  last feed        : "@ + f).push(Seq::<char>::empty()).push("source: AI dispatch narration ("@ + age + ")"@).push(Seq::<char>::empty()),
{
    let p0 = x;
    let d0 = d;
    reading::empty_lacks('\n');
    assert(text::lacks("  last feed        : "@, '\n')) by {
        reveal(text::lacks);
        reveal_strlit("  last feed        : ");
    }
    assert("\n  last feed        : "@ =~= Seq::<char>::empty() + seq!['\n'] + "  last feed        : "@) by {
        reveal_strlit("\n  last feed        : ");
        reveal_strlit("  last feed        : ");
    }
    let p1 = p0 + "\n  last feed        : "@;
    reading::line_break(p0, d0, c, "\n  last feed        : "@, Seq::<char>::empty(), "  last feed        : "@);
    assert(c + Seq::<char>::empty() =~= c);
    let d1 = d0.push(c);
    let p2 = p1 + f;
    reading::more_of_a_line(p1, d1, "  last feed        : "@, f);
    let d2 = d1;
    assert(text::lacks("source: AI dispatch narration ("@, '\n')) by {
        reveal(text::lacks);
        reveal_strlit("source: AI dispatch narration (");
    }
    assert("\n\nsource: AI dispatch narration ("@ =~= Seq::<char>::empty() + seq!['\n'] + Seq::<char>::empty() + seq!['\n'] + "source: AI dispatch narration ("@) by {
        reveal_strlit("\n\nsource: AI dispatch narration (");
        reveal_strlit("source: AI dispatch narration (");
    }
    let p3 = p2 + "\n\nsource: AI dispatch narration ("@;
    reading::two_line_breaks(p2, d2, "  last feed        : "@ + f, "\n\nsource: AI dispatch narration ("@, Seq::<char>::empty(), Seq::<char>::empty(), "source: AI dispatch narration ("@);
    assert("  last feed        : "@ + f + Seq::<char>::empty() =~= "  last feed        : "@ + f);
    let d3 = d2.push("  last feed        : "@ + f).push(Seq::<char>::empty());
    let p4 = p3 + age;
    reading::more_of_a_line(p3, d3, "source: AI dispatch narration ("@, age);
    let d4 = d3;
    assert(text::lacks(")"@, '\n')) by {
        reveal(text::lacks);
        reveal_strlit(")");
    }
    assert(")\n"@ =~= ")"@ + seq!['\n'] + Seq::<char>::empty()) by {
        reveal_strlit(")\n");
        reveal_strlit(")");
    }
    let p5 = p4 + ")\n"@;
    reading::line_break(p4, d4, "source: AI dispatch narration ("@ + age, ")\n"@, ")"@, Seq::<char>::empty());
    let d5 = d4.push("source: AI dispatch narration ("@ + age + ")"@);
}

proof fn stats_are_lines(
    a: Seq<char>,
    b: Seq<char>,
    e: Seq<char>,
    f: Seq<char>,
    age: Seq<char>,
)
    requires
        text::lacks(a, '\n'),
        text::lacks(b, '\n'),
        text::lacks(e, '\n'),
        text::lacks(f, '\n'),
        text::lacks(age, '\n'),
    ensures
        lines(stats(a, b, e, f, age)) == seq![
            Seq::<char>::empty(),
            "feed stats:"@,
            "  trains reporting : "@ + a,
            "  approaching      : "@ + b,
            "  delayed          : "@ + e,
            "  last feed        : "@ + f,
            Seq::<char>::empty(),
            "source: AI dispatch narration ("@ + age + ")"@,
            Seq::<char>::empty(),
        ],
{
    reading::empty_lacks('\n');
    reading::start_of_lines(Seq::<char>::empty());
    let x0 = Seq::<char>::empty();
    let d0 = Seq::<Seq<char>>::empty();
    stats_part_1(x0, d0, Seq::<char>::empty(), a, b, e, f, age);
    assert(Seq::<char>::empty() + "\nfeed stats:\n  trains reporting : "@ =~= "\nfeed stats:\n  trains reporting : "@);
    let x1 = "\nfeed stats:\n  trains reporting : "@ + a + "\n  approaching      : "@ + b + "\n  delayed          : "@ + e;
    let d1 = d0.push(Seq::<char>::empty()).push("feed stats:"@).push("  trains reporting : "@ + a).push("  approaching      : "@ + b);
    stats_part_2(x1, d1, "  delayed          : "@ + e, a, b, e, f, age);
    let x2 = x1 + "\n  last feed        : "@ + f + "\n\nsource: AI dispatch narration ("@ + age + ")\n"@;
    let d2 = d1.push("  delayed          : "@ + e).push("  last feed        : "@ + f).push(Seq::<char>::empty()).push("source: AI dispatch narration ("@ + age + ")"@);
    assert(d2.push(Seq::<char>::empty()) =~= seq![
            Seq::<char>::empty(),
            "feed stats:"@,
            "  trains reporting : "@ + a,
            "  approaching      : "@ + b,
            "  delayed          : "@ + e,
            "  last feed        : "@ + f,
            Seq::<char>::empty(),
            "source: AI dispatch narration ("@ + age + ")"@,
            Seq::<char>::empty(),
    ]);
    assert(x2 == stats(a, b, e, f, age));
}

/// The dispatch page gives the narration, and behind it how many trains report, how
/// many of them approach a station and how many are delayed, the time of the feed, and
/// how old the narration is. This holds where the time of the feed is one line.
pub proof fn law_dispatch_page_gives_the_counts(view: NarrationView, pos: PositionsView, now: i64)
    requires
        pos.feed_time matches Some(t) ==> text::lacks(t, '\n'),
    ensures
        ({
            let l = lines(narration::dispatch_text(view, pos, now));
            let body = lines(
                narration::panel_body(
                    view.dispatch,
                    "(dispatch narration unavailable — feed stats below)"@,
                ),
            );
            let n = 3 + body.len() as int;
            &&& l[0] == "CTA 'L' -- dispatch"@
            &&& l.subrange(3, n) == body
            &&& l[n + 2] == "  trains reporting : "@ + text::dec(pos.trains.len())
            &&& l[n + 3] == "  approaching      : "@ + text::dec(
                count(pos.trains, |t: TrainView| t.approaching),
            )
            &&& l[n + 4] == "  delayed          : "@ + text::dec(
                count(pos.trains, |t: TrainView| t.delayed),
            )
            &&& pos.feed_time matches Some(t) ==> l[n + 5] == "  last feed        : "@ + t
            &&& pos.feed_time is None ==> l[n + 5] == "  last feed        : "@ + "unknown"@
            &&& l[n + 7] == "source: AI dispatch narration ("@ + narration::age_text(
                view.dispatch.updated_at,
                now,
            ) + ")"@
        }),
{
    let title = "CTA 'L' -- dispatch"@;
    let eq = text::filled('=', 40);
    let nl = seq!['\n'];
    let e0 = Seq::<char>::empty();
    let body = narration::panel_body(
        view.dispatch,
        "(dispatch narration unavailable — feed stats below)"@,
    );
    let a = text::dec(pos.trains.len());
    let b = text::dec(narration::approaching_count(pos.trains));
    let e = text::dec(narration::delayed_count(pos.trains));
    let f = match pos.feed_time {
        Some(t) => t,
        None => "unknown"@,
    };
    let age = narration::age_text(view.dispatch.updated_at, now);
    law_flags_are_counted(pos.trains);
    text::dec_lacks(pos.trains.len(), '\n');
    text::dec_lacks(narration::approaching_count(pos.trains), '\n');
    text::dec_lacks(narration::delayed_count(pos.trains), '\n');
    age_is_one_line(view.dispatch.updated_at, now);
    text::filled_lacks('=', 40, '\n');
    reading::empty_lacks('\n');
    assert(text::lacks("unknown"@, '\n') && text::lacks(title, '\n')) by {
        reveal(text::lacks);
        reveal_strlit("unknown");
        reveal_strlit("CTA 'L' -- dispatch");
    }
    stats_are_lines(a, b, e, f, age);
    let tail = stats(a, b, e, f, age);
    assert("CTA 'L' -- dispatch\n"@ =~= title + nl && "\n\n"@ =~= nl + nl
        && "\n\nfeed stats:\n  trains reporting : "@ =~= nl
        + "\nfeed stats:\n  trains reporting : "@) by {
        reveal_strlit("CTA 'L' -- dispatch\n");
        reveal_strlit("CTA 'L' -- dispatch");
        reveal_strlit("\n\n");
        reveal_strlit("\n\nfeed stats:\n  trains reporting : ");
        reveal_strlit("\nfeed stats:\n  trains reporting : ");
    }
    let head = title + nl + eq + nl + e0;
    let whole = head + nl + body + nl + tail;
    dispatch_regroup(title, eq, body, a, b, e, f, age);
    let page = (title + nl) + eq + (nl + nl) + body + (nl
        + "\nfeed stats:\n  trains reporting : "@) + a + "\n  approaching      : "@ + b
        + "\n  delayed          : "@ + e + "\n  last feed        : "@ + f
        + "\n\nsource: AI dispatch narration ("@ + age + ")\n"@;
    assert("CTA 'L' -- dispatch\n"@ == title + nl);
    assert("\n\n"@ == nl + nl);
    assert("\n\nfeed stats:\n  trains reporting : "@ == nl
        + "\nfeed stats:\n  trains reporting : "@);
    reveal(narration::dispatch_text);
    assert(narration::dispatch_text(view, pos, now) == page);
    assert(page == whole);
    reading::split_of_one(title, '\n');
    reading::split_of_one(eq, '\n');
    reading::split_of_one(e0, '\n');
    reading::split_of_two(title, eq, '\n');
    reading::split_of_two(title + nl + eq, e0, '\n');
    reading::split_of_two(head, body, '\n');
    reading::split_of_two(head + nl + body, tail, '\n');
    let l = lines(whole);
    assert(l =~= seq![title, eq, e0] + lines(body) + lines(tail));
    assert(l.subrange(3, 3 + lines(body).len() as int) =~= lines(body));
}

proof fn dispatch_regroup(
    title: Seq<char>,
    eq: Seq<char>,
    body: Seq<char>,
    a: Seq<char>,
    b: Seq<char>,
    e: Seq<char>,
    f: Seq<char>,
    age: Seq<char>,
)
    ensures
        ({
            let nl = seq!['\n'];
            (title + nl) + eq + (nl + nl) + body + (nl + "\nfeed stats:\n  trains reporting : "@)
                + a + "\n  approaching      : "@ + b + "\n  delayed          : "@ + e
                + "\n  last feed        : "@ + f + "\n\nsource: AI dispatch narration ("@ + age
                + ")\n"@ == title + nl + eq + nl + Seq::<char>::empty() + nl + body + nl + stats(
                a,
                b,
                e,
                f,
                age,
            )
        }),
{
    let nl = seq!['\n'];
    let s = "\nfeed stats:\n  trains reporting : "@;
    let head = (title + nl) + eq + (nl + nl) + body;
    assert(head =~= title + nl + eq + nl + Seq::<char>::empty() + nl + body);
    assert(head + (nl + s) =~= head + nl + s);
    let x = head + nl;
    let p1 = s + a + "\n  approaching      : "@ + b;
    assert(x + s + a + "\n  approaching      : "@ + b =~= x + p1);
    let p2 = p1 + "\n  delayed          : "@ + e + "\n  last feed        : "@ + f;
    assert(x + p1 + "\n  delayed          : "@ + e + "\n  last feed        : "@ + f =~= x + p2);
    let p3 = p2 + "\n\nsource: AI dispatch narration ("@ + age + ")\n"@;
    assert(x + p2 + "\n\nsource: AI dispatch narration ("@ + age + ")\n"@ =~= x + p3);
}

/// A panel's page gives its title, the station where there is one, the summary, and
/// how old it is. This holds where title, station and source are one line each.
proof fn body_page_is(
    title: Seq<char>,
    station: Option<Seq<char>>,
    p: Panel,
    other: Seq<char>,
    source: Seq<char>,
    now: i64,
)
    requires
        text::lacks(title, '\n'),
        text::lacks(source, '\n'),
        station matches Some(s) ==> text::lacks(s, '\n'),
    ensures
        ({
            let l = lines(narration::body_text(title, station, p, other, source, now));
            let body = lines(narration::panel_body(p, other));
            let at: int = if station is Some {
                4
            } else {
                3
            };
            let n = at + body.len();
            &&& l[0] == title
            &&& station matches Some(s) ==> l[2] == "station: "@ + s
            &&& l.subrange(at, n) == body
            &&& l[n + 1] == "source: "@ + source + " ("@ + narration::age_text(p.updated_at, now)
                + ")"@
        }),
{
    broadcast use text::lacks_both;

    let nl = seq!['\n'];
    let e0 = Seq::<char>::empty();
    let eq = text::filled('=', 40);
    let body = narration::panel_body(p, other);
    let age = narration::age_text(p.updated_at, now);
    age_is_one_line(p.updated_at, now);
    text::filled_lacks('=', 40, '\n');
    reading::empty_lacks('\n');
    assert("\n"@ =~= nl && "\n\nsource: "@ =~= nl + nl + "source: "@ && ")\n"@ =~= ")"@ + nl) by {
        reveal_strlit("\n");
        reveal_strlit("\n\nsource: ");
        reveal_strlit("source: ");
        reveal_strlit(")\n");
        reveal_strlit(")");
    }
    assert(text::lacks("station: "@, '\n') && text::lacks("source: "@, '\n') && text::lacks(
        " ("@,
        '\n',
    ) && text::lacks(")"@, '\n')) by {
        reveal(text::lacks);
        reveal_strlit("station: ");
        reveal_strlit("source: ");
        reveal_strlit(" (");
        reveal_strlit(")");
    }
    let foot = "source: "@ + source + " ("@ + age + ")"@;
    reading::split_of_one(title, '\n');
    reading::split_of_one(eq, '\n');
    reading::split_of_one(e0, '\n');
    reading::split_of_one(foot, '\n');
    let head = match station {
        Some(s) => title + nl + eq + nl + ("station: "@ + s) + nl + e0,
        None => title + nl + eq + nl + e0,
    };
    let whole = head + nl + body + nl + e0 + nl + foot + nl + e0;
    let text = narration::body_text(title, station, p, other, source, now);
    reading::split_of_two(title, eq, '\n');
    if station is Some {
        let s = "station: "@ + station->0;
        reading::split_of_one(s, '\n');
        reading::split_of_two(title + nl + eq, s, '\n');
        reading::split_of_two(title + nl + eq + nl + s, e0, '\n');
        assert(lines(head) =~= seq![title, eq, s, e0]);
        assert(title + nl + eq + nl + (s + nl) + nl =~= head + nl);
    } else {
        reveal_strlit("");
        reading::split_of_two(title + nl + eq, e0, '\n');
        assert(lines(head) =~= seq![title, eq, e0]);
        assert(title + nl + eq + nl + ""@ + nl =~= head + nl);
    }
    body_regroup(head + nl, body, source, age);
    let x = head + nl;
    let page = x + body + (nl + nl + "source: "@) + source + " ("@ + age + (")"@ + nl);
    assert(page == whole);
    assert("\n"@ == nl);
    assert("\n\nsource: "@ == nl + nl + "source: "@);
    assert(")\n"@ == ")"@ + nl);
    reveal(narration::body_text);
    let top = title + nl + eq + nl + (match station {
        Some(s) => "station: "@ + s + nl,
        None => ""@,
    }) + nl;
    assert(top == x);
    assert(text == top + body + (nl + nl + "source: "@) + source + " ("@ + age + (")"@ + nl));
    assert(text == page);
    reading::split_of_two(head, body, '\n');
    reading::split_of_two(head + nl + body, e0, '\n');
    reading::split_of_two(head + nl + body + nl + e0, foot, '\n');
    reading::split_of_two(head + nl + body + nl + e0 + nl + foot, e0, '\n');
    let l = lines(text);
    assert(l =~= lines(head) + lines(body) + seq![e0, foot, e0]);
    let at = lines(head).len() as int;
    assert(l.subrange(at, at + lines(body).len()) =~= lines(body));
}

proof fn body_regroup(x: Seq<char>, body: Seq<char>, source: Seq<char>, age: Seq<char>)
    ensures
        ({
            let nl = seq!['\n'];
            let e0 = Seq::<char>::empty();
            x + body + (nl + nl + "source: "@) + source + " ("@ + age + (")"@ + nl) == x + body + nl
                + e0 + nl + ("source: "@ + source + " ("@ + age + ")"@) + nl + e0
        }),
{
    let nl = seq!['\n'];
    let e0 = Seq::<char>::empty();
    let y = x + body;
    let foot = "source: "@ + source + " ("@ + age + ")"@;
    assert(y + (nl + nl + "source: "@) + source + " ("@ + age + (")"@ + nl) =~= y + nl + e0 + nl
        + foot + nl + e0);
}

/// The SITREP page gives the home station, the summary of the alerts and how old it
/// is; the events page the advisory and how old it is. Where there is no summary the
/// page says so. This holds where the name of the station is one line.
pub proof fn law_panel_pages_give_their_summaries(view: NarrationView, now: i64)
    requires
        text::lacks(view.home_name@, '\n'),
    ensures
        ({
            let l = lines(narration::sitrep_text(view, now));
            let body = lines(
                narration::panel_body(view.sitrep, "(SITREP unavailable right now.)"@),
            );
            let n = 4 + body.len() as int;
            &&& l[0] == "CTA 'L' -- SITREP"@
            &&& l[2] == "station: "@ + view.home_name@
            &&& l.subrange(4, n) == body
            &&& l[n + 1] == "source: "@ + "AI alerts summary"@ + " ("@ + narration::age_text(
                view.sitrep.updated_at,
                now,
            ) + ")"@
        }),
        ({
            let l = lines(narration::events_text(view, now));
            let body = lines(
                narration::panel_body(view.events, "(no event advisory available right now.)"@),
            );
            let n = 3 + body.len() as int;
            &&& l[0] == "CTA 'L' -- event advisory"@
            &&& l.subrange(3, n) == body
            &&& l[n + 1] == "source: "@ + "AI events advisory"@ + " ("@ + narration::age_text(
                view.events.updated_at,
                now,
            ) + ")"@
        }),
{
    assert(text::lacks("CTA 'L' -- SITREP"@, '\n') && text::lacks("AI alerts summary"@, '\n')
        && text::lacks("CTA 'L' -- event advisory"@, '\n') && text::lacks(
        "AI events advisory"@,
        '\n',
    )) by {
        reveal(text::lacks);
        reveal_strlit("CTA 'L' -- SITREP");
        reveal_strlit("AI alerts summary");
        reveal_strlit("CTA 'L' -- event advisory");
        reveal_strlit("AI events advisory");
    }
    body_page_is(
        "CTA 'L' -- SITREP"@,
        Some(view.home_name@),
        view.sitrep,
        "(SITREP unavailable right now.)"@,
        "AI alerts summary"@,
        now,
    );
    body_page_is(
        "CTA 'L' -- event advisory"@,
        None,
        view.events,
        "(no event advisory available right now.)"@,
        "AI events advisory"@,
        now,
    );
}

} // verus!
