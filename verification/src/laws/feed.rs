//! What becomes of the feed: which entries are trains, and where they come from.

use crate::laws::reading::count;
use crate::text;
use crate::transit;
use crate::transit::{OneOrMany, PosResp, RawRoute, RawTrain, Train, TrainView};
use vstd::prelude::*;

verus! {

/// Whether a feed entry says where its train is.
pub open spec fn located(t: RawTrain) -> bool {
    t.lat is Some && t.lon is Some
}

/// How many of a list of feed entries say where their train is.
pub open spec fn located_in(ts: Seq<RawTrain>) -> nat {
    count(ts, |t: RawTrain| located(t))
}

/// How many entries of all routes say where their train is.
pub open spec fn located_on(routes: Seq<RawRoute>) -> nat
    decreases routes.len(),
{
    if routes.len() == 0 {
        0
    } else {
        located_on(routes.drop_last()) + located_in(transit::flattened(routes.last().train))
    }
}

/// A list of the feed is read as it stands, and an object in its place as a list of
/// one.
pub proof fn law_one_is_a_list_of_one<T>(x: T, v: Vec<T>)
    ensures
        transit::flattened(Some(OneOrMany::One(x))) == seq![x],
        transit::flattened(Some(OneOrMany::Many(v))) == v@,
        transit::flattened(None::<OneOrMany<T>>) == Seq::<T>::empty(),
{
}

/// Whether a flag of the feed is set.
pub open spec fn flagged(s: Option<String>) -> bool {
    s is Some && (s->0@ == seq!['1'] || s->0@ == seq!['t', 'r', 'u', 'e'])
}

/// Whether a train holds what an entry of a route says.
pub open spec fn told_by(t: TrainView, line: Seq<char>, e: RawTrain) -> bool {
    &&& t.line == line
    &&& e.rn is Some ==> t.run == e.rn->0@
    &&& e.rn is None ==> t.run.len() == 0
    &&& e.dest_nm is Some ==> t.dest == e.dest_nm->0@
    &&& e.dest_nm is None ==> t.dest.len() == 0
    &&& e.next_sta_nm is Some ==> t.next_station == e.next_sta_nm->0@
    &&& e.next_sta_nm is None ==> t.next_station.len() == 0
    &&& e.lat == Some(t.lat)
    &&& e.lon == Some(t.lon)
    &&& t.approaching <==> flagged(e.is_app)
    &&& t.delayed <==> flagged(e.is_dly)
    &&& e.arr_t is Some ==> t.arr_time == Some(e.arr_t->0@)
    &&& e.arr_t is None ==> t.arr_time is None
    &&& t.heading is Some <==> e.heading is Some && text::parsed_uint(e.heading->0@, 65535) is Some
    &&& t.heading matches Some(h) ==> text::parsed_uint(e.heading->0@, 65535) == Some(h as nat)
}

proof fn flag_is_flagged(s: Option<String>)
    ensures
        transit::is_truthy(s) <==> flagged(s),
{
    reveal_strlit("1");
    reveal_strlit("true");
    assert("1"@ =~= seq!['1']);
    assert("true"@ =~= seq!['t', 'r', 'u', 'e']);
}

proof fn read_entry(line: Seq<char>, e: RawTrain)
    ensures
        transit::train_of(line, e) is Some <==> located(e),
        located(e) ==> told_by(transit::train_of(line, e)->0, line, e),
{
    flag_is_flagged(e.is_app);
    flag_is_flagged(e.is_dly);
}

proof fn entries_of_a_line(line: Seq<char>, ts: Seq<RawTrain>, i: int)
    requires
        0 <= i <= ts.len(),
    ensures
        transit::trains_of(line, ts).len() == located_in(ts),
        located_in(ts.take(i)) <= located_in(ts),
        i < ts.len() && located(ts[i]) ==> located_in(ts.take(i)) < located_in(ts) && told_by(
            transit::trains_of(line, ts)[located_in(ts.take(i)) as int],
            line,
            ts[i],
        ),
    decreases ts.len(),
{
    if ts.len() > 0 {
        let front = ts.drop_last();
        read_entry(line, ts.last());
        if i == ts.len() {
            entries_of_a_line(line, front, front.len() as int);
            assert(ts.take(i) =~= ts);
        } else {
            entries_of_a_line(line, front, i);
            assert(front.take(i) =~= ts.take(i));
            if i == ts.len() - 1 {
                assert(ts.take(i) =~= front);
            } else {
                assert(front[i] == ts[i]);
            }
        }
    } else {
        assert(ts.take(i) =~= ts);
    }
}

/// A feed entry is a train exactly where it has a latitude and a longitude, wherever
/// they lie: there are as many trains as such entries, in feed order, and each holds
/// what its entry says, on the line of its route.
pub proof fn law_every_located_entry_is_a_train(routes: Seq<RawRoute>, r: int, i: int)
    requires
        0 <= r < routes.len(),
        0 <= i < transit::flattened(routes[r].train).len(),
    ensures
        transit::trains_of_routes(routes).len() == located_on(routes),
        ({
            let entries = transit::flattened(routes[r].train);
            let k = located_on(routes.take(r)) + located_in(entries.take(i));
            located(entries[i]) ==> k < located_on(routes) && told_by(
                transit::trains_of_routes(routes)[k as int],
                routes[r].name@,
                entries[i],
            )
        }),
    decreases routes.len(),
{
    let front = routes.drop_last();
    let last = routes.last();
    let line = last.name@;
    let entries = transit::flattened(last.train);
    let before = transit::trains_of_routes(front);
    all_located_are_trains(front);
    entries_of_a_line(line, entries, entries.len() as int);
    if r == routes.len() - 1 {
        entries_of_a_line(line, entries, i);
        assert(routes.take(r) =~= front);
        let k = located_on(front) + located_in(entries.take(i));
        if located(entries[i]) {
            assert(transit::trains_of_routes(routes)[k as int] == transit::trains_of(
                line,
                entries,
            )[located_in(entries.take(i)) as int]);
        }
    } else {
        law_every_located_entry_is_a_train(front, r, i);
        assert(front.take(r) =~= routes.take(r));
        assert(front[r] == routes[r]);
    }
}

proof fn all_located_are_trains(routes: Seq<RawRoute>)
    ensures
        transit::trains_of_routes(routes).len() == located_on(routes),
    decreases routes.len(),
{
    if routes.len() > 0 {
        all_located_are_trains(routes.drop_last());
        let entries = transit::flattened(routes.last().train);
        entries_of_a_line(routes.last().name@, entries, entries.len() as int);
    }
}

/// A reply is refused exactly where it carries an error code other than `0`, with the
/// error that it names; any other gives the trains of its routes and its timestamp,
/// as live data, and as many trains as entries that say where they are.
pub proof fn law_replies_are_read(resp: PosResp)
    ensures
        ({
            let c = resp.ctatt;
            let r = transit::parsed_positions(resp);
            &&& r is Err <==> c.err_cd is Some && c.err_cd->0@ != seq!['0']
            &&& r is Err && c.err_nm is Some ==> r->Err_0 == c.err_nm->0@
            &&& r is Ok ==> r->Ok_0.trains.len() == located_on(transit::flattened(c.route))
            &&& r is Ok ==> r->Ok_0.trains == transit::trains_of_routes(transit::flattened(c.route))
            &&& r is Ok ==> !r->Ok_0.from_fixture
            &&& r is Ok && c.tmst is Some ==> r->Ok_0.feed_time == Some(c.tmst->0@)
            &&& r is Ok && c.tmst is None ==> r->Ok_0.feed_time is None
        }),
{
    reveal_strlit("0");
    assert("0"@ =~= seq!['0']);
    all_located_are_trains(transit::flattened(resp.ctatt.route));
}

/// Live data is passed on as it is. Where there is none the recorded data takes its
/// place, with its own trains and timestamp and marked as recorded.
pub proof fn law_live_data_comes_first(live: PosResp, fixture: PosResp, e: String, f: String)
    ensures
        transit::parsed_positions(live) is Ok ==> transit::settled(Some(Ok(live)), Ok(fixture))
            == transit::parsed_positions(live) && transit::settled(Some(Ok(live)), Err(f))
            == transit::parsed_positions(live),
        transit::parsed_positions(fixture) matches Ok(p) ==> {
            let none = transit::settled(None, Ok(fixture));
            let failed = transit::settled(Some(Err(e)), Ok(fixture));
            &&& none == failed
            &&& transit::parsed_positions(live) is Err ==> none == transit::settled(
                Some(Ok(live)),
                Ok(fixture),
            )
            &&& none is Ok
            &&& none->Ok_0.trains == p.trains
            &&& none->Ok_0.feed_time == p.feed_time
            &&& none->Ok_0.from_fixture
        },
        transit::settled(None, Err(f)) == Err::<transit::PositionsView, Seq<char>>(f@),
        transit::settled(Some(Err(e)), Err(f)) == Err::<transit::PositionsView, Seq<char>>(f@),
{
}

/// The routes asked for are the parts of the setting between its commas, without the
/// white space round them; all lines of the board where there is no setting.
pub proof fn law_routes_are_the_parts_of_the_setting(raw: String, i: int)
    requires
        raw@.len() > 0,
    ensures
        ({
            let routes = transit::configured_routes(Some(raw));
            let pieces = text::split_on(raw@, ',');
            &&& routes.len() == count(raw@, |c: char| c == ',') + 1
            &&& 0 <= i < routes.len() ==> {
                &&& routes[i].len() > 0 ==> !text::is_space(routes[i][0]) && !text::is_space(
                    routes[i].last(),
                )
                &&& exists|a: Seq<char>, b: Seq<char>|
                    #![trigger a + routes[i] + b]
                    blank(a) && blank(b) && pieces[i] == a + routes[i] + b
            }
        }),
        transit::configured_routes(None) == transit::line_keys(),
{
    crate::laws::reading::law_pieces_make_up_the_text(raw@, ',');
    let pieces = text::split_on(raw@, ',');
    let routes = transit::configured_routes(Some(raw));
    if 0 <= i < routes.len() {
        assert(routes[i] == text::trimmed(pieces[i]));
        law_trimming_takes_off_white_space(pieces[i]);
    }
}

/// Whether a text is nothing but white space.
pub open spec fn blank(s: Seq<char>) -> bool {
    forall|i: int| 0 <= i < s.len() ==> text::is_space(#[trigger] s[i])
}

proof fn trim_end_takes(s: Seq<char>)
    ensures
        text::trim_end(s).len() <= s.len(),
        s.take(text::trim_end(s).len() as int) == text::trim_end(s),
        blank(s.skip(text::trim_end(s).len() as int)),
        text::trim_end(s).len() > 0 ==> !text::is_space(text::trim_end(s).last()),
    decreases s.len(),
{
    if s.len() > 0 && text::is_space(s.last()) {
        let f = s.drop_last();
        trim_end_takes(f);
        let n = text::trim_end(s).len() as int;
        assert(s.take(n) =~= f.take(n));
        assert forall|i: int| 0 <= i < s.skip(n).len() implies text::is_space(
            #[trigger] s.skip(n)[i],
        ) by {
            if i < f.skip(n).len() {
                assert(s.skip(n)[i] == f.skip(n)[i]);
            } else {
                assert(s.skip(n)[i] == s.last());
            }
        }
    } else {
        assert(s.take(s.len() as int) =~= s);
    }
}

proof fn trim_start_takes(s: Seq<char>)
    ensures
        text::trim_start(s).len() <= s.len(),
        s.skip(s.len() - text::trim_start(s).len()) == text::trim_start(s),
        blank(s.take(s.len() - text::trim_start(s).len())),
        text::trim_start(s).len() > 0 ==> !text::is_space(text::trim_start(s)[0]),
    decreases s.len(),
{
    if s.len() > 0 && text::is_space(s[0]) {
        let f = s.drop_first();
        trim_start_takes(f);
        let n = s.len() - text::trim_start(s).len();
        assert(s.skip(n) =~= f.skip(n - 1));
        assert forall|i: int| 0 <= i < s.take(n).len() implies text::is_space(
            #[trigger] s.take(n)[i],
        ) by {
            if i > 0 {
                assert(s.take(n)[i] == f.take(n - 1)[i - 1]);
            }
        }
    } else {
        assert(s.skip(0) =~= s);
    }
}

/// Trimming takes white space off both ends and nothing else.
pub proof fn law_trimming_takes_off_white_space(s: Seq<char>)
    ensures
        ({
            let t = text::trimmed(s);
            &&& t.len() > 0 ==> !text::is_space(t[0]) && !text::is_space(t.last())
            &&& exists|a: Seq<char>, b: Seq<char>|
                #![trigger a + t + b]
                blank(a) && blank(b) && s == a + t + b
        }),
{
    let m = text::trim_start(s);
    let t = text::trimmed(s);
    trim_start_takes(s);
    trim_end_takes(m);
    let a = s.take(s.len() - m.len());
    let b = m.skip(t.len() as int);
    assert(s =~= a + t + b);
    if t.len() > 0 {
        assert(t[0] == m.take(t.len() as int)[0]);
    }
}

/// What is said of a train is what its record holds.
pub proof fn law_a_train_is_what_its_record_holds(t: Train)
    ensures
        t@.line == t.line@,
        t@.run == t.run@,
        t@.dest == t.dest@,
        t@.next_station == t.next_station@,
        t@.lat == t.lat,
        t@.lon == t.lon,
        t@.heading == t.heading,
        t@.approaching == t.approaching,
        t@.delayed == t.delayed,
        t.arr_time is Some <==> t@.arr_time is Some,
        t.arr_time is Some ==> t@.arr_time == Some(t.arr_time->0@),
{
}

/// What is known of a snapshot is what it holds: its trains in order, the feed's time
/// and whether it was recorded.
pub proof fn law_a_snapshot_is_what_it_holds(p: transit::Positions, i: int)
    ensures
        p@.trains.len() == p.trains@.len(),
        0 <= i < p.trains@.len() ==> p@.trains[i] == p.trains@[i]@,
        p@.from_fixture == p.from_fixture,
        p@.feed_time is Some <==> p.feed_time is Some,
        p.feed_time is Some ==> p@.feed_time == Some(p.feed_time->0@),
{
}

} // verus!
