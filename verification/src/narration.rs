//! AI narrative panels (Dispatch / SITREP / Event Advisory) for the gopher tree.
//!
//! The three texts are generated and cached by a deployed Worker; this is a reader
//! of its endpoints. The train path must never depend on them, so a background
//! poller keeps a [`NarrationView`] that each publish reads: [`poll`] decides what
//! is due, [`usable_summary`] what of a reply counts, and [`apply_reply`] what
//! becomes of it. On a failed fetch the prior text is kept; a panel never
//! retrieved renders a placeholder.

use crate::text;
use crate::transit;
use crate::transit::{Positions, PositionsView, TrainView};
use vstd::prelude::*;
use vstd::string::StringExecFns;

verus! {

// Per-panel refresh cadences, in seconds.

pub const DISPATCH_SECS: i64 = 60;

pub const SITREP_SECS: i64 = 300;

pub const EVENTS_SECS: i64 = 1800;

/// How often the poller wakes to check which panels are due, in seconds.
pub const TICK_SECS: u64 = 30;

/// Per-request timeout, in seconds.
pub const HTTP_TIMEOUT_SECS: u64 = 8;

// ---------- time ----------

/// A reading of the system clock.
#[verifier::external_type_specification]
#[verifier::external_body]
pub struct ExSystemTime(std::time::SystemTime);

/// That a reading lies before the time it was held against.
#[verifier::external_type_specification]
#[verifier::external_body]
pub struct ExSystemTimeError(std::time::SystemTimeError);

/// `SystemTime::now` reads the system clock. Nothing is claimed of the reading.
pub assume_specification[ std::time::SystemTime::now ]() -> (r: std::time::SystemTime);

/// `Duration::as_secs` gives the whole seconds of a span of time. Nothing is claimed
/// of the number: a span says nothing of what it holds.
pub assume_specification[ std::time::Duration::as_secs ](d: &std::time::Duration) -> (r: u64);

/// `SystemTime::duration_since` the Unix epoch: the span from the epoch to a reading,
/// or an error for a reading before the epoch. Which of the two comes is left open: a
/// reading says nothing of when it was taken.
#[verifier::external_body]
fn since_epoch(t: std::time::SystemTime) -> (r: Result<
    std::time::Duration,
    std::time::SystemTimeError,
>) {
    t.duration_since(std::time::UNIX_EPOCH)
}

/// That a reading of the system clock came out as this many whole seconds from the
/// Unix epoch, or as `None`, the clock standing before the epoch.
pub closed spec fn clock_gave(reading: Option<u64>) -> bool {
    exists|t: std::time::SystemTime, r: Result<std::time::Duration, std::time::SystemTimeError>|
        #![trigger call_ensures(since_epoch, (t,), r)]
        {
            &&& call_ensures(std::time::SystemTime::now, (), t)
            &&& call_ensures(since_epoch, (t,), r)
            &&& match (r, reading) {
                (Ok(d), Some(s)) => call_ensures(std::time::Duration::as_secs, (&d,), s),
                (Err(_), None) => true,
                _ => false,
            }
        }
}

/// Whole seconds from the Unix epoch to now by the system clock, or `None` where
/// the clock stands before the epoch.
fn clock_reading() -> (r: Option<u64>)
    ensures
        clock_gave(r),
{
    let t = std::time::SystemTime::now();
    let span = since_epoch(t);
    match span {
        Ok(d) => Some(d.as_secs()),
        Err(_) => None,
    }
}

/// The epoch seconds that a clock reading stands for: 0 for a clock before the
/// epoch.
pub open spec fn seconds_of(reading: Option<u64>) -> i64 {
    match reading {
        Some(s) => s as i64,
        None => 0,
    }
}

/// The epoch seconds that a clock reading stands for.
pub fn epoch_seconds(reading: Option<u64>) -> (r: i64)
    ensures
        r == seconds_of(reading),
        reading matches Some(s) ==> s <= i64::MAX ==> r == s,
{
    match reading {
        Some(s) => s as i64,
        None => 0,
    }
}

/// Current wall-clock time in epoch seconds (used to age the narrative panels).
pub fn now_secs() -> (r: i64)
    ensures
        exists|reading: Option<u64>| clock_gave(reading) && r == seconds_of(reading),
{
    let reading = clock_reading();
    epoch_seconds(reading)
}

/// Whether a panel last attempted at `last` is due again at `now`.
pub open spec fn is_due(last: Option<i64>, now: i64, interval: i64) -> bool {
    match last {
        Some(t) => now - t >= interval,
        None => true,
    }
}

/// Whether a panel last attempted at `last` is due again at `now`.
pub fn due(last: Option<i64>, now: i64, interval: i64) -> (r: bool)
    ensures
        r == is_due(last, now, interval),
{
    match last {
        Some(t) => now as i128 - t as i128 >= interval as i128,
        None => true,
    }
}

// ---------- the panels ----------

/// The body of an endpoint reply.
pub struct AiResp {
    pub summary: Option<String>,
    pub error: Option<String>,
}

/// One cached panel: the last-good text and when it was last successfully fetched
/// (`None` = never retrieved).
#[derive(Debug, Clone)]
pub struct Panel {
    pub summary: String,
    pub updated_at: Option<i64>,
}

impl Default for Panel {
    fn default() -> (r: Self)
        ensures
            r.summary@ == Seq::<char>::empty(),
            r.updated_at is None,
    {
        Panel { summary: String::new(), updated_at: None }
    }
}

/// The three panels plus the SITREP station label.
#[derive(Debug, Clone)]
pub struct NarrationView {
    pub dispatch: Panel,
    pub sitrep: Panel,
    pub events: Panel,
    pub home_name: String,
}

impl Default for NarrationView {
    fn default() -> (r: Self)
        ensures
            r.dispatch.summary@ == Seq::<char>::empty(),
            r.dispatch.updated_at is None,
            r.sitrep.summary@ == Seq::<char>::empty(),
            r.sitrep.updated_at is None,
            r.events.summary@ == Seq::<char>::empty(),
            r.events.updated_at is None,
            r.home_name@ == Seq::<char>::empty(),
    {
        NarrationView {
            dispatch: Panel::default(),
            sitrep: Panel::default(),
            events: Panel::default(),
            home_name: String::new(),
        }
    }
}

/// Which of the three panels.
#[derive(Debug, Clone, Copy, PartialEq, Eq, Structural)]
pub enum PanelKind {
    Dispatch,
    Sitrep,
    Events,
}

/// The text that a reply gives: its summary, or why it gives none.
pub open spec fn summary_of(resp: AiResp) -> Result<Seq<char>, Seq<char>> {
    match resp.error {
        Some(e) => Err(e@),
        None => {
            let summary = transit::or_empty(resp.summary);
            if text::trimmed(summary).len() == 0 {
                Err("empty summary"@)
            } else {
                Ok(summary)
            }
        },
    }
}

/// The non-empty summary text of a reply. An error in the reply, or a summary that
/// is missing or blank, is an error.
pub fn usable_summary(resp: AiResp) -> (r: Result<String, String>)
    ensures
        match r {
            Ok(s) => summary_of(resp) == Ok::<Seq<char>, Seq<char>>(s@),
            Err(e) => summary_of(resp) == Err::<Seq<char>, Seq<char>>(e@),
        },
{
    if let Some(e) = resp.error {
        return Err(e);
    }
    let summary = match resp.summary {
        Some(s) => s,
        None => String::new(),
    };
    assert(summary@ =~= transit::or_empty(resp.summary));
    if text::trim(summary.as_str()).is_empty() {
        return Err("empty summary".to_owned());
    }
    Ok(summary)
}

/// A panel once a fetch made at `now` has ended: the new text where it gave one,
/// else as it was.
pub open spec fn refreshed(
    panel: Panel,
    outcome: Result<Seq<char>, Seq<char>>,
    now: i64,
) -> (Seq<char>, Option<i64>) {
    match outcome {
        Ok(s) => (s, Some(now)),
        Err(_) => (panel.summary@, panel.updated_at),
    }
}

/// Whether `after` is `before` with one panel refreshed and nothing else changed.
pub open spec fn one_refreshed(
    before: NarrationView,
    after: NarrationView,
    kind: PanelKind,
    outcome: Result<Seq<char>, Seq<char>>,
    now: i64,
) -> bool {
    &&& after.home_name == before.home_name
    &&& (after.dispatch.summary@, after.dispatch.updated_at) == if kind is Dispatch {
        refreshed(before.dispatch, outcome, now)
    } else {
        (before.dispatch.summary@, before.dispatch.updated_at)
    }
    &&& (after.sitrep.summary@, after.sitrep.updated_at) == if kind is Sitrep {
        refreshed(before.sitrep, outcome, now)
    } else {
        (before.sitrep.summary@, before.sitrep.updated_at)
    }
    &&& (after.events.summary@, after.events.updated_at) == if kind is Events {
        refreshed(before.events, outcome, now)
    } else {
        (before.events.summary@, before.events.updated_at)
    }
}

/// What each outcome of a fetch holds.
pub open spec fn outcome_view(r: Result<String, String>) -> Result<Seq<char>, Seq<char>> {
    match r {
        Ok(s) => Ok(s@),
        Err(e) => Err(e@),
    }
}

/// Write a fetched text into its panel. On an error the prior text and its age are
/// kept.
pub fn apply_reply(
    view: &mut NarrationView,
    kind: PanelKind,
    outcome: Result<String, String>,
    now: i64,
)
    ensures
        one_refreshed(*old(view), *final(view), kind, outcome_view(outcome), now),
        outcome is Err ==> *final(view) == *old(view),
{
    match outcome {
        Ok(summary) => {
            let panel = Panel { summary, updated_at: Some(now) };
            match kind {
                PanelKind::Dispatch => {
                    view.dispatch = panel;
                },
                PanelKind::Sitrep => {
                    view.sitrep = panel;
                },
                PanelKind::Events => {
                    view.events = panel;
                },
            }
        },
        Err(_) => {},
    }
}

// ---------- the poller ----------

/// An environment value, or its default where it is not set.
pub fn setting_or(value: Option<String>, default: &str) -> (r: String)
    ensures
        r@ == match value {
            Some(v) => v@,
            None => default@,
        },
{
    match value {
        Some(v) => v,
        None => default.to_owned(),
    }
}

/// Worker base URL; the given override where there is one.
pub fn base(value: Option<String>) -> (r: String)
    ensures
        r@ == match value {
            Some(v) => v@,
            None => "https://cta-track-grid.felipe-debene.workers.dev"@,
        },
{
    setting_or(value, "https://cta-track-grid.felipe-debene.workers.dev")
}

/// The SITREP station: its map id.
pub fn home_mapid(value: Option<String>) -> (r: String)
    ensures
        r@ == match value {
            Some(v) => v@,
            None => "41070"@,
        },
{
    setting_or(value, "41070")
}

/// The SITREP station: its label.
pub fn home_name(value: Option<String>) -> (r: String)
    ensures
        r@ == match value {
            Some(v) => v@,
            None => "Kedzie"@,
        },
{
    setting_or(value, "Kedzie")
}

/// When each panel was last attempted; all start due.
#[derive(Debug, Clone, Copy, PartialEq, Eq, Structural)]
pub struct PollState {
    pub dispatch: Option<i64>,
    pub sitrep: Option<i64>,
    pub events: Option<i64>,
}

impl PollState {
    /// No panel attempted yet.
    pub fn new() -> (r: PollState)
        ensures
            r == (PollState { dispatch: None, sitrep: None, events: None }),
    {
        PollState { dispatch: None, sitrep: None, events: None }
    }
}

/// One request to make: the panel it is for, and the path to get.
#[derive(Debug, Clone)]
pub struct Request {
    pub kind: PanelKind,
    pub path: String,
}

/// What each request of a list holds.
pub open spec fn request_views(v: Seq<Request>) -> Seq<(PanelKind, Seq<char>)> {
    v.map_values(|r: Request| (r.kind, r.path@))
}

/// The path of the SITREP endpoint for a station.
pub open spec fn sitrep_path(mapid: Seq<char>, name: Seq<char>) -> Seq<char> {
    "/api/alerts/summary?station="@ + encoded_text(mapid) + "&stn="@ + encoded_text(name)
}

/// A request that is made where its panel is due.
pub open spec fn if_due(
    due: bool,
    kind: PanelKind,
    path: Seq<char>,
) -> Seq<(PanelKind, Seq<char>)> {
    if due {
        seq![(kind, path)]
    } else {
        Seq::empty()
    }
}

/// The requests that are due at `now`, in order.
pub open spec fn due_requests(
    state: PollState,
    now: i64,
    mapid: Seq<char>,
    name: Seq<char>,
) -> Seq<(PanelKind, Seq<char>)> {
    if_due(
        is_due(state.dispatch, now, DISPATCH_SECS),
        PanelKind::Dispatch,
        "/api/feed/narration"@,
    ) + if_due(
        is_due(state.sitrep, now, SITREP_SECS),
        PanelKind::Sitrep,
        sitrep_path(mapid, name),
    ) + if_due(
        is_due(state.events, now, EVENTS_SECS),
        PanelKind::Events,
        "/api/events/advisory"@,
    )
}

/// The time of a panel's last attempt once it is polled at `now`.
pub open spec fn attempted(last: Option<i64>, now: i64, interval: i64) -> Option<i64> {
    if is_due(last, now, interval) {
        Some(now)
    } else {
        last
    }
}

fn push_request(list: &mut Vec<Request>, kind: PanelKind, path: String)
    ensures
        request_views(final(list)@) == request_views(old(list)@) + seq![(kind, path@)],
{
    list.push(Request { kind, path });
    assert(request_views(list@) =~= request_views(old(list)@) + seq![(kind, path@)]);
}

/// One tick of the poller: the requests that are due at `now`, in order, each panel
/// asked for marked as attempted now, whatever comes of the request.
pub fn poll(state: &mut PollState, now: i64, mapid: &str, name: &str) -> (r: Vec<Request>)
    ensures
        request_views(r@) == due_requests(*old(state), now, mapid@, name@),
        final(state).dispatch == attempted(old(state).dispatch, now, DISPATCH_SECS),
        final(state).sitrep == attempted(old(state).sitrep, now, SITREP_SECS),
        final(state).events == attempted(old(state).events, now, EVENTS_SECS),
{
    let mut out: Vec<Request> = Vec::new();
    assert(request_views(out@) =~= Seq::<(PanelKind, Seq<char>)>::empty());
    if due(state.dispatch, now, DISPATCH_SECS) {
        state.dispatch = Some(now);
        push_request(&mut out, PanelKind::Dispatch, "/api/feed/narration".to_owned());
    }
    assert(request_views(out@) =~= if_due(
        is_due(old(state).dispatch, now, DISPATCH_SECS),
        PanelKind::Dispatch,
        "/api/feed/narration"@,
    ));
    let ghost first = request_views(out@);
    if due(state.sitrep, now, SITREP_SECS) {
        state.sitrep = Some(now);
        let mut path = "/api/alerts/summary?station=".to_owned();
        let id = urlenc(mapid);
        path.append(id.as_str());
        path.append("&stn=");
        let stn = urlenc(name);
        path.append(stn.as_str());
        push_request(&mut out, PanelKind::Sitrep, path);
    }
    assert(request_views(out@) =~= first + if_due(
        is_due(old(state).sitrep, now, SITREP_SECS),
        PanelKind::Sitrep,
        sitrep_path(mapid@, name@),
    ));
    let ghost second = request_views(out@);
    if due(state.events, now, EVENTS_SECS) {
        state.events = Some(now);
        push_request(&mut out, PanelKind::Events, "/api/events/advisory".to_owned());
    }
    assert(request_views(out@) =~= second + if_due(
        is_due(old(state).events, now, EVENTS_SECS),
        PanelKind::Events,
        "/api/events/advisory"@,
    ));
    out
}

// ---------- percent-encoding ----------

/// Whether a byte stands for itself in a query value.
pub open spec fn is_plain(b: u8) -> bool {
    ||| 'A' as u8 <= b <= 'Z' as u8
    ||| 'a' as u8 <= b <= 'z' as u8
    ||| '0' as u8 <= b <= '9' as u8
    ||| b == '-' as u8
    ||| b == '_' as u8
    ||| b == '.' as u8
    ||| b == '~' as u8
}

/// The upper-case hexadecimal digit of a number below 16.
pub open spec fn hex_digit(n: u8) -> char {
    if n < 10 {
        ('0' as u8 + n) as char
    } else {
        ('A' as u8 + (n - 10)) as char
    }
}

/// A byte in a query value: itself, or a percent sign and two hexadecimal digits.
pub open spec fn encoded_byte(b: u8) -> Seq<char> {
    if is_plain(b) {
        seq![b as char]
    } else {
        seq!['%', hex_digit(b / 16), hex_digit(b % 16)]
    }
}

/// Bytes as a query value.
pub open spec fn encoded(bytes: Seq<u8>) -> Seq<char>
    decreases bytes.len(),
{
    if bytes.len() == 0 {
        Seq::empty()
    } else {
        encoded_byte(bytes[0]) + encoded(bytes.drop_first())
    }
}

/// A text as a query value.
pub open spec fn encoded_text(s: Seq<char>) -> Seq<char> {
    encoded(vstd::utf8::encode_utf8(s))
}

fn push_hex(out: &mut String, n: u8)
    requires
        n < 16,
    ensures
        final(out)@ == old(out)@.push(hex_digit(n)),
{
    let c: char = if n < 10 {
        (48u8 + n) as char
    } else {
        (65u8 + (n - 10)) as char
    };
    out.push(c);
}

/// Minimal percent-encoding for query values (station names contain spaces, `/`).
pub fn urlenc(s: &str) -> (r: String)
    ensures
        r@ == encoded_text(s@),
{
    let bytes = s.as_bytes();
    let ghost all = bytes@;
    let mut out = String::new();
    let mut i: usize = 0;
    assert(all.skip(0) =~= all);
    assert(out@ + encoded(all) =~= encoded(all));
    while i < bytes.len()
        invariant
            i <= bytes@.len(),
            all == bytes@,
            out@ + encoded(all.skip(i as int)) == encoded(all),
        decreases bytes@.len() - i,
    {
        let b: u8 = bytes[i];
        let ghost before = out@;
        proof {
            assert(all.skip(i as int)[0] == b);
            assert(all.skip(i as int).drop_first() =~= all.skip(i + 1));
        }
        if (65 <= b && b <= 90) || (97 <= b && b <= 122) || (48 <= b && b <= 57) || b == 45 || b
            == 95 || b == 46 || b == 126 {
            out.push(b as char);
        } else {
            out.push('%');
            push_hex(&mut out, b / 16);
            push_hex(&mut out, b % 16);
        }
        proof {
            assert(out@ =~= before + encoded_byte(b));
            assert(out@ + encoded(all.skip(i + 1)) =~= before + (encoded_byte(b) + encoded(
                all.skip(i + 1),
            )));
        }
        i = i + 1;
    }
    assert(all.skip(i as int).len() == 0);
    assert(out@ =~= out@ + encoded(all.skip(i as int)));
    out
}

/// The number below 16 that a hexadecimal digit stands for.
pub open spec fn hex_value(c: char) -> u8 {
    if c <= '9' {
        (c as u8 - '0' as u8) as u8
    } else {
        (c as u8 - 'A' as u8 + 10) as u8
    }
}

/// What a reader of a query value makes of it: the bytes it stands for.
pub open spec fn decoded(s: Seq<char>) -> Seq<u8>
    decreases s.len(),
{
    if s.len() == 0 {
        Seq::empty()
    } else if s[0] == '%' && s.len() >= 3 {
        seq![(hex_value(s[1]) * 16 + hex_value(s[2])) as u8] + decoded(s.skip(3))
    } else {
        seq![s[0] as u8] + decoded(s.drop_first())
    }
}

/// Nothing is lost: decoding a percent-encoded value gives back its bytes.
pub proof fn law_encoding_can_be_read_back(bytes: Seq<u8>)
    ensures
        decoded(encoded(bytes)) == bytes,
    decreases bytes.len(),
{
    if bytes.len() > 0 {
        let b = bytes[0];
        let rest = encoded(bytes.drop_first());
        let e = encoded(bytes);
        law_encoding_can_be_read_back(bytes.drop_first());
        if is_plain(b) {
            assert(e[0] == b as char);
            assert(e.drop_first() =~= rest);
            assert(decoded(e) =~= bytes);
        } else {
            assert(e[0] == '%' && e[1] == hex_digit(b / 16) && e[2] == hex_digit(b % 16));
            assert(e.skip(3) =~= rest);
            assert(hex_value(hex_digit(b / 16)) == b / 16);
            assert(hex_value(hex_digit(b % 16)) == b % 16);
            assert(decoded(e) =~= bytes);
        }
    } else {
        assert(decoded(encoded(bytes)) =~= bytes);
    }
}

/// Whether every byte stands for itself in a query value.
pub open spec fn all_plain(bytes: Seq<u8>) -> bool {
    forall|i: int| 0 <= i < bytes.len() ==> is_plain(#[trigger] bytes[i])
}

/// Whether a character is an upper-case hexadecimal digit.
pub open spec fn is_hex(c: char) -> bool {
    '0' <= c <= '9' || 'A' <= c <= 'F'
}

/// Whether a text is made of nothing but characters that stand for themselves in a
/// query value, and percent signs with two upper-case hexadecimal digits each.
pub open spec fn is_query_value(s: Seq<char>) -> bool
    decreases s.len(),
{
    if s.len() == 0 {
        true
    } else if s[0] == '%' {
        s.len() >= 3 && is_hex(s[1]) && is_hex(s[2]) && is_query_value(s.skip(3))
    } else {
        s[0] <= '~' && is_plain(s[0] as u8) && is_query_value(s.drop_first())
    }
}

/// Percent-encoding leaves nothing but unreserved characters and percent signs with
/// two upper-case hexadecimal digits each.
pub proof fn law_encoding_is_a_query_value(bytes: Seq<u8>)
    ensures
        is_query_value(encoded(bytes)),
    decreases bytes.len(),
{
    if bytes.len() > 0 {
        let b = bytes[0];
        let rest = encoded(bytes.drop_first());
        let e = encoded(bytes);
        law_encoding_is_a_query_value(bytes.drop_first());
        if is_plain(b) {
            assert(e[0] == b as char);
            assert(e.drop_first() =~= rest);
        } else {
            assert(e[0] == '%' && e[1] == hex_digit(b / 16) && e[2] == hex_digit(b % 16));
            assert(e.skip(3) =~= rest);
        }
    }
}

proof fn encoded_concat(a: Seq<u8>, b: Seq<u8>)
    ensures
        encoded(a + b) == encoded(a) + encoded(b),
    decreases a.len(),
{
    if a.len() == 0 {
        assert(a + b =~= b);
        assert(encoded(a) + encoded(b) =~= encoded(b));
    } else {
        assert((a + b).drop_first() =~= a.drop_first() + b);
        encoded_concat(a.drop_first(), b);
        assert(encoded(a + b) =~= encoded(a) + encoded(b));
    }
}

proof fn encode_utf8_concat(s: Seq<char>, t: Seq<char>)
    ensures
        vstd::utf8::encode_utf8(s + t) == vstd::utf8::encode_utf8(s) + vstd::utf8::encode_utf8(t),
    decreases s.len(),
{
    let whole = vstd::utf8::encode_utf8(s + t);
    let parts = vstd::utf8::encode_utf8(s) + vstd::utf8::encode_utf8(t);
    if s.len() == 0 {
        assert(s + t =~= t);
        assert(whole =~= parts);
    } else {
        assert((s + t).drop_first() =~= s.drop_first() + t);
        encode_utf8_concat(s.drop_first(), t);
        assert(whole =~= parts);
    }
}

/// Percent-encoding a text made of two parts encodes one part behind the other.
pub proof fn law_encoding_goes_part_by_part(s: Seq<char>, t: Seq<char>)
    ensures
        encoded_text(s + t) == encoded_text(s) + encoded_text(t),
{
    encode_utf8_concat(s, t);
    encoded_concat(vstd::utf8::encode_utf8(s), vstd::utf8::encode_utf8(t));
}

proof fn encoding_never_shortens(bytes: Seq<u8>)
    ensures
        encoded(bytes).len() >= bytes.len(),
        !all_plain(bytes) ==> encoded(bytes).len() > bytes.len(),
        all_plain(bytes) ==> encoded(bytes) == bytes.map_values(|b: u8| b as char),
    decreases bytes.len(),
{
    if bytes.len() > 0 {
        let rest = bytes.drop_first();
        encoding_never_shortens(rest);
        if all_plain(bytes) {
            assert forall|i: int| 0 <= i < rest.len() implies is_plain(#[trigger] rest[i]) by {
                assert(rest[i] == bytes[i + 1]);
            }
            assert(is_plain(bytes[0]));
            assert(encoded(bytes) =~= bytes.map_values(|b: u8| b as char));
        } else if is_plain(bytes[0]) {
            let i = choose|i: int| 0 <= i < bytes.len() && !is_plain(#[trigger] bytes[i]);
            assert(rest[i - 1] == bytes[i]);
        }
    } else {
        assert(encoded(bytes) =~= bytes.map_values(|b: u8| b as char));
    }
}

proof fn narrow_char_is_ascii(c: char)
    requires
        vstd::utf8::has_width_1_encoding(c as u32),
    ensures
        '\0' <= c <= '\u{7f}',
{
}

proof fn plain_bytes_are_ascii(s: Seq<char>)
    ensures
        vstd::utf8::encode_utf8(s).len() >= s.len(),
        all_plain(vstd::utf8::encode_utf8(s)) ==> vstd::utf8::is_ascii_chars(s),
    decreases s.len(),
{
    if s.len() > 0 {
        let bytes = vstd::utf8::encode_utf8(s);
        let first = vstd::utf8::encode_scalar(s[0] as u32);
        let rest = vstd::utf8::encode_utf8(s.drop_first());
        plain_bytes_are_ascii(s.drop_first());
        if all_plain(bytes) {
            vstd::utf8::encode_utf8_first_scalar(s);
            assert(is_plain(bytes[0]));
            assert(first.len() == 1);
            assert(vstd::utf8::has_width_1_encoding(s[0] as u32));
            assert forall|i: int| 0 <= i < rest.len() implies is_plain(#[trigger] rest[i]) by {
                assert(rest[i] == bytes[first.len() + i]);
            }
            assert forall|i: int| 0 <= i < s.len() implies '\0' <= #[trigger] s[i]
                <= '\u{7f}' by {
                if i > 0 {
                    assert(s[i] == s.drop_first()[i - 1]);
                } else {
                    narrow_char_is_ascii(s[0]);
                }
            }
        }
    }
}

/// A text is its own percent-encoding exactly where each of its bytes is unreserved.
pub proof fn law_only_unreserved_texts_stay(s: Seq<char>)
    ensures
        encoded_text(s) == s <==> all_plain(vstd::utf8::encode_utf8(s)),
{
    let bytes = vstd::utf8::encode_utf8(s);
    encoding_never_shortens(bytes);
    plain_bytes_are_ascii(s);
    if all_plain(bytes) {
        vstd::utf8::is_ascii_chars_encode_utf8(s);
        assert forall|i: int| 0 <= i < s.len() implies encoded_text(s)[i] == s[i] by {
            assert(bytes[i] == s[i] as u8);
        }
        assert(encoded_text(s) =~= s);
    }
}

/// A text is read back from its percent-encoding.
pub proof fn law_encoded_text_can_be_read_back(s: Seq<char>)
    ensures
        decoded(encoded_text(s)) == vstd::utf8::encode_utf8(s),
        vstd::utf8::decode_utf8(decoded(encoded_text(s))) == s,
{
    law_encoding_can_be_read_back(vstd::utf8::encode_utf8(s));
    vstd::utf8::encode_utf8_decode_utf8(s);
}

// ---------- page rendering ----------

/// Human age of a panel's last update.
pub open spec fn age_text(updated_at: Option<i64>, now: i64) -> Seq<char> {
    match updated_at {
        None => "not yet retrieved"@,
        Some(t) => {
            let age: nat = if now > t {
                (now - t) as nat
            } else {
                0
            };
            if age < 90 {
                "updated "@ + text::dec(age) + "s ago"@
            } else if age < 5400 {
                "updated "@ + text::dec(age / 60) + "m ago"@
            } else {
                "updated "@ + text::dec(age / 3600) + "h ago"@
            }
        },
    }
}

/// Human age of a panel's last update, e.g. "updated 2m ago" / "not yet
/// retrieved". `now` is passed in so that rendering is a function of its inputs.
pub fn fmt_age(updated_at: Option<i64>, now: i64) -> (r: String)
    ensures
        r@ == age_text(updated_at, now),
{
    match updated_at {
        None => "not yet retrieved".to_owned(),
        Some(t) => {
            let age: u128 = if now > t {
                (now as i128 - t as i128) as u128
            } else {
                0
            };
            let mut out = "updated ".to_owned();
            if age < 90 {
                text::push_dec(&mut out, age);
                out.append("s ago");
            } else if age < 5400 {
                text::push_dec(&mut out, age / 60);
                out.append("m ago");
            } else {
                text::push_dec(&mut out, age / 3600);
                out.append("h ago");
            }
            out
        },
    }
}

/// How many trains are approaching a station.
pub open spec fn approaching_count(trains: Seq<TrainView>) -> nat
    decreases trains.len(),
{
    if trains.len() == 0 {
        0
    } else {
        approaching_count(trains.drop_last()) + (if trains.last().approaching {
            1nat
        } else {
            0nat
        })
    }
}

/// How many trains are delayed.
pub open spec fn delayed_count(trains: Seq<TrainView>) -> nat
    decreases trains.len(),
{
    if trains.len() == 0 {
        0
    } else {
        delayed_count(trains.drop_last()) + (if trains.last().delayed {
            1nat
        } else {
            0nat
        })
    }
}

/// How many trains are approaching a station, and how many are delayed.
fn count_flags(pos: &Positions) -> (r: (usize, usize))
    ensures
        r.0 == approaching_count(pos@.trains),
        r.1 == delayed_count(pos@.trains),
{
    let ghost all = pos@.trains;
    let mut a: usize = 0;
    let mut d: usize = 0;
    let mut i: usize = 0;
    while i < pos.trains.len()
        invariant
            all == pos@.trains,
            i <= pos.trains@.len(),
            a <= i,
            d <= i,
            a == approaching_count(all.take(i as int)),
            d == delayed_count(all.take(i as int)),
        decreases pos.trains@.len() - i,
    {
        proof {
            assert(all.take(i + 1).drop_last() =~= all.take(i as int));
            assert(all.take(i + 1).last() == pos.trains@[i as int]@);
        }
        if pos.trains[i].approaching {
            a = a + 1;
        }
        if pos.trains[i].delayed {
            d = d + 1;
        }
        i = i + 1;
    }
    assert(all.take(i as int) =~= all);
    (a, d)
}

/// A panel's text, or a placeholder where it has none.
pub open spec fn panel_body(panel: Panel, placeholder: Seq<char>) -> Seq<char> {
    if text::trimmed(panel.summary@).len() == 0 {
        placeholder
    } else {
        panel.summary@
    }
}

/// The dispatch page.
#[verifier::opaque]
pub open spec fn dispatch_text(view: NarrationView, pos: PositionsView, now: i64) -> Seq<char> {
    "CTA 'L' -- dispatch\n"@ + text::filled('=', 40) + "\n\n"@ + panel_body(
        view.dispatch,
        "(dispatch narration unavailable — feed stats below)"@,
    ) + "\n\nfeed stats:\n  trains reporting : "@ + text::dec(pos.trains.len())
        + "\n  approaching      : "@ + text::dec(approaching_count(pos.trains))
        + "\n  delayed          : "@ + text::dec(delayed_count(pos.trains))
        + "\n  last feed        : "@ + (match pos.feed_time {
        Some(t) => t,
        None => "unknown"@,
    }) + "\n\nsource: AI dispatch narration ("@ + age_text(view.dispatch.updated_at, now) + ")\n"@
}

/// `/dispatch.txt`: the one-line AI summary plus feed stats read straight from the
/// positions snapshot, so the page is useful even when the narration is
/// unavailable.
pub fn dispatch_page(view: &NarrationView, pos: &Positions, now: i64) -> (r: String)
    ensures
        r@ == dispatch_text(*view, pos@, now),
{
    let (approaching, delayed) = count_flags(pos);
    let rule = text::repeat('=', 40);
    let age = fmt_age(view.dispatch.updated_at, now);
    let mut out = "CTA 'L' -- dispatch\n".to_owned();
    out.append(rule.as_str());
    out.append("\n\n");
    if text::trim(view.dispatch.summary.as_str()).is_empty() {
        out.append("(dispatch narration unavailable — feed stats below)");
    } else {
        out.append(view.dispatch.summary.as_str());
    }
    out.append("\n\nfeed stats:\n  trains reporting : ");
    text::push_dec(&mut out, pos.trains.len() as u128);
    out.append("\n  approaching      : ");
    text::push_dec(&mut out, approaching as u128);
    out.append("\n  delayed          : ");
    text::push_dec(&mut out, delayed as u128);
    out.append("\n  last feed        : ");
    match &pos.feed_time {
        Some(t) => {
            out.append(t.as_str());
        },
        None => {
            out.append("unknown");
        },
    }
    out.append("\n\nsource: AI dispatch narration (");
    out.append(age.as_str());
    out.append(")\n");
    reveal(dispatch_text);
    out
}

/// Layout of the SITREP and events pages.
#[verifier::opaque]
pub open spec fn body_text(
    title: Seq<char>,
    station: Option<Seq<char>>,
    panel: Panel,
    placeholder: Seq<char>,
    source: Seq<char>,
    now: i64,
) -> Seq<char> {
    title + "\n"@ + text::filled('=', 40) + "\n"@ + (match station {
        Some(s) => "station: "@ + s + "\n"@,
        None => ""@,
    }) + "\n"@ + panel_body(panel, placeholder) + "\n\nsource: "@ + source + " ("@ + age_text(
        panel.updated_at,
        now,
    ) + ")\n"@
}

/// The SITREP page.
pub open spec fn sitrep_text(view: NarrationView, now: i64) -> Seq<char> {
    body_text(
        "CTA 'L' -- SITREP"@,
        Some(view.home_name@),
        view.sitrep,
        "(SITREP unavailable right now.)"@,
        "AI alerts summary"@,
        now,
    )
}

/// The events page.
pub open spec fn events_text(view: NarrationView, now: i64) -> Seq<char> {
    body_text(
        "CTA 'L' -- event advisory"@,
        None,
        view.events,
        "(no event advisory available right now.)"@,
        "AI events advisory"@,
        now,
    )
}

/// `/sitrep.txt`: the AI alerts SITREP body for the configured home station.
pub fn sitrep_page(view: &NarrationView, now: i64) -> (r: String)
    ensures
        r@ == sitrep_text(*view, now),
{
    body_page(
        "CTA 'L' -- SITREP",
        Some(view.home_name.as_str()),
        &view.sitrep,
        "(SITREP unavailable right now.)",
        "AI alerts summary",
        now,
    )
}

/// `/events.txt`: the AI Event Advisory body.
pub fn events_page(view: &NarrationView, now: i64) -> (r: String)
    ensures
        r@ == events_text(*view, now),
{
    body_page(
        "CTA 'L' -- event advisory",
        None,
        &view.events,
        "(no event advisory available right now.)",
        "AI events advisory",
        now,
    )
}

/// Shared layout for the SITREP / events bodies.
fn body_page(
    title: &str,
    station: Option<&str>,
    panel: &Panel,
    placeholder: &str,
    source: &str,
    now: i64,
) -> (r: String)
    ensures
        r@ == body_text(
            title@,
            match station {
                Some(s) => Some(s@),
                None => None,
            },
            *panel,
            placeholder@,
            source@,
            now,
        ),
{
    let rule = text::repeat('=', 40);
    let age = fmt_age(panel.updated_at, now);
    let mut place = "".to_owned();
    if let Some(s) = station {
        place = "station: ".to_owned();
        place.append(s);
        place.append("\n");
    }
    let mut out = title.to_owned();
    out.append("\n");
    out.append(rule.as_str());
    out.append("\n");
    out.append(place.as_str());
    out.append("\n");
    if text::trim(panel.summary.as_str()).is_empty() {
        out.append(placeholder);
    } else {
        out.append(panel.summary.as_str());
    }
    out.append("\n\nsource: ");
    out.append(source);
    out.append(" (");
    out.append(age.as_str());
    out.append(")\n");
    reveal(body_text);
    out
}

/// Once a panel is asked for it is left alone until its interval has passed, and
/// asked for again as soon as it has; a panel that was not due keeps its time.
pub proof fn law_a_polled_panel_waits_its_interval(
    last: Option<i64>,
    now: i64,
    later: i64,
    interval: i64,
)
    ensures
        is_due(attempted(last, now, interval), later, interval) <==> (if is_due(
            last,
            now,
            interval,
        ) {
            later - now >= interval
        } else {
            is_due(last, later, interval)
        }),
{
}

} // verus!
