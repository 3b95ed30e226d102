//! The fetcher's configuration and publishing rules: what the flags mean, how
//! snapshots are named and which of them are cleaned up, and when to fetch again.
//!
//! Publishing is atomic: each cycle writes the tree ([`crate::tree`]) into a fresh
//! `out-<stamp>/` snapshot directory, then flips a `current` link to it, so a reader
//! always sees a complete tree. Old snapshots are cleaned up.

use crate::text;
use vstd::prelude::*;
use vstd::string::StrSliceExecFns;
use vstd::string::StringExecFns;

verus! {

/// Published snapshots to retain, besides the current one.
pub const KEEP_SNAPSHOTS: usize = 3;

/// Fetcher configuration, from flags and environment.
#[derive(Debug, Clone)]
pub struct Config {
    /// Output directory.
    pub out: String,
    pub once: bool,
    /// Seconds between two fetches.
    pub interval: u64,
    /// Hub link to the phlog: `(host, port)`, or `None` to omit the root entry.
    pub phlog_link: Option<(String, u16)>,
}

/// What a [`Config`] holds.
pub struct ConfigView {
    pub out: Seq<char>,
    pub once: bool,
    pub interval: u64,
    pub phlog_link: Option<(Seq<char>, u16)>,
}

/// What an optional address holds.
pub open spec fn address_view(a: Option<(String, u16)>) -> Option<(Seq<char>, u16)> {
    match a {
        Some((h, p)) => Some((h@, p)),
        None => None,
    }
}

impl View for Config {
    type V = ConfigView;

    open spec fn view(&self) -> ConfigView {
        ConfigView {
            out: self.out@,
            once: self.once,
            interval: self.interval,
            phlog_link: address_view(self.phlog_link),
        }
    }
}

// ---------- the phlog link ----------

/// What stands before the first slash.
pub open spec fn authority_of(rest: Seq<char>) -> Seq<char> {
    rest.take(text::first_index(rest, '/'))
}

/// Host and port of an authority: the port behind the last colon, 70 where there is
/// no colon, and the text that is no port where it is none.
pub open spec fn host_and_port(authority: Seq<char>) -> Result<(Seq<char>, u16), Seq<char>> {
    let k = text::last_index(authority, ':');
    if k < 0 {
        Ok((authority, 70u16))
    } else {
        match text::parsed_uint(authority.skip(k + 1), u16::MAX as nat) {
            Some(n) => Ok((authority.take(k), n as u16)),
            None => Err(authority.skip(k + 1)),
        }
    }
}

/// The address that a `--phlog-link` value gives, none where it disables the link,
/// or the text of the error.
pub open spec fn phlog_of(raw: Seq<char>) -> Result<Option<(Seq<char>, u16)>, Seq<char>> {
    if raw.len() == 0 || text::same_but_case(raw, "none"@) {
        Ok(None)
    } else if !text::starts_with(raw, "gopher://"@) {
        Err("--phlog-link must start with gopher:// (got "@ + raw + ")"@)
    } else {
        match host_and_port(authority_of(raw.skip("gopher://"@.len() as int))) {
            Err(p) => Err("bad port in --phlog-link: "@ + p),
            Ok((host, port)) => if host.len() == 0 {
                Err("--phlog-link has no host: "@ + raw)
            } else {
                Ok(Some((host, port)))
            },
        }
    }
}

/// Parse `--phlog-link`: a `gopher://host[:port]` URL into `(host, port)` (port
/// defaults to 70). The literal `none` (or empty) disables the link.
pub fn parse_phlog_link(raw: &str) -> (r: Result<Option<(String, u16)>, String>)
    ensures
        match r {
            Ok(a) => phlog_of(raw@) == Ok::<Option<(Seq<char>, u16)>, Seq<char>>(address_view(a)),
            Err(e) => phlog_of(raw@) == Err::<Option<(Seq<char>, u16)>, Seq<char>>(e@),
        },
{
    if raw.is_empty() || text::eq_ignoring_case(raw, "none") {
        return Ok(None);
    }
    let rest = match text::after_prefix(raw, "gopher://") {
        Some(t) => t,
        None => {
            let mut e = "--phlog-link must start with gopher:// (got ".to_owned();
            e.append(raw);
            e.append(")");
            return Err(e);
        },
    };
    let v = text::chars_of(rest);
    let n: usize = text::find_first(&v, '/');
    let ghost authority = authority_of(rest@);
    assert(authority == v@.take(n as int));
    let host: String;
    let port: u16;
    match text::find_last(&v, n, ':') {
        Some(k) => {
            let digits = text::text_of(&v, k + 1, n);
            assert(digits@ =~= authority.skip(k + 1));
            match text::parse_uint(digits.as_str(), 65535) {
                Some(p) => {
                    port = p as u16;
                },
                None => {
                    let mut e = "bad port in --phlog-link: ".to_owned();
                    e.append(digits.as_str());
                    return Err(e);
                },
            }
            host = text::text_of(&v, 0, k);
            assert(host@ =~= authority.take(k as int));
        },
        None => {
            host = text::text_of(&v, 0, n);
            assert(host@ =~= authority);
            port = 70;
        },
    }
    if host.as_str().is_empty() {
        let mut e = "--phlog-link has no host: ".to_owned();
        e.append(raw);
        return Err(e);
    }
    Ok(Some((host, port)))
}

// ---------- the flags ----------

/// The flags read so far, or their defaults.
pub struct Flags {
    pub out: Seq<char>,
    pub once: bool,
    pub interval: u64,
    pub phlog: Seq<char>,
}

/// What flags mean, read one after the other over what was read before.
pub open spec fn flags_of(args: Seq<Seq<char>>, f: Flags) -> Result<Flags, Seq<char>>
    decreases args.len(),
{
    if args.len() == 0 {
        Ok(f)
    } else if args[0] == "--once"@ {
        flags_of(args.skip(1), Flags { once: true, ..f })
    } else if args[0] == "--interval"@ {
        if args.len() < 2 {
            Err("--interval needs <secs>"@)
        } else {
            match text::parsed_uint(args[1], u64::MAX as nat) {
                Some(n) => flags_of(
                    args.skip(2),
                    Flags {
                        interval: if n < 1 {
                            1
                        } else {
                            n as u64
                        },
                        ..f
                    },
                ),
                None => Err("bad --interval: "@ + args[1]),
            }
        }
    } else if args[0] == "--out"@ {
        if args.len() < 2 {
            Err("--out needs <dir>"@)
        } else {
            flags_of(args.skip(2), Flags { out: args[1], ..f })
        }
    } else if args[0] == "--phlog-link"@ {
        if args.len() < 2 {
            Err("--phlog-link needs <url>"@)
        } else {
            flags_of(args.skip(2), Flags { phlog: args[1], ..f })
        }
    } else {
        Err("unknown fetch arg: "@ + args[0])
    }
}

/// The defaults: every 30 seconds, into the directory that the environment names or
/// `public`, with the hub link to the sibling phlog.
pub open spec fn default_flags(gopher_out: Option<Seq<char>>) -> Flags {
    Flags {
        out: match gopher_out {
            Some(d) => d,
            None => "public"@,
        },
        once: false,
        interval: 30,
        phlog: "gopher://gopher.debene.dev:7071"@,
    }
}

/// The configuration that flags and environment give, or the text of the error.
pub open spec fn config_of(args: Seq<Seq<char>>, gopher_out: Option<Seq<char>>) -> Result<
    ConfigView,
    Seq<char>,
> {
    match flags_of(args, default_flags(gopher_out)) {
        Err(e) => Err(e),
        Ok(f) => match phlog_of(f.phlog) {
            Err(e) => Err(e),
            Ok(link) => Ok(
                ConfigView {
                    out: f.out,
                    once: f.once,
                    interval: f.interval,
                    phlog_link: link,
                },
            ),
        },
    }
}

impl Config {
    /// Parse the flags: `--once`, `--interval <secs>` (default 30, at least 1),
    /// `--out <dir>` (default: `gopher_out`, the value of `$GOPHER_OUT`, or
    /// `public`), `--phlog-link <gopher://host[:port]|none>`.
    pub fn from_args(args: &[String], gopher_out: Option<String>) -> (r: Result<Config, String>)
        ensures
            match r {
                Ok(c) => config_of(
                    text::views(args@),
                    crate::transit::opt_view(gopher_out),
                ) == Ok::<ConfigView, Seq<char>>(c@),
                Err(e) => config_of(
                    text::views(args@),
                    crate::transit::opt_view(gopher_out),
                ) == Err::<ConfigView, Seq<char>>(e@),
            },
    {
        let ghost all = text::views(args@);
        let ghost start = default_flags(crate::transit::opt_view(gopher_out));
        let mut out: String = match gopher_out {
            Some(d) => d,
            None => "public".to_owned(),
        };
        let mut once: bool = false;
        let mut interval: u64 = 30;
        let mut phlog: String = "gopher://gopher.debene.dev:7071".to_owned();
        let mut i: usize = 0;
        assert(all.skip(0) =~= all);
        while i < args.len()
            invariant
                i <= args@.len(),
                all == text::views(args@),
                flags_of(all, start) == flags_of(
                    all.skip(i as int),
                    (Flags { out: out@, once, interval, phlog: phlog@ }),
                ),
                start == default_flags(crate::transit::opt_view(gopher_out)),
            decreases args@.len() - i,
        {
            let ghost rest = all.skip(i as int);
            proof {
                assert(rest[0] == args@[i as int]@);
                assert(rest.skip(1) =~= all.skip(i + 1));
                if i + 1 < args@.len() {
                    assert(rest[1] == args@[i + 1]@);
                    assert(rest.skip(2) =~= all.skip(i + 2));
                }
            }
            let a = args[i].as_str();
            if text::text_eq(a, "--once") {
                once = true;
                i = i + 1;
            } else if text::text_eq(a, "--interval") {
                if args.len() - i < 2 {
                    return Err("--interval needs <secs>".to_owned());
                }
                let v = args[i + 1].as_str();
                match text::parse_uint(v, u64::MAX as u128) {
                    Some(n) => {
                        interval = if n < 1 {
                            1
                        } else {
                            n as u64
                        };
                    },
                    None => {
                        let mut e = "bad --interval: ".to_owned();
                        e.append(v);
                        return Err(e);
                    },
                }
                i = i + 2;
            } else if text::text_eq(a, "--out") {
                if args.len() - i < 2 {
                    return Err("--out needs <dir>".to_owned());
                }
                out = args[i + 1].as_str().to_owned();
                i = i + 2;
            } else if text::text_eq(a, "--phlog-link") {
                if args.len() - i < 2 {
                    return Err("--phlog-link needs <url>".to_owned());
                }
                phlog = args[i + 1].as_str().to_owned();
                i = i + 2;
            } else {
                let mut e = "unknown fetch arg: ".to_owned();
                e.append(a);
                return Err(e);
            }
        }
        assert(all.skip(i as int).len() == 0);
        match parse_phlog_link(phlog.as_str()) {
            Ok(phlog_link) => Ok(Config { out, once, interval, phlog_link }),
            Err(e) => Err(e),
        }
    }
}

/// The flags of a command line: all arguments behind the program's name, and behind
/// a leading `fetch`.
pub fn command_flags(args: &Vec<String>) -> (r: Vec<String>)
    requires
        args@.len() > 0,
    ensures
        text::views(r@) == (if args@.len() > 1 && args@[1]@ == "fetch"@ {
            text::views(args@).skip(2)
        } else {
            text::views(args@).skip(1)
        }),
{
    let from: usize = if args.len() > 1 && text::text_eq(args[1].as_str(), "fetch") {
        2
    } else {
        1
    };
    let ghost all = text::views(args@);
    let mut out: Vec<String> = Vec::new();
    let mut i: usize = from;
    assert(text::views(out@) =~= all.subrange(from as int, from as int));
    while i < args.len()
        invariant
            from <= i <= args@.len(),
            all == text::views(args@),
            text::views(out@) == all.subrange(from as int, i as int),
        decreases args@.len() - i,
    {
        let ghost before = out@;
        out.push(args[i].as_str().to_owned());
        assert(text::views(out@) =~= text::views(before).push(all[i as int]));
        i = i + 1;
        assert(text::views(out@) =~= all.subrange(from as int, i as int));
    }
    assert(text::views(out@) =~= all.skip(from as int));
    out
}

/// What the fetcher does after a cycle.
#[derive(Debug, Clone, Copy, PartialEq, Eq, Structural)]
pub enum Next {
    Stop,
    /// Sleep this many seconds, then fetch again.
    Sleep(u64),
}

/// What the fetcher does once a fetch has come back.
#[derive(Debug, Clone, Copy, PartialEq, Eq, Structural)]
pub enum Step {
    /// Publish what was fetched; the cycle ends with that, whatever comes of it.
    Publish,
    /// Publish nothing: the cycle is over.
    Rest(Next),
}

impl Config {
    /// What to do once a fetch has come back: publish what it brought. A failed fetch
    /// publishes nothing, and does not end a run that goes on for more than one cycle.
    pub fn after_fetch(&self, fetched: bool) -> (r: Step)
        ensures
            r == (if fetched {
                Step::Publish
            } else {
                Step::Rest(
                    if self.once {
                        Next::Stop
                    } else {
                        Next::Sleep(self.interval)
                    },
                )
            }),
    {
        if fetched {
            Step::Publish
        } else {
            Step::Rest(self.after_cycle())
        }
    }

    /// What to do after a cycle, whatever came of it: stop where one cycle was asked
    /// for, else wait for the interval.
    pub fn after_cycle(&self) -> (r: Next)
        ensures
            r == (if self.once {
                Next::Stop
            } else {
                Next::Sleep(self.interval)
            }),
    {
        if self.once {
            Next::Stop
        } else {
            Next::Sleep(self.interval)
        }
    }

    /// The mode, for the log.
    pub fn mode(&self) -> (r: String)
        ensures
            r@ == (if self.once {
                "once"@
            } else {
                "every "@ + text::dec(self.interval as nat) + "s"@
            }),
    {
        if self.once {
            "once".to_owned()
        } else {
            let mut out = "every ".to_owned();
            text::push_dec(&mut out, self.interval as u128);
            out.append("s");
            out
        }
    }
}

// ---------- snapshots ----------

/// The name of the snapshot made at a stamp.
pub open spec fn snapshot_text(stamp: u128) -> Seq<char> {
    "out-"@ + text::dec(stamp as nat)
}

/// The name of the snapshot directory made at a stamp.
pub fn snapshot_name(stamp: u128) -> (r: String)
    ensures
        r@ == snapshot_text(stamp),
{
    let mut out = "out-".to_owned();
    text::push_dec(&mut out, stamp as u128);
    out
}

/// The stamp that a directory name carries, where it is that of a snapshot.
pub open spec fn stamp_of(name: Seq<char>) -> Option<nat> {
    match text::parsed_uint(name.skip("out-"@.len() as int), u128::MAX as nat) {
        Some(n) => if name == snapshot_text(n as u128) {
            Some(n)
        } else {
            None
        },
        None => None,
    }
}

/// The stamp that a directory name carries, where it is that of a snapshot: the
/// name is the very one that [`snapshot_name`] gives for the stamp.
pub fn snapshot_stamp(name: &str) -> (r: Option<u128>)
    ensures
        match r {
            Some(n) => stamp_of(name@) == Some(n as nat) && name@ == snapshot_text(n),
            None => stamp_of(name@) is None && forall|n: u128| name@ != #[trigger] snapshot_text(n),
        },
{
    proof {
        assert forall|n: u128| name@ == #[trigger] snapshot_text(n) implies stamp_of(name@)
            == Some(n as nat) by {
            law_stamp_is_read_back(n);
        }
        assert forall|n: u128| text::starts_with(#[trigger] snapshot_text(n), "out-"@) by {
            assert(snapshot_text(n).take("out-"@.len() as int) =~= "out-"@);
        }
    }
    match text::after_prefix(name, "out-") {
        Some(digits) => match text::parse_uint(digits, u128::MAX) {
            Some(n) => {
                let again = snapshot_name(n);
                if text::text_eq(name, again.as_str()) {
                    Some(n)
                } else {
                    None
                }
            },
            None => None,
        },
        None => None,
    }
}

/// How many stamps of a list are newer than a stamp.
pub open spec fn newer(stamps: Seq<u128>, stamp: u128) -> nat
    decreases stamps.len(),
{
    if stamps.len() == 0 {
        0
    } else {
        newer(stamps.drop_last(), stamp) + (if stamps.last() > stamp {
            1nat
        } else {
            0nat
        })
    }
}

/// Whether a snapshot is to be removed: as many as are kept are newer, and it is
/// not the current one.
pub open spec fn is_stale(stamps: Seq<u128>, current: Option<u128>, keep: nat, stamp: u128) -> bool {
    newer(stamps, stamp) >= keep && current != Some(stamp)
}

/// The snapshots to be removed, in list order, out of the first `n`.
pub open spec fn stale(stamps: Seq<u128>, current: Option<u128>, keep: nat, n: nat) -> Seq<u128>
    decreases n,
{
    if n == 0 {
        Seq::empty()
    } else {
        let before = stale(stamps, current, keep, (n - 1) as nat);
        if is_stale(stamps, current, keep, stamps[n - 1]) {
            before.push(stamps[n - 1])
        } else {
            before
        }
    }
}

fn count_newer(stamps: &Vec<u128>, stamp: u128) -> (n: usize)
    ensures
        n == newer(stamps@, stamp),
{
    let mut n: usize = 0;
    let mut i: usize = 0;
    while i < stamps.len()
        invariant
            i <= stamps@.len(),
            n <= i,
            n == newer(stamps@.take(i as int), stamp),
        decreases stamps@.len() - i,
    {
        proof {
            assert(stamps@.take(i + 1).drop_last() =~= stamps@.take(i as int));
            assert(stamps@.take(i + 1).last() == stamps@[i as int]);
        }
        if stamps[i] > stamp {
            n = n + 1;
        }
        i = i + 1;
    }
    assert(stamps@.take(i as int) =~= stamps@);
    n
}

/// The snapshots to be removed after a publish: all but the newest `keep` and the
/// current one.
pub fn stale_snapshots(stamps: &Vec<u128>, current: Option<u128>, keep: usize) -> (r: Vec<u128>)
    ensures
        r@ == stale(stamps@, current, keep as nat, stamps@.len()),
        forall|k: int|
            0 <= k < r@.len() ==> is_stale(stamps@, current, keep as nat, #[trigger] r@[k]),
{
    let mut out: Vec<u128> = Vec::new();
    let mut i: usize = 0;
    while i < stamps.len()
        invariant
            i <= stamps@.len(),
            out@ == stale(stamps@, current, keep as nat, i as nat),
            forall|k: int|
                0 <= k < out@.len() ==> is_stale(
                    stamps@,
                    current,
                    keep as nat,
                    #[trigger] out@[k],
                ),
        decreases stamps@.len() - i,
    {
        let s: u128 = stamps[i];
        let is_current: bool = match current {
            Some(c) => c == s,
            None => false,
        };
        if count_newer(stamps, s) >= keep && !is_current {
            out.push(s);
        }
        i = i + 1;
    }
    out
}

// ---------- laws ----------

/// The current snapshot is never removed, and neither is one of the newest `keep`.
pub proof fn law_kept_snapshots_stay(
    stamps: Seq<u128>,
    current: Option<u128>,
    keep: nat,
    n: nat,
    stamp: u128,
)
    requires
        n <= stamps.len(),
        current == Some(stamp) || newer(stamps, stamp) < keep,
    ensures
        !stale(stamps, current, keep, n).contains(stamp),
    decreases n,
{
    if n > 0 {
        law_kept_snapshots_stay(stamps, current, keep, (n - 1) as nat, stamp);
        let before = stale(stamps, current, keep, (n - 1) as nat);
        let s = stale(stamps, current, keep, n);
        if s.contains(stamp) {
            let k = choose|k: int| 0 <= k < s.len() && s[k] == stamp;
            if k < before.len() {
                assert(before[k] == stamp);
            }
        }
    }
}

/// Every other snapshot is removed: what is left is the newest `keep` and the
/// current one.
pub proof fn law_all_others_are_removed(
    stamps: Seq<u128>,
    current: Option<u128>,
    keep: nat,
    n: nat,
    i: int,
)
    requires
        n <= stamps.len(),
        0 <= i < n,
        current != Some(stamps[i]),
        newer(stamps, stamps[i]) >= keep,
    ensures
        stale(stamps, current, keep, n).contains(stamps[i]),
    decreases n,
{
    let before = stale(stamps, current, keep, (n - 1) as nat);
    let s = stale(stamps, current, keep, n);
    if i == n - 1 {
        assert(s.last() == stamps[i]);
        assert(s[s.len() - 1] == stamps[i]);
    } else {
        law_all_others_are_removed(stamps, current, keep, (n - 1) as nat, i);
        let k = choose|k: int| 0 <= k < before.len() && before[k] == stamps[i];
        assert(s[k] == stamps[i]);
    }
}

/// A snapshot's stamp is read back from its name.
pub proof fn law_stamp_is_read_back(stamp: u128)
    ensures
        stamp_of(snapshot_text(stamp)) == Some(stamp as nat),
{
    reveal_strlit("out-");
    let d = text::dec(stamp as nat);
    let name = snapshot_text(stamp);
    text::dec_is_digits(stamp as nat);
    assert(name.take(4) =~= "out-"@);
    assert(name.skip(4) =~= d);
    assert('0' <= d[0] <= '9');
}

} // verus!
