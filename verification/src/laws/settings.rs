//! What the flags mean, where the phlog is, and which snapshots are kept.

use crate::fetch;
use crate::fetch::{ConfigView, Flags};
use crate::laws::reading::count;
use crate::text;
use vstd::prelude::*;

verus! {

/// Flags are read in turn: where what comes first can be read, the rest is read over
/// it.
pub proof fn law_flags_are_read_in_turn(
    args: Seq<Seq<char>>,
    more: Seq<Seq<char>>,
    f: Flags,
)
    ensures
        fetch::flags_of(args, f) matches Ok(g) ==> fetch::flags_of(args + more, f)
            == fetch::flags_of(more, g),
        fetch::flags_of(Seq::<Seq<char>>::empty(), f) == Ok::<Flags, Seq<char>>(f),
    decreases args.len(),
{
    let all = args + more;
    if args.len() == 0 {
        assert(all =~= more);
    } else if fetch::flags_of(args, f) is Ok {
        assert(all[0] == args[0]);
        assert(all.skip(1) =~= args.skip(1) + more);
        if args[0] == "--once"@ {
            law_flags_are_read_in_turn(args.skip(1), more, Flags { once: true, ..f });
        } else if args[0] == "--interval"@ {
            assert(args.len() >= 2);
            assert(all[1] == args[1]);
            assert(all.skip(2) =~= args.skip(2) + more);
            let n = text::parsed_uint(args[1], u64::MAX as nat)->0;
            let i: u64 = if n < 1 {
                1
            } else {
                n as u64
            };
            law_flags_are_read_in_turn(args.skip(2), more, Flags { interval: i, ..f });
        } else if args[0] == "--out"@ {
            assert(args.len() >= 2);
            assert(all[1] == args[1]);
            assert(all.skip(2) =~= args.skip(2) + more);
            law_flags_are_read_in_turn(args.skip(2), more, Flags { out: args[1], ..f });
        } else {
            assert(args[0] == "--phlog-link"@);
            assert(args.len() >= 2);
            assert(all[1] == args[1]);
            assert(all.skip(2) =~= args.skip(2) + more);
            law_flags_are_read_in_turn(args.skip(2), more, Flags { phlog: args[1], ..f });
        }
    }
}

proof fn flags_differ()
    ensures
        "--once"@ != "--interval"@,
        "--once"@ != "--out"@,
        "--once"@ != "--phlog-link"@,
        "--interval"@ != "--out"@,
        "--interval"@ != "--phlog-link"@,
        "--out"@ != "--phlog-link"@,
{
    reveal_strlit("--once");
    reveal_strlit("--interval");
    reveal_strlit("--out");
    reveal_strlit("--phlog-link");
    assert("--once"@.len() == 6 && "--interval"@.len() == 10 && "--out"@.len() == 5
        && "--phlog-link"@.len() == 12);
}

/// Each flag sets its own setting and leaves the others: one cycle, the seconds between
/// two fetches (at least one), the output directory, the link to the phlog.
pub proof fn law_each_flag_sets_its_own(f: Flags, v: Seq<char>, n: u64)
    ensures
        fetch::flags_of(seq!["--once"@], f) matches Ok(g) && g.once && g.interval == f.interval
            && g.out == f.out && g.phlog == f.phlog,
        text::parsed_uint(v, u64::MAX as nat) == Some(n as nat) ==> (fetch::flags_of(
            seq!["--interval"@, v],
            f,
        ) matches Ok(g) && g.once == f.once && g.out == f.out && g.phlog == f.phlog && g.interval
            >= 1 && (n >= 1 ==> g.interval == n) && (n == 0 ==> g.interval == 1)),
        text::parsed_uint(v, u64::MAX as nat) is None ==> fetch::flags_of(
            seq!["--interval"@, v],
            f,
        ) is Err,
        fetch::flags_of(seq!["--out"@, v], f) matches Ok(g) && g.out == v && g.once == f.once
            && g.interval == f.interval && g.phlog == f.phlog,
        fetch::flags_of(seq!["--phlog-link"@, v], f) matches Ok(g) && g.phlog == v && g.once
            == f.once && g.interval == f.interval && g.out == f.out,
        fetch::flags_of(seq!["--interval"@], f) is Err,
        fetch::flags_of(seq!["--out"@], f) is Err,
        fetch::flags_of(seq!["--phlog-link"@], f) is Err,
        v != "--once"@ && v != "--interval"@ && v != "--out"@ && v != "--phlog-link"@
            ==> fetch::flags_of(seq![v], f) is Err,
{
    flags_differ();
    let none = Seq::<Seq<char>>::empty();
    assert(seq!["--once"@].skip(1) =~= none);
    assert(seq!["--interval"@, v].skip(2) =~= none);
    assert(seq!["--out"@, v].skip(2) =~= none);
    assert(seq!["--phlog-link"@, v].skip(2) =~= none);
    reveal_with_fuel(fetch::flags_of, 2);
}

/// Without flags the fetcher runs every thirty seconds into the directory that the
/// environment names, or into `public`, and links the phlog at its usual address.
pub proof fn law_defaults(out: Option<Seq<char>>)
    ensures
        fetch::config_of(Seq::<Seq<char>>::empty(), out) matches Ok(c) && !c.once && c.interval == 30
            && (out is Some ==> c.out == out->0) && (out is None ==> c.out == "public"@)
            && c.phlog_link == Some(("gopher.debene.dev"@, 7071u16)),
{
    let host = "gopher.debene.dev"@;
    reveal_with_fuel(text::dec, 5);
    reveal_strlit("gopher.debene.dev");
    reveal_strlit("gopher://gopher.debene.dev:7071");
    reveal_strlit("gopher://");
    reveal_strlit(":");
    assert(text::dec(7071) =~= seq!['7', '0', '7', '1']);
    assert("gopher://gopher.debene.dev:7071"@ =~= "gopher://"@ + host + ":"@ + text::dec(7071));
    assert(text::lacks(host, '/')) by {
        reveal(text::lacks);
    }
    law_phlog_address_is_read(host, 7071, Seq::<char>::empty());
}

proof fn first_index_at(s: Seq<char>, c: char)
    ensures
        0 <= text::first_index(s, c) <= s.len(),
        text::lacks(s.take(text::first_index(s, c)), c),
        text::first_index(s, c) < s.len() ==> s[text::first_index(s, c)] == c,
    decreases s.len(),
{
    reveal(text::lacks);
    if s.len() > 0 && s[0] != c {
        let t = s.drop_first();
        first_index_at(t, c);
        let k = text::first_index(s, c);
        assert forall|i: int| 0 <= i < s.take(k).len() implies #[trigger] s.take(k)[i] != c by {
            if i > 0 {
                assert(s.take(k)[i] == t.take(k - 1)[i - 1]);
            }
        }
    }
}

proof fn last_index_at(s: Seq<char>, c: char)
    ensures
        -1 <= text::last_index(s, c) < s.len(),
        text::lacks(s.skip(text::last_index(s, c) + 1), c),
        text::last_index(s, c) >= 0 ==> s[text::last_index(s, c)] == c,
    decreases s.len(),
{
    reveal(text::lacks);
    if s.len() > 0 && s.last() != c {
        let t = s.drop_last();
        last_index_at(t, c);
        let k = text::last_index(s, c) + 1;
        assert forall|i: int| 0 <= i < s.skip(k).len() implies #[trigger] s.skip(k)[i] != c by {
            if i < t.skip(k).len() {
                assert(s.skip(k)[i] == t.skip(k)[i]);
            } else {
                assert(s.skip(k)[i] == s.last());
            }
        }
    }
}

/// A character is found where it first and where it last stands.
pub proof fn law_characters_are_found(s: Seq<char>, c: char)
    ensures
        ({
            let i = text::first_index(s, c);
            let j = text::last_index(s, c);
            &&& 0 <= i <= s.len()
            &&& -1 <= j < s.len()
            &&& text::lacks(s, c) <==> i == s.len()
            &&& text::lacks(s, c) <==> j == -1
            &&& i < s.len() ==> s[i] == c && text::lacks(s.take(i), c)
            &&& j >= 0 ==> s[j] == c && text::lacks(s.skip(j + 1), c)
        }),
{
    first_index_at(s, c);
    last_index_at(s, c);
    reveal(text::lacks);
    let i = text::first_index(s, c);
    if i == s.len() {
        assert(s.take(i) =~= s);
    }
    if text::last_index(s, c) == -1 {
        assert(s.skip(0) =~= s);
    }
}

proof fn authority_is(a: Seq<char>, path: Seq<char>)
    requires
        text::lacks(a, '/'),
    ensures
        fetch::authority_of(a) == a,
        fetch::authority_of(a + seq!['/'] + path) == a,
{
    reveal(text::lacks);
    law_characters_are_found(a, '/');
    assert(a.take(a.len() as int) =~= a);
    let s = a + seq!['/'] + path;
    law_characters_are_found(s, '/');
    let i = text::first_index(s, '/');
    assert(s[a.len() as int] == '/');
    if i < a.len() {
        assert(s[i] == a[i]);
    }
    if i > a.len() {
        assert(s.take(i)[a.len() as int] == '/');
    }
    assert(s.take(i) =~= a);
}

proof fn starts_like_gopher(rest: Seq<char>)
    ensures
        text::starts_with("gopher://"@ + rest, "gopher://"@),
        ("gopher://"@ + rest).skip("gopher://"@.len() as int) == rest,
        !text::same_but_case("gopher://"@ + rest, "none"@),
{
    reveal_strlit("gopher://");
    reveal_strlit("none");
    let s = "gopher://"@ + rest;
    assert(s.take(9) =~= "gopher://"@);
    assert(s.skip(9) =~= rest);
    assert(s.len() >= 9 && "none"@.len() == 4);
}

proof fn host_and_port_are(host: Seq<char>, port: u16)
    ensures
        fetch::host_and_port(host + ":"@ + text::dec(port as nat)) == Ok::<
            (Seq<char>, u16),
            Seq<char>,
        >((host, port)),
        text::lacks(host, ':') ==> fetch::host_and_port(host) == Ok::<(Seq<char>, u16), Seq<char>>(
            (host, 70u16),
        ),
{
    reveal_strlit(":");
    let d = text::dec(port as nat);
    let a = host + ":"@ + d;
    text::dec_lacks(port as nat, ':');
    law_characters_are_found(a, ':');
    law_characters_are_found(host, ':');
    let j = text::last_index(a, ':');
    assert(a[host.len() as int] == ':');
    assert(j == host.len()) by {
        reveal(text::lacks);
        if j < host.len() {
            assert(a.skip(j + 1)[host.len() - j - 1] == ':');
        }
        if j > host.len() {
            assert(a[j] == d[j - host.len() - 1]);
        }
    }
    assert(a.take(j) =~= host);
    assert(a.skip(j + 1) =~= d);
    crate::laws::reading::law_numbers_are_read_back(port as nat, u16::MAX as nat, d);
}

proof fn phlog_is(a: Seq<char>, host: Seq<char>, port: u16, path: Seq<char>)
    requires
        host.len() > 0,
        text::lacks(a, '/'),
        fetch::host_and_port(a) == Ok::<(Seq<char>, u16), Seq<char>>((host, port)),
    ensures
        fetch::phlog_of("gopher://"@ + a) == Ok::<Option<(Seq<char>, u16)>, Seq<char>>(
            Some((host, port)),
        ),
        fetch::phlog_of("gopher://"@ + (a + seq!['/'] + path)) == Ok::<
            Option<(Seq<char>, u16)>,
            Seq<char>,
        >(Some((host, port))),
{
    authority_is(a, path);
    starts_like_gopher(a);
    starts_like_gopher(a + seq!['/'] + path);
    reveal_strlit("gopher://");
}

/// The address of the phlog is read from its URL, with the port behind the last colon
/// and whatever path; without a port it is that of gopher.
pub proof fn law_phlog_address_is_read(host: Seq<char>, port: u16, path: Seq<char>)
    requires
        host.len() > 0,
        text::lacks(host, '/'),
    ensures
        fetch::phlog_of("gopher://"@ + host + ":"@ + text::dec(port as nat)) == Ok::<
            Option<(Seq<char>, u16)>,
            Seq<char>,
        >(Some((host, port))),
        fetch::phlog_of("gopher://"@ + host + ":"@ + text::dec(port as nat) + "/"@ + path) == Ok::<
            Option<(Seq<char>, u16)>,
            Seq<char>,
        >(Some((host, port))),
        text::lacks(host, ':') ==> fetch::phlog_of("gopher://"@ + host) == Ok::<
            Option<(Seq<char>, u16)>,
            Seq<char>,
        >(Some((host, 70u16))) && fetch::phlog_of("gopher://"@ + host + "/"@ + path) == Ok::<
            Option<(Seq<char>, u16)>,
            Seq<char>,
        >(Some((host, 70u16))),
{
    broadcast use text::lacks_both;

    let d = text::dec(port as nat);
    let a = host + ":"@ + d;
    text::dec_lacks(port as nat, '/');
    assert(text::lacks(":"@, '/')) by {
        reveal(text::lacks);
        reveal_strlit(":");
    }
    assert("/"@ =~= seq!['/']) by {
        reveal_strlit("/");
    }
    host_and_port_are(host, port);
    phlog_is(a, host, port, path);
    assert("gopher://"@ + host + ":"@ + d =~= "gopher://"@ + a);
    assert("gopher://"@ + host + ":"@ + d + "/"@ + path =~= "gopher://"@ + (a + seq!['/'] + path));
    if text::lacks(host, ':') {
        phlog_is(host, host, 70, path);
        assert("gopher://"@ + host + "/"@ + path =~= "gopher://"@ + (host + seq!['/'] + path));
    }
}

/// The link to the phlog is left out exactly where the setting is empty or reads
/// `none`, in whatever case; a setting that is no gopher URL, has no host or a port
/// that is no number is refused.
pub proof fn law_phlog_can_be_left_out(raw: Seq<char>)
    ensures
        fetch::phlog_of(raw) == Ok::<Option<(Seq<char>, u16)>, Seq<char>>(None) <==> raw.len() == 0
            || raw.len() == 4 && (raw[0] == 'n' || raw[0] == 'N') && (raw[1] == 'o' || raw[1]
            == 'O') && (raw[2] == 'n' || raw[2] == 'N') && (raw[3] == 'e' || raw[3] == 'E'),
        fetch::phlog_of(raw) matches Ok(Some((host, port))) ==> host.len() > 0 && text::starts_with(
            raw,
            "gopher://"@,
        ),
        fetch::phlog_of("gopher://"@) is Err,
        fetch::phlog_of("gopher://:70"@) is Err,
{
    reveal_strlit("none");
    reveal_strlit("gopher://");
    reveal_strlit("gopher://:70");
    if raw.len() == 4 {
        assert(text::same_but_case(raw, "none"@) <==> text::lower(raw[0]) == 'n' && text::lower(
            raw[1],
        ) == 'o' && text::lower(raw[2]) == 'n' && text::lower(raw[3]) == 'e');
    }
    let a = "gopher://"@;
    assert(a.take(9) =~= a);
    assert(a.skip(9) =~= Seq::<char>::empty());
    let b = "gopher://:70"@;
    assert(b.take(9) =~= a);
    let rest = b.skip(9);
    assert(rest =~= seq![':', '7', '0']);
    reading_empty_authority();
}

proof fn reading_empty_authority()
    ensures
        fetch::host_and_port(fetch::authority_of(Seq::<char>::empty())) == Ok::<
            (Seq<char>, u16),
            Seq<char>,
        >((Seq::<char>::empty(), 70u16)),
        fetch::host_and_port(fetch::authority_of(seq![':', '7', '0'])) matches Ok((h, p)) && h.len()
            == 0,
{
    let none = Seq::<char>::empty();
    crate::laws::reading::empty_lacks('/');
    authority_is(none, none);
    let s = seq![':', '7', '0'];
    assert(text::lacks(s, '/')) by {
        reveal(text::lacks);
    }
    authority_is(s, none);
    law_characters_are_found(s, ':');
    let j = text::last_index(s, ':');
    assert(s[0] == ':');
    assert(j == 0) by {
        reveal(text::lacks);
        if j > 0 {
            assert(s[j] != ':');
        }
        if j < 0 {
            assert(!text::lacks(s, ':'));
        }
    }
    assert(s.skip(1) =~= seq!['7', '0']);
    reveal_with_fuel(text::dec, 3);
    assert(text::dec(70) =~= seq!['7', '0']);
    crate::laws::reading::law_numbers_are_read_back(70, u16::MAX as nat, none);
    assert(s.take(0) =~= none);
}

/// The snapshots to be removed are those older than enough others, but for the current
/// one, in the order in which they were found.
pub proof fn law_stale_snapshots_are_the_older_ones(
    stamps: Seq<u128>,
    current: Option<u128>,
    keep: nat,
)
    ensures
        fetch::stale(stamps, current, keep, stamps.len()) == stamps.filter(
            |s: u128| count(stamps, |o: u128| o > s) >= keep && current != Some(s),
        ),
{
    stale_upto(stamps, current, keep, stamps.len());
    assert(stamps.take(stamps.len() as int) =~= stamps);
}

proof fn newer_are_counted(stamps: Seq<u128>, s: u128)
    ensures
        fetch::newer(stamps, s) == count(stamps, |o: u128| o > s),
    decreases stamps.len(),
{
    if stamps.len() > 0 {
        newer_are_counted(stamps.drop_last(), s);
    }
}

proof fn stale_upto(stamps: Seq<u128>, current: Option<u128>, keep: nat, n: nat)
    requires
        n <= stamps.len(),
    ensures
        fetch::stale(stamps, current, keep, n) == stamps.take(n as int).filter(
            |s: u128| count(stamps, |o: u128| o > s) >= keep && current != Some(s),
        ),
    decreases n,
{
    let f = |s: u128| count(stamps, |o: u128| o > s) >= keep && current != Some(s);
    reveal(Seq::filter);
    if n > 0 {
        let m = (n - 1) as nat;
        stale_upto(stamps, current, keep, m);
        assert(stamps.take(n as int).drop_last() =~= stamps.take(m as int));
        newer_are_counted(stamps, stamps[n - 1]);
    } else {
        assert(fetch::stale(stamps, current, keep, n) =~= stamps.take(0).filter(f));
    }
}

/// What the flags give is what the fetcher runs with: once or at an interval, where
/// to, and the link read from its setting.
pub proof fn law_settings_are_taken_over(args: Seq<Seq<char>>, out: Option<Seq<char>>)
    ensures
        ({
            let flags = fetch::flags_of(args, fetch::default_flags(out));
            let c = fetch::config_of(args, out);
            &&& flags is Err ==> c is Err
            &&& flags matches Ok(g) ==> (c is Ok <==> fetch::phlog_of(g.phlog) is Ok)
            &&& c matches Ok(v) ==> v.out == flags->Ok_0.out && v.once == flags->Ok_0.once
                && v.interval == flags->Ok_0.interval && Ok::<
                Option<(Seq<char>, u16)>,
                Seq<char>,
            >(v.phlog_link) == fetch::phlog_of(flags->Ok_0.phlog)
        }),
{
}

/// What cannot be read is refused by name, whatever follows it: an unknown flag, an
/// interval that is no number, a flag without its value.
pub proof fn law_refused_flags_are_named(f: Flags, v: Seq<char>, more: Seq<Seq<char>>)
    ensures
        v != "--once"@ && v != "--interval"@ && v != "--out"@ && v != "--phlog-link"@
            ==> fetch::flags_of(seq![v] + more, f) == Err::<Flags, Seq<char>>(
            "unknown fetch arg: "@ + v,
        ),
        text::parsed_uint(v, u64::MAX as nat) is None ==> fetch::flags_of(
            seq!["--interval"@, v] + more,
            f,
        ) == Err::<Flags, Seq<char>>("bad --interval: "@ + v),
        fetch::flags_of(seq!["--interval"@], f) == Err::<Flags, Seq<char>>(
            "--interval needs <secs>"@,
        ),
        fetch::flags_of(seq!["--out"@], f) == Err::<Flags, Seq<char>>("--out needs <dir>"@),
        fetch::flags_of(seq!["--phlog-link"@], f) == Err::<Flags, Seq<char>>(
            "--phlog-link needs <url>"@,
        ),
{
    flags_differ();
    assert((seq![v] + more)[0] == v);
    let two = seq!["--interval"@, v] + more;
    assert(two[0] == "--interval"@ && two[1] == v);
}

/// A phlog address that cannot be read is refused for what is wrong with it: no gopher
/// URL, a port that is no number, no host.
pub proof fn law_refused_addresses_are_named(
    raw: Seq<char>,
    host: Seq<char>,
    p: Seq<char>,
    path: Seq<char>,
)
    requires
        text::lacks(host, '/'),
        text::lacks(p, '/'),
        text::lacks(p, ':'),
    ensures
        raw.len() > 0 && !text::same_but_case(raw, "none"@) && !text::starts_with(
            raw,
            "gopher://"@,
        ) ==> fetch::phlog_of(raw) == Err::<Option<(Seq<char>, u16)>, Seq<char>>(
            "--phlog-link must start with gopher:// (got "@ + raw + ")"@,
        ),
        text::parsed_uint(p, u16::MAX as nat) is None ==> fetch::phlog_of(
            "gopher://"@ + (host + seq![':'] + p + seq!['/'] + path),
        ) == Err::<Option<(Seq<char>, u16)>, Seq<char>>("bad port in --phlog-link: "@ + p),
        fetch::phlog_of("gopher://"@ + (seq!['/'] + path)) == Err::<
            Option<(Seq<char>, u16)>,
            Seq<char>,
        >("--phlog-link has no host: "@ + ("gopher://"@ + (seq!['/'] + path))),
{
    broadcast use text::lacks_both;

    let a = host + seq![':'] + p;
    assert(text::lacks(seq![':'], '/')) by {
        reveal(text::lacks);
    }
    authority_is(a, path);
    starts_like_gopher(a + seq!['/'] + path);
    law_characters_are_found(a, ':');
    let j = text::last_index(a, ':');
    assert(a[host.len() as int] == ':');
    assert(j == host.len()) by {
        reveal(text::lacks);
        if j < host.len() {
            assert(a.skip(j + 1)[host.len() - j - 1] == ':');
        }
        if j > host.len() {
            assert(a[j] == p[j - host.len() - 1]);
        }
    }
    assert(a.skip(j + 1) =~= p);
    assert(host + seq![':'] + p + seq!['/'] + path =~= a + seq!['/'] + path);
    reveal_strlit("gopher://");
    let none = Seq::<char>::empty();
    crate::laws::reading::empty_lacks('/');
    authority_is(none, path);
    assert(none + seq!['/'] + path =~= seq!['/'] + path);
    starts_like_gopher(seq!['/'] + path);
    assert(text::last_index(none, ':') == -1);
}

} // verus!
