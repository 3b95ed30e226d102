//! The fixed pages about the service.

use crate::project;
use crate::project::Geometry;
use crate::text;
use vstd::prelude::*;
use vstd::string::StringExecFns;

verus! {

/// The about page of a service whose map has the given geometry.
#[verifier::opaque]
pub open spec fn about_text(geo: Geometry) -> Seq<char> {
    "        ______________________________\n\
    \x20    __/  []  []   gopher-cta   []    \\__\n\
    \x20   |  |____________________________|    |\n\
    \x20   |__|  o   o   o   o   o   o   o  |____|\n\
    \x20   /  (O)========================(O)     \\\n\
    \x20  '----------------------------------------'\n\
    \x20          live CTA 'L', dot by dot\n\n\
    Live CTA 'L' train positions, rendered as a Unicode-braille map of\n\
    Chicago and served over Gopher -- the 1991 protocol, no HTTP, no\n\
    JavaScript.\n\n\
    What's here:\n\
    \x20 * a braille train map (plain), and an ANSI colour version overlaying\n\
    \x20   the Chicago coastline, river, expressways and landmark codes under\n\
    \x20   the trains\n\
    \x20 * a matching char-cell geographic atlas (atlas.ansi)\n\
    \x20 * per-line listings and a detail page for every running train\n\
    \x20 * Chicago landmarks, each with its own page\n\
    \x20 * AI narration panels -- dispatch, a per-station SITREP, event\n\
    \x20   advisories (fed by the cta-track-grid Worker; see below)\n\n\
    How it works:\n\
    \x20 A Rust fetcher polls the CTA Train Tracker API, renders a complete\n\
    \x20 static gopher tree each cycle, and atomically swaps it into place;\n\
    \x20 the geomyidae daemon serves it. One km-based projection (cos(lat)\n\
    \x20 longitude shrink + terminal cell-aspect correction) draws the city\n\
    \x20 north-up and undistorted. It cross-compiles to big-endian PowerPC --\n\
    \x20 it runs on a PowerMac G5.\n\n\
    \x20 Canvas: "@
        + text::dec(geo.wc as nat)
        + "x"@
        + text::dec(geo.hc as nat)
        + " braille cells ("@
        + text::dec(geo.wp as nat)
        + "x"@
        + text::dec(geo.hp as nat)
        + " pixels).\n\n\
    Source:  https://github.com/felipedbene/gopher-cta\n\
    Live:    gopher://gopher.debene.dev:70/\n\n\
    Part of a small CTA family. The flagship is cta-track-grid -- a\n\
    real-time web tracker whose Worker also powers the AI panels above:\n\
    \x20 https://tracker.debene.dev/\n\
    \x20 https://github.com/felipedbene/cta-track-grid\n\n\
    Built in Rust. Data from the CTA Train Tracker API.\n\
    Not affiliated with the Chicago Transit Authority.\n"@
}

/// The about page (plain text).
pub fn about_page() -> (r: String)
    ensures
        r@ == about_text((Geometry { wc: 48, hc: 30, wp: 96, hp: 120 })),
{
    let geo = project::geometry();
    reveal(about_text);
    let mut out = "        ______________________________\n\
    \x20    __/  []  []   gopher-cta   []    \\__\n\
    \x20   |  |____________________________|    |\n\
    \x20   |__|  o   o   o   o   o   o   o  |____|\n\
    \x20   /  (O)========================(O)     \\\n\
    \x20  '----------------------------------------'\n\
    \x20          live CTA 'L', dot by dot\n\n\
    Live CTA 'L' train positions, rendered as a Unicode-braille map of\n\
    Chicago and served over Gopher -- the 1991 protocol, no HTTP, no\n\
    JavaScript.\n\n\
    What's here:\n\
    \x20 * a braille train map (plain), and an ANSI colour version overlaying\n\
    \x20   the Chicago coastline, river, expressways and landmark codes under\n\
    \x20   the trains\n\
    \x20 * a matching char-cell geographic atlas (atlas.ansi)\n\
    \x20 * per-line listings and a detail page for every running train\n\
    \x20 * Chicago landmarks, each with its own page\n\
    \x20 * AI narration panels -- dispatch, a per-station SITREP, event\n\
    \x20   advisories (fed by the cta-track-grid Worker; see below)\n\n\
    How it works:\n\
    \x20 A Rust fetcher polls the CTA Train Tracker API, renders a complete\n\
    \x20 static gopher tree each cycle, and atomically swaps it into place;\n\
    \x20 the geomyidae daemon serves it. One km-based projection (cos(lat)\n\
    \x20 longitude shrink + terminal cell-aspect correction) draws the city\n\
    \x20 north-up and undistorted. It cross-compiles to big-endian PowerPC --\n\
    \x20 it runs on a PowerMac G5.\n\n\
    \x20 Canvas: ".to_owned();
    text::push_dec(&mut out, geo.wc as u128);
    out.append("x");
    text::push_dec(&mut out, geo.hc as u128);
    out.append(" braille cells (");
    text::push_dec(&mut out, geo.wp as u128);
    out.append("x");
    text::push_dec(&mut out, geo.hp as u128);
    out.append(" pixels).\n\n\
    Source:  https://github.com/felipedbene/gopher-cta\n\
    Live:    gopher://gopher.debene.dev:70/\n\n\
    Part of a small CTA family. The flagship is cta-track-grid -- a\n\
    real-time web tracker whose Worker also powers the AI panels above:\n\
    \x20 https://tracker.debene.dev/\n\
    \x20 https://github.com/felipedbene/cta-track-grid\n\n\
    Built in Rust. Data from the CTA Train Tracker API.\n\
    Not affiliated with the Chicago Transit Authority.\n");
    out
}

/// The text of the FAQ page.
pub open spec fn faq_text() -> Seq<char> {
    "gopher-cta : FAQ\n\
    ================\n\n\
    Q: Why braille?\n\
    A: Each braille cell packs 2x4 dots, so the whole city fits in plain text\n\
    \x20  at high resolution. The dots are Unicode Braille Patterns\n\
    \x20  (U+2800..U+28FF).\n\n\
    Q: The map is just empty boxes or question marks.\n\
    A: Your terminal font has no Braille Patterns glyphs, or you're not\n\
    \x20  viewing in UTF-8. See /help.txt.\n\n\
    Q: What's the difference between map.txt, map.ansi and atlas.ansi?\n\
    A: map.txt is pure train dots -- no colour, no overlay. map.ansi adds\n\
    \x20  colour and overlays the coastline, river, expressways and place\n\
    \x20  codes. atlas.ansi is the same geography drawn with text characters\n\
    \x20  instead of braille.\n\n\
    Q: I see codes like ESC[38;5;39m instead of colours.\n\
    A: Your client or terminal isn't interpreting ANSI colour. See /help.txt.\n\n\
    Q: What do WIL, NVP, MDW... mean?\n\
    A: Mnemonic place codes; the decode legend prints under the map and atlas.\n\n\
    Q: How fresh is the data, and why \"N of M reporting\"?\n\
    A: The fetcher republishes about every 30 seconds. The CTA feed sometimes\n\
    \x20  reports a train without a usable position; those count in M, not N.\n\n\
    Q: Where do the Dispatch / SITREP / Event panels come from?\n\
    A: The cta-track-grid Worker -- the same brain behind the web tracker at\n\
    \x20  https://tracker.debene.dev/. This gopher site is just another reader.\n\n\
    Q: Is this an official CTA service?\n\
    A: No. Not affiliated with the Chicago Transit Authority.\n\n\
    Q: Is there anything hidden here?\n\
    A: Gophers burrow. Keep digging.\n"@
}

/// FAQ page (`/faq.txt`). Answers the "why does it render like that" questions and
/// ends with a sly hint at the hidden `/dig.txt`.
pub fn faq_page() -> (r: String)
    ensures
        r@ == faq_text(),
{
    "gopher-cta : FAQ\n\
    ================\n\n\
    Q: Why braille?\n\
    A: Each braille cell packs 2x4 dots, so the whole city fits in plain text\n\
    \x20  at high resolution. The dots are Unicode Braille Patterns\n\
    \x20  (U+2800..U+28FF).\n\n\
    Q: The map is just empty boxes or question marks.\n\
    A: Your terminal font has no Braille Patterns glyphs, or you're not\n\
    \x20  viewing in UTF-8. See /help.txt.\n\n\
    Q: What's the difference between map.txt, map.ansi and atlas.ansi?\n\
    A: map.txt is pure train dots -- no colour, no overlay. map.ansi adds\n\
    \x20  colour and overlays the coastline, river, expressways and place\n\
    \x20  codes. atlas.ansi is the same geography drawn with text characters\n\
    \x20  instead of braille.\n\n\
    Q: I see codes like ESC[38;5;39m instead of colours.\n\
    A: Your client or terminal isn't interpreting ANSI colour. See /help.txt.\n\n\
    Q: What do WIL, NVP, MDW... mean?\n\
    A: Mnemonic place codes; the decode legend prints under the map and atlas.\n\n\
    Q: How fresh is the data, and why \"N of M reporting\"?\n\
    A: The fetcher republishes about every 30 seconds. The CTA feed sometimes\n\
    \x20  reports a train without a usable position; those count in M, not N.\n\n\
    Q: Where do the Dispatch / SITREP / Event panels come from?\n\
    A: The cta-track-grid Worker -- the same brain behind the web tracker at\n\
    \x20  https://tracker.debene.dev/. This gopher site is just another reader.\n\n\
    Q: Is this an official CTA service?\n\
    A: No. Not affiliated with the Chicago Transit Authority.\n\n\
    Q: Is there anything hidden here?\n\
    A: Gophers burrow. Keep digging.\n".to_owned()
}

/// The troubleshooting page of a service whose map has the given geometry.
#[verifier::opaque]
pub open spec fn help_text(geo: Geometry) -> Seq<char> {
    "gopher-cta : Troubleshooting\n\
    ============================\n\n\
    Map shows boxes, squares, or question marks\n\
    \x20 Use a UTF-8 terminal and a font that includes Braille Patterns\n\
    \x20 (U+2800..U+28FF). Known-good: DejaVu Sans Mono, Cascadia Code,\n\
    \x20 Menlo, JuliaMono, Iosevka.\n\n\
    Colour map prints ESC[...m escape codes instead of colour\n\
    \x20 Your gopher client isn't passing the text to an ANSI-capable\n\
    \x20 terminal. Try:\n\
    \x20   curl gopher://gopher.debene.dev:70/0/map.ansi | less -R\n\
    \x20 ...or a client that renders ANSI (e.g. Bombadillo) in a real\n\
    \x20 terminal.\n\n\
    Map wraps or looks sheared\n\
    \x20 The map is "@
        + text::dec(geo.wc as nat)
        + " columns wide -- give the terminal at least that\n\
    \x20 many columns and turn off line wrapping.\n\n\
    \"0 bytes\" or connection refused on port 70\n\
    \x20 Some networks filter the gopher port. Try another network, or\n\
    \x20 fetch a selector directly:\n\
    \x20   curl gopher://gopher.debene.dev:70/0/map.txt\n\n\
    Menu links point at the wrong host\n\
    \x20 Server-side quirk (geomyidae -h). Fetching selectors directly\n\
    \x20 still works.\n\n\
    Remember: selectors are files\n\
    \x20 Browse .../0/map.txt (type 0 = text) and .../1/ for menus.\n"@
}

/// Troubleshooting page (`/help.txt`). Actionable fixes for the common rendering
/// problems; the map width comes from the geometry.
pub fn help_page() -> (r: String)
    ensures
        r@ == help_text((Geometry { wc: 48, hc: 30, wp: 96, hp: 120 })),
{
    let geo = project::geometry();
    reveal(help_text);
    let mut out = "gopher-cta : Troubleshooting\n\
    ============================\n\n\
    Map shows boxes, squares, or question marks\n\
    \x20 Use a UTF-8 terminal and a font that includes Braille Patterns\n\
    \x20 (U+2800..U+28FF). Known-good: DejaVu Sans Mono, Cascadia Code,\n\
    \x20 Menlo, JuliaMono, Iosevka.\n\n\
    Colour map prints ESC[...m escape codes instead of colour\n\
    \x20 Your gopher client isn't passing the text to an ANSI-capable\n\
    \x20 terminal. Try:\n\
    \x20   curl gopher://gopher.debene.dev:70/0/map.ansi | less -R\n\
    \x20 ...or a client that renders ANSI (e.g. Bombadillo) in a real\n\
    \x20 terminal.\n\n\
    Map wraps or looks sheared\n\
    \x20 The map is ".to_owned();
    text::push_dec(&mut out, geo.wc as u128);
    out.append(" columns wide -- give the terminal at least that\n\
    \x20 many columns and turn off line wrapping.\n\n\
    \"0 bytes\" or connection refused on port 70\n\
    \x20 Some networks filter the gopher port. Try another network, or\n\
    \x20 fetch a selector directly:\n\
    \x20   curl gopher://gopher.debene.dev:70/0/map.txt\n\n\
    Menu links point at the wrong host\n\
    \x20 Server-side quirk (geomyidae -h). Fetching selectors directly\n\
    \x20 still works.\n\n\
    Remember: selectors are files\n\
    \x20 Browse .../0/map.txt (type 0 = text) and .../1/ for menus.\n");
    out
}

/// The text of the hidden page.
pub open spec fn dig_text() -> Seq<char> {
    "You found the burrow.\n\
    =====================\n\n\
    \x20     .--.\n\
    \x20    ( oo )   ding ding!\n\
    \x20   _/`--'\\_\n\
    \x20  (__/  \\__)   >> now approaching: gopherspace\n\n\
    Neighbours in the burrow\n\
    ------------------------\n\
    \x20 Floodgap   gopher://gopher.floodgap.com    (the gopher hub / Overbite)\n\
    \x20 SDF        gopher://sdf.org                 (public-access UNIX since 1987)\n\n\
    The CTA family\n\
    --------------\n\
    \x20 cta-track-grid   https://tracker.debene.dev/\n\
    \x20                  https://github.com/felipedbene/cta-track-grid\n\
    \x20                  (the web original; the Worker behind the AI panels --\n\
    \x20                   la mama de los pollitos)\n\
    \x20 cta-tui          the same data as a terminal UI\n\
    \x20 gopher-cta       you are here\n\n\
    \x20               -- dug by a gopher, for gophers --\n"@
}

/// Hidden page (`/dig.txt`). Written into the tree but linked from no menu:
/// reachable only by guessing the selector.
pub fn dig_page() -> (r: String)
    ensures
        r@ == dig_text(),
{
    "You found the burrow.\n\
    =====================\n\n\
    \x20     .--.\n\
    \x20    ( oo )   ding ding!\n\
    \x20   _/`--'\\_\n\
    \x20  (__/  \\__)   >> now approaching: gopherspace\n\n\
    Neighbours in the burrow\n\
    ------------------------\n\
    \x20 Floodgap   gopher://gopher.floodgap.com    (the gopher hub / Overbite)\n\
    \x20 SDF        gopher://sdf.org                 (public-access UNIX since 1987)\n\n\
    The CTA family\n\
    --------------\n\
    \x20 cta-track-grid   https://tracker.debene.dev/\n\
    \x20                  https://github.com/felipedbene/cta-track-grid\n\
    \x20                  (the web original; the Worker behind the AI panels --\n\
    \x20                   la mama de los pollitos)\n\
    \x20 cta-tui          the same data as a terminal UI\n\
    \x20 gopher-cta       you are here\n\n\
    \x20               -- dug by a gopher, for gophers --\n".to_owned()
}

} // verus!
