# gopher-cta

Live CTA 'L' train positions as a static gopher tree: a geographic map of Unicode
Braille, a char-cell atlas, per-line menus and per-train pages, written for a gopher
daemon (geomyidae) to serve.

The library under `src/` is verified with Verus. Every page and menu has a contract
that states its text; what holds of the library as a whole is stated and proved in the
functions named `law_...`.

| Module | What it holds |
| --- | --- |
| `text` | comparing, trimming, splitting, padding; decimal numbers |
| `project` | lat/lon to braille pixel, in binary fixed point |
| `grid`, `raster` | row-major cells; straight lines |
| `braille`, `chargrid` | the dot canvas; the layered character grid |
| `transit` | trains, the feed's shapes, the sources |
| `render`, `pages`, `page` | menus, train pages, fixed pages, shared page parts |
| `trainmap`, `atlas` | the two maps |
| `narration` | the narrative panels and their poller's rules |
| `gph`, `tree`, `fetch` | index files, the tree, flags and snapshots |
| `protocol`, `server` | the gopher wire format, selectors and their answers |

`app/` is the program around it: environment, HTTP, files and sockets. It turns JSON
into the library's types and floating-point degrees into its units.

Coordinates are degrees in units of 2^-47, which represents every double of the plotted
area exactly.
