//! What a train's page and its row in a listing say.

use crate::laws::reading;
use crate::project;
use crate::render;
use crate::server;
use crate::text;
use crate::transit::{PositionsView, TrainView};
use vstd::prelude::*;

verus! {

/// Whether no text of a train holds a line end.
pub open spec fn one_liner(t: TrainView) -> bool {
    &&& text::lacks(t.line, '\n')
    &&& text::lacks(t.run, '\n')
    &&& text::lacks(t.dest, '\n')
    &&& text::lacks(t.next_station, '\n')
    &&& t.arr_time matches Some(a) ==> text::lacks(a, '\n')
}

proof fn status_is_one_line(t: TrainView)
    requires
        one_liner(t),
    ensures
        text::lacks(render::page_status(t), '\n'),
        text::lacks(render::page_next(t), '\n'),
{
    broadcast use text::lacks_both;

    assert(text::lacks("DELAYED"@, '\n') && text::lacks("approaching "@, '\n') && text::lacks(
        "en route"@,
        '\n',
    ) && text::lacks("  (predicted "@, '\n') && text::lacks(")"@, '\n')) by {
        reveal(text::lacks);
        reveal_strlit("DELAYED");
        reveal_strlit("approaching ");
        reveal_strlit("en route");
        reveal_strlit("  (predicted ");
        reveal_strlit(")");
    }
}

/// The lines of a train's page, without what is said of recorded data.
spec fn page_lines(t: TrainView, heading: Seq<char>) -> Seq<Seq<char>> {
    seq![
        "Run "@ + t.run + " -- "@ + render::label_of(t.line) + " Line"@,
        text::filled('=', 40),
        Seq::<char>::empty(),
        "line:        "@ + render::label_of(t.line) + " ("@ + render::hex_of(t.line) + ")"@,
        "status:      "@ + render::page_status(t),
        "destination: "@ + t.dest,
        "position:    "@ + project::five_places(t.lat) + ", "@ + project::five_places(t.lon) + "   heading "@ + heading,
        "next stop:   "@ + render::page_next(t),
        Seq::<char>::empty(),
        "The CTA positions feed reports only the next stop, so the full"@,
        "upcoming-stop sequence isn't available here without a separate"@,
        "per-station query."@,
        Seq::<char>::empty(),
    ]
}

proof fn page_texts_are_one_line(t: TrainView)
    requires
        one_liner(t),
    ensures
        text::lacks(render::label_of(t.line), '\n'),
        text::lacks(render::hex_of(t.line), '\n'),
        text::lacks(project::five_places(t.lat), '\n'),
        text::lacks(project::five_places(t.lon), '\n'),
        text::lacks(render::page_status(t), '\n'),
        text::lacks(render::page_next(t), '\n'),
        text::lacks(text::filled('=', 40), '\n'),
{
    reading::labels_are_one_line(t.line);
    reading::degrees_are_one_line(t.lat);
    reading::degrees_are_one_line(t.lon);
    status_is_one_line(t);
    text::filled_lacks('=', 40, '\n');
}

proof fn page_part_1(x: Seq<char>, d: Seq<Seq<char>>, c: Seq<char>, t: TrainView, heading: Seq<char>)
    requires
        reading::lines(x) == d.push(c),
        one_liner(t),
        text::lacks(heading, '\n'),
    ensures
        reading::lines(x + "Run "@ + t.run + " -- "@ + render::label_of(t.line) + " Line\n"@ + text::filled('=', 40) + "\n\nline:        "@) == d.push(c + "Run "@ + t.run + " -- "@ + render::label_of(t.line) + " Line"@).push(text::filled('=', 40)).push(Seq::<char>::empty()).push("line:        "@),
{
    page_texts_are_one_line(t);
    let p0 = x;
    let d0 = d;
    assert(text::lacks("Run "@, '\n')) by {
        reveal(text::lacks);
        reveal_strlit("Run ");
    }
    let p1 = p0 + "Run "@;
    reading::more_of_a_line(p0, d0, c, "Run "@);
    let d1 = d0;
    let p2 = p1 + t.run;
    reading::more_of_a_line(p1, d1, c + "Run "@, t.run);
    let d2 = d1;
    assert(text::lacks(" -- "@, '\n')) by {
        reveal(text::lacks);
        reveal_strlit(" -- ");
    }
    let p3 = p2 + " -- "@;
    reading::more_of_a_line(p2, d2, c + "Run "@ + t.run, " -- "@);
    let d3 = d2;
    let p4 = p3 + render::label_of(t.line);
    reading::more_of_a_line(p3, d3, c + "Run "@ + t.run + " -- "@, render::label_of(t.line));
    let d4 = d3;
    assert(text::lacks(" Line"@, '\n')) by {
        reveal(text::lacks);
        reveal_strlit(" Line");
    }
    reading::empty_lacks('\n');
    assert(" Line\n"@ =~= " Line"@ + seq!['\n'] + Seq::<char>::empty()) by {
        reveal_strlit(" Line\n");
        reveal_strlit(" Line");
    }
    let p5 = p4 + " Line\n"@;
    reading::line_break(p4, d4, c + "Run "@ + t.run + " -- "@ + render::label_of(t.line), " Line\n"@, " Line"@, Seq::<char>::empty());
    let d5 = d4.push(c + "Run "@ + t.run + " -- "@ + render::label_of(t.line) + " Line"@);
    let p6 = p5 + text::filled('=', 40);
    reading::more_of_a_line(p5, d5, Seq::<char>::empty(), text::filled('=', 40));
    assert(Seq::<char>::empty() + text::filled('=', 40) =~= text::filled('=', 40));
    let d6 = d5;
    assert(text::lacks("line:        "@, '\n')) by {
        reveal(text::lacks);
        reveal_strlit("line:        ");
    }
    assert("\n\nline:        "@ =~= Seq::<char>::empty() + seq!['\n'] + Seq::<char>::empty() + seq!['\n'] + "line:        "@) by {
        reveal_strlit("\n\nline:        ");
        reveal_strlit("line:        ");
    }
    let p7 = p6 + "\n\nline:        "@;
    reading::two_line_breaks(p6, d6, text::filled('=', 40), "\n\nline:        "@, Seq::<char>::empty(), Seq::<char>::empty(), "line:        "@);
    assert(text::filled('=', 40) + Seq::<char>::empty() =~= text::filled('=', 40));
    let d7 = d6.push(text::filled('=', 40)).push(Seq::<char>::empty());
}

proof fn page_part_2(x: Seq<char>, d: Seq<Seq<char>>, c: Seq<char>, t: TrainView, heading: Seq<char>)
    requires
        reading::lines(x) == d.push(c),
        one_liner(t),
        text::lacks(heading, '\n'),
    ensures
        reading::lines(x + render::label_of(t.line) + " ("@ + render::hex_of(t.line) + ")\nstatus:      "@ + render::page_status(t) + "\ndestination: "@ + t.dest) == d.push(c + render::label_of(t.line) + " ("@ + render::hex_of(t.line) + ")"@).push("status:      "@ + render::page_status(t)).push("destination: "@ + t.dest),
{
    page_texts_are_one_line(t);
    let p0 = x;
    let d0 = d;
    let p1 = p0 + render::label_of(t.line);
    reading::more_of_a_line(p0, d0, c, render::label_of(t.line));
    let d1 = d0;
    assert(text::lacks(" ("@, '\n')) by {
        reveal(text::lacks);
        reveal_strlit(" (");
    }
    let p2 = p1 + " ("@;
    reading::more_of_a_line(p1, d1, c + render::label_of(t.line), " ("@);
    let d2 = d1;
    let p3 = p2 + render::hex_of(t.line);
    reading::more_of_a_line(p2, d2, c + render::label_of(t.line) + " ("@, render::hex_of(t.line));
    let d3 = d2;
    assert(text::lacks(")"@, '\n')) by {
        reveal(text::lacks);
        reveal_strlit(")");
    }
    assert(text::lacks("status:      "@, '\n')) by {
        reveal(text::lacks);
        reveal_strlit("status:      ");
    }
    assert(")\nstatus:      "@ =~= ")"@ + seq!['\n'] + "status:      "@) by {
        reveal_strlit(")\nstatus:      ");
        reveal_strlit(")");
        reveal_strlit("status:      ");
    }
    let p4 = p3 + ")\nstatus:      "@;
    reading::line_break(p3, d3, c + render::label_of(t.line) + " ("@ + render::hex_of(t.line), ")\nstatus:      "@, ")"@, "status:      "@);
    let d4 = d3.push(c + render::label_of(t.line) + " ("@ + render::hex_of(t.line) + ")"@);
    let p5 = p4 + render::page_status(t);
    reading::more_of_a_line(p4, d4, "status:      "@, render::page_status(t));
    let d5 = d4;
    reading::empty_lacks('\n');
    assert(text::lacks("destination: "@, '\n')) by {
        reveal(text::lacks);
        reveal_strlit("destination: ");
    }
    assert("\ndestination: "@ =~= Seq::<char>::empty() + seq!['\n'] + "destination: "@) by {
        reveal_strlit("\ndestination: ");
        reveal_strlit("destination: ");
    }
    let p6 = p5 + "\ndestination: "@;
    reading::line_break(p5, d5, "status:      "@ + render::page_status(t), "\ndestination: "@, Seq::<char>::empty(), "destination: "@);
    assert("status:      "@ + render::page_status(t) + Seq::<char>::empty() =~= "status:      "@ + render::page_status(t));
    let d6 = d5.push("status:      "@ + render::page_status(t));
    let p7 = p6 + t.dest;
    reading::more_of_a_line(p6, d6, "destination: "@, t.dest);
    let d7 = d6;
}

proof fn page_part_3(x: Seq<char>, d: Seq<Seq<char>>, c: Seq<char>, t: TrainView, heading: Seq<char>)
    requires
        reading::lines(x) == d.push(c),
        one_liner(t),
        text::lacks(heading, '\n'),
    ensures
        reading::lines(x + "\nposition:    "@ + project::five_places(t.lat) + ", "@ + project::five_places(t.lon) + "   heading "@ + heading + "\nnext stop:   "@) == d.push(c).push("position:    "@ + project::five_places(t.lat) + ", "@ + project::five_places(t.lon) + "   heading "@ + heading).push("next stop:   "@),
{
    page_texts_are_one_line(t);
    let p0 = x;
    let d0 = d;
    reading::empty_lacks('\n');
    assert(text::lacks("position:    "@, '\n')) by {
        reveal(text::lacks);
        reveal_strlit("position:    ");
    }
    assert("\nposition:    "@ =~= Seq::<char>::empty() + seq!['\n'] + "position:    "@) by {
        reveal_strlit("\nposition:    ");
        reveal_strlit("position:    ");
    }
    let p1 = p0 + "\nposition:    "@;
    reading::line_break(p0, d0, c, "\nposition:    "@, Seq::<char>::empty(), "position:    "@);
    assert(c + Seq::<char>::empty() =~= c);
    let d1 = d0.push(c);
    let p2 = p1 + project::five_places(t.lat);
    reading::more_of_a_line(p1, d1, "position:    "@, project::five_places(t.lat));
    let d2 = d1;
    assert(text::lacks(", "@, '\n')) by {
        reveal(text::lacks);
        reveal_strlit(", ");
    }
    let p3 = p2 + ", "@;
    reading::more_of_a_line(p2, d2, "position:    "@ + project::five_places(t.lat), ", "@);
    let d3 = d2;
    let p4 = p3 + project::five_places(t.lon);
    reading::more_of_a_line(p3, d3, "position:    "@ + project::five_places(t.lat) + ", "@, project::five_places(t.lon));
    let d4 = d3;
    assert(text::lacks("   heading "@, '\n')) by {
        reveal(text::lacks);
        reveal_strlit("   heading ");
    }
    let p5 = p4 + "   heading "@;
    reading::more_of_a_line(p4, d4, "position:    "@ + project::five_places(t.lat) + ", "@ + project::five_places(t.lon), "   heading "@);
    let d5 = d4;
    let p6 = p5 + heading;
    reading::more_of_a_line(p5, d5, "position:    "@ + project::five_places(t.lat) + ", "@ + project::five_places(t.lon) + "   heading "@, heading);
    let d6 = d5;
    assert(text::lacks("next stop:   "@, '\n')) by {
        reveal(text::lacks);
        reveal_strlit("next stop:   ");
    }
    assert("\nnext stop:   "@ =~= Seq::<char>::empty() + seq!['\n'] + "next stop:   "@) by {
        reveal_strlit("\nnext stop:   ");
        reveal_strlit("next stop:   ");
    }
    let p7 = p6 + "\nnext stop:   "@;
    reading::line_break(p6, d6, "position:    "@ + project::five_places(t.lat) + ", "@ + project::five_places(t.lon) + "   heading "@ + heading, "\nnext stop:   "@, Seq::<char>::empty(), "next stop:   "@);
    assert("position:    "@ + project::five_places(t.lat) + ", "@ + project::five_places(t.lon) + "   heading "@ + heading + Seq::<char>::empty() =~= "position:    "@ + project::five_places(t.lat) + ", "@ + project::five_places(t.lon) + "   heading "@ + heading);
    let d7 = d6.push("position:    "@ + project::five_places(t.lat) + ", "@ + project::five_places(t.lon) + "   heading "@ + heading);
}

proof fn page_part_4(x: Seq<char>, d: Seq<Seq<char>>, c: Seq<char>, t: TrainView, heading: Seq<char>)
    requires
        reading::lines(x) == d.push(c),
        one_liner(t),
        text::lacks(heading, '\n'),
    ensures
        reading::lines(x + render::page_next(t) + "\n\nThe CTA positions feed reports only the next stop, so the full\n"@ + "upcoming-stop sequence isn't available here without a separate\n"@ + "per-station query.\n"@) == d.push(c + render::page_next(t)).push(Seq::<char>::empty()).push("The CTA positions feed reports only the next stop, so the full"@).push("upcoming-stop sequence isn't available here without a separate"@).push("per-station query."@).push(Seq::<char>::empty()),
{
    page_texts_are_one_line(t);
    let p0 = x;
    let d0 = d;
    let p1 = p0 + render::page_next(t);
    reading::more_of_a_line(p0, d0, c, render::page_next(t));
    let d1 = d0;
    reading::empty_lacks('\n');
    assert(text::lacks("The CTA positions feed reports only the next stop, so the full"@, '\n')) by {
        reveal(text::lacks);
        reveal_strlit("The CTA positions feed reports only the next stop, so the full");
    }
    assert("\n\nThe CTA positions feed reports only the next stop, so the full\n"@ =~= Seq::<char>::empty() + seq!['\n'] + Seq::<char>::empty() + seq!['\n'] + "The CTA positions feed reports only the next stop, so the full"@ + seq!['\n'] + Seq::<char>::empty()) by {
        reveal_strlit("\n\nThe CTA positions feed reports only the next stop, so the full\n");
        reveal_strlit("The CTA positions feed reports only the next stop, so the full");
    }
    let p2 = p1 + "\n\nThe CTA positions feed reports only the next stop, so the full\n"@;
    reading::three_line_breaks(p1, d1, c + render::page_next(t), "\n\nThe CTA positions feed reports only the next stop, so the full\n"@, Seq::<char>::empty(), Seq::<char>::empty(), "The CTA positions feed reports only the next stop, so the full"@, Seq::<char>::empty());
    assert(c + render::page_next(t) + Seq::<char>::empty() =~= c + render::page_next(t));
    let d2 = d1.push(c + render::page_next(t)).push(Seq::<char>::empty()).push("The CTA positions feed reports only the next stop, so the full"@);
    assert(text::lacks("upcoming-stop sequence isn't available here without a separate"@, '\n')) by {
        reveal(text::lacks);
        reveal_strlit("upcoming-stop sequence isn't available here without a separate");
    }
    assert("upcoming-stop sequence isn't available here without a separate\n"@ =~= "upcoming-stop sequence isn't available here without a separate"@ + seq!['\n'] + Seq::<char>::empty()) by {
        reveal_strlit("upcoming-stop sequence isn't available here without a separate\n");
        reveal_strlit("upcoming-stop sequence isn't available here without a separate");
    }
    let p3 = p2 + "upcoming-stop sequence isn't available here without a separate\n"@;
    reading::line_break(p2, d2, Seq::<char>::empty(), "upcoming-stop sequence isn't available here without a separate\n"@, "upcoming-stop sequence isn't available here without a separate"@, Seq::<char>::empty());
    assert(Seq::<char>::empty() + "upcoming-stop sequence isn't available here without a separate"@ =~= "upcoming-stop sequence isn't available here without a separate"@);
    let d3 = d2.push("upcoming-stop sequence isn't available here without a separate"@);
    assert(text::lacks("per-station query."@, '\n')) by {
        reveal(text::lacks);
        reveal_strlit("per-station query.");
    }
    assert("per-station query.\n"@ =~= "per-station query."@ + seq!['\n'] + Seq::<char>::empty()) by {
        reveal_strlit("per-station query.\n");
        reveal_strlit("per-station query.");
    }
    let p4 = p3 + "per-station query.\n"@;
    reading::line_break(p3, d3, Seq::<char>::empty(), "per-station query.\n"@, "per-station query."@, Seq::<char>::empty());
    assert(Seq::<char>::empty() + "per-station query."@ =~= "per-station query."@);
    let d4 = d3.push("per-station query."@);
}

proof fn bare_page_falls_into_lines(t: TrainView, heading: Seq<char>)
    requires
        one_liner(t),
        text::lacks(heading, '\n'),
    ensures
        reading::lines(render::train_text(t, heading, false)) == page_lines(t, heading),
{
    reading::empty_lacks('\n');
    reading::start_of_lines(Seq::<char>::empty());
    let x0 = Seq::<char>::empty();
    let d0 = Seq::<Seq<char>>::empty();
    page_part_1(x0, d0, Seq::<char>::empty(), t, heading);
    assert(Seq::<char>::empty() + "Run "@ =~= "Run "@);
    assert(Seq::<char>::empty() + "Run "@ =~= "Run "@);
    let x1 = "Run "@ + t.run + " -- "@ + render::label_of(t.line) + " Line\n"@ + text::filled('=', 40) + "\n\nline:        "@;
    let d1 = d0.push("Run "@ + t.run + " -- "@ + render::label_of(t.line) + " Line"@).push(text::filled('=', 40)).push(Seq::<char>::empty());
    page_part_2(x1, d1, "line:        "@, t, heading);
    let x2 = x1 + render::label_of(t.line) + " ("@ + render::hex_of(t.line) + ")\nstatus:      "@ + render::page_status(t) + "\ndestination: "@ + t.dest;
    let d2 = d1.push("line:        "@ + render::label_of(t.line) + " ("@ + render::hex_of(t.line) + ")"@).push("status:      "@ + render::page_status(t));
    page_part_3(x2, d2, "destination: "@ + t.dest, t, heading);
    let x3 = x2 + "\nposition:    "@ + project::five_places(t.lat) + ", "@ + project::five_places(t.lon) + "   heading "@ + heading + "\nnext stop:   "@;
    let d3 = d2.push("destination: "@ + t.dest).push("position:    "@ + project::five_places(t.lat) + ", "@ + project::five_places(t.lon) + "   heading "@ + heading);
    page_part_4(x3, d3, "next stop:   "@, t, heading);
    let x4 = x3 + render::page_next(t) + "\n\nThe CTA positions feed reports only the next stop, so the full\n"@ + "upcoming-stop sequence isn't available here without a separate\n"@ + "per-station query.\n"@;
    let d4 = d3.push("next stop:   "@ + render::page_next(t)).push(Seq::<char>::empty()).push("The CTA positions feed reports only the next stop, so the full"@).push("upcoming-stop sequence isn't available here without a separate"@).push("per-station query."@);
    assert(d4.push(Seq::<char>::empty()) =~= page_lines(t, heading));
    assert(x4 == render::train_text(t, heading, false));
}

proof fn page_falls_into_lines(t: TrainView, heading: Seq<char>, from_fixture: bool)
    requires
        one_liner(t),
        text::lacks(heading, '\n'),
    ensures
        reading::lines(render::train_text(t, heading, from_fixture)) == (if from_fixture {
            page_lines(t, heading) + seq![
                "(offline demo data from bundled fixture)"@,
                Seq::<char>::empty(),
            ]
        } else {
            page_lines(t, heading)
        }),
{
    let page = render::train_text(t, heading, false);
    bare_page_falls_into_lines(t, heading);
    if from_fixture {
        let note = "\n(offline demo data from bundled fixture)\n"@;
        let inner = "(offline demo data from bundled fixture)"@;
        reveal_strlit("\n(offline demo data from bundled fixture)\n");
        reveal_strlit("(offline demo data from bundled fixture)");
        assert(note =~= seq!['\n'] + inner + seq!['\n']);
        assert(text::lacks(inner, '\n')) by {
            reveal(text::lacks);
        }
        let whole = page + note;
        assert(whole =~= page + seq!['\n'] + inner + seq!['\n'] + Seq::<char>::empty());
        let d = page_lines(t, heading).drop_last();
        let c = page_lines(t, heading).last();
        assert(d.push(c) =~= page_lines(t, heading));
        reading::next_line(page, d, c, inner);
        reading::empty_lacks('\n');
        reading::next_line(
            page + seq!['\n'] + inner,
            page_lines(t, heading),
            inner,
            Seq::<char>::empty(),
        );
        assert(reading::lines(whole) =~= page_lines(t, heading) + seq![
            inner,
            Seq::<char>::empty(),
        ]);
    }
}

/// A train's page says what is known of the train, a line for each thing: its run and
/// line, its destination, where it is, north before east, and the next stop with the
/// predicted time. It is marked where the data is recorded. This holds where no text
/// of the train holds a line end.
pub proof fn law_page_says_what_is_known(t: TrainView, heading: Seq<char>, from_fixture: bool)
    requires
        one_liner(t),
        text::lacks(heading, '\n'),
    ensures
        ({
            let l = reading::lines(render::train_text(t, heading, from_fixture));
            let label = render::label_of(t.line);
            &&& l[0] == "Run "@ + t.run + " -- "@ + label + " Line"@
            &&& l[3] == "line:        "@ + label + " ("@ + render::hex_of(t.line) + ")"@
            &&& l[5] == "destination: "@ + t.dest
            &&& l[6] == "position:    "@ + project::five_places(t.lat) + ", "@
                + project::five_places(t.lon) + "   heading "@ + heading
            &&& t.arr_time is None ==> l[7] == "next stop:   "@ + t.next_station
            &&& t.arr_time matches Some(a) ==> l[7] == "next stop:   "@ + t.next_station
                + "  (predicted "@ + a + ")"@
            &&& from_fixture <==> l.contains("(offline demo data from bundled fixture)"@)
        }),
{
    page_falls_into_lines(t, heading, from_fixture);
    let l = reading::lines(render::train_text(t, heading, from_fixture));
    let note = "(offline demo data from bundled fixture)"@;
    if t.arr_time is Some {
        let a = t.arr_time->0;
        assert("next stop:   "@ + (t.next_station + "  (predicted "@ + a + ")"@)
            =~= "next stop:   "@ + t.next_station + "  (predicted "@ + a + ")"@);
    }
    if from_fixture {
        assert(l[l.len() - 2] == note);
    } else {
        reveal_strlit("(offline demo data from bundled fixture)");
        reveal_strlit("Run ");
        reveal_strlit("line:        ");
        reveal_strlit("status:      ");
        reveal_strlit("destination: ");
        reveal_strlit("position:    ");
        reveal_strlit("next stop:   ");
        reveal_strlit("The CTA positions feed reports only the next stop, so the full");
        reveal_strlit("upcoming-stop sequence isn't available here without a separate");
        reveal_strlit("per-station query.");
        assert(note[0] == '(');
        assert forall|i: int| 0 <= i < l.len() implies l[i] != note by {
            assert(l[0][0] == 'R' && l[1][0] == '=' && l[3][0] == 'l' && l[4][0] == 's' && l[5][0]
                == 'd' && l[6][0] == 'p' && l[7][0] == 'n' && l[9][0] == 'T' && l[10][0] == 'u'
                && l[11][0] == 'p');
            assert(l[2].len() == 0 && l[8].len() == 0 && l[12].len() == 0);
        }
    }
}

/// The status line of a train's page reads DELAYED exactly where the train is flagged
/// as delayed. Of the others it names the station approached exactly where the train
/// is flagged as approaching, and says en route of the rest. This holds where no text
/// of the train holds a line end.
pub proof fn law_status_line_follows_the_flags(
    t: TrainView,
    heading: Seq<char>,
    from_fixture: bool,
)
    requires
        one_liner(t),
        text::lacks(heading, '\n'),
    ensures
        ({
            let l = reading::lines(render::train_text(t, heading, from_fixture));
            &&& l[4] == "status:      DELAYED"@ <==> t.delayed
            &&& !t.delayed ==> (l[4] == "status:      approaching "@ + t.next_station
                <==> t.approaching)
            &&& l[4] == "status:      en route"@ <==> !t.delayed && !t.approaching
            &&& l.contains("status:      DELAYED"@) <==> t.delayed
        }),
{
    page_falls_into_lines(t, heading, from_fixture);
    let l = reading::lines(render::train_text(t, heading, from_fixture));
    reveal_strlit("status:      ");
    reveal_strlit("status:      DELAYED");
    reveal_strlit("status:      en route");
    reveal_strlit("status:      approaching ");
    reveal_strlit("DELAYED");
    reveal_strlit("en route");
    reveal_strlit("approaching ");
    let late = "status:      DELAYED"@;
    let near = "status:      approaching "@ + t.next_station;
    let far = "status:      en route"@;
    assert("status:      "@ + "DELAYED"@ =~= late);
    assert("status:      "@ + "en route"@ =~= far);
    assert("status:      "@ + ("approaching "@ + t.next_station) =~= near);
    assert(late[13] == 'D' && near[13] == 'a' && far[13] == 'e');
    assert(l[4] == "status:      "@ + render::page_status(t));
    if t.delayed {
        assert(l[4] == late);
    } else {
        reveal_strlit("Run ");
        reveal_strlit("line:        ");
        reveal_strlit("destination: ");
        reveal_strlit("position:    ");
        reveal_strlit("next stop:   ");
        reveal_strlit("The CTA positions feed reports only the next stop, so the full");
        reveal_strlit("upcoming-stop sequence isn't available here without a separate");
        reveal_strlit("per-station query.");
        reveal_strlit("(offline demo data from bundled fixture)");
        assert(late[0] == 's');
        assert forall|i: int| 0 <= i < l.len() implies l[i] != late by {
            assert(l[0][0] == 'R' && l[1][0] == '=' && l[3][0] == 'l' && l[5][0] == 'd' && l[6][0]
                == 'p' && l[7][0] == 'n' && l[9][0] == 'T' && l[10][0] == 'u' && l[11][0] == 'p');
            assert(l[2].len() == 0 && l[8].len() == 0 && l[12].len() == 0);
            if from_fixture {
                assert(l[13][0] == '(' && l[14].len() == 0) by {
                    assert(l[13] == "(offline demo data from bundled fixture)"@);
                }
            }
        }
    }
}

/// The page asked for is that of the first train of the snapshot with the run number,
/// with its heading in degrees and by the compass, and a notice where no train has it.
pub proof fn law_page_is_of_the_first_train_with_the_run(pos: PositionsView, run: Seq<char>, k: int)
    requires
        0 <= k <= pos.trains.len(),
        forall|j: int| 0 <= j < k ==> (#[trigger] pos.trains[j]).run != run,
    ensures
        k == pos.trains.len() ==> render::train_page_text(pos, run) == render::gone_text(run)
            && server::train_detail(pos, run) == render::gone_text(run),
        k < pos.trains.len() && pos.trains[k].run == run ==> {
            let t = pos.trains[k];
            let page = render::train_page_text(pos, run);
            let detail = server::train_detail(pos, run);
            &&& t.heading is None ==> page == render::train_text(t, "unknown"@, pos.from_fixture)
            &&& t.heading is None ==> detail == render::train_text(t, "unknown"@, pos.from_fixture)
            &&& t.heading matches Some(h) ==> page == render::train_text(
                t,
                render::three_digits(h as nat) + " ("@ + render::compass_of(h) + ")"@,
                pos.from_fixture,
            )
            &&& t.heading matches Some(h) ==> detail == render::train_text(
                t,
                render::three_digits(h as nat),
                pos.from_fixture,
            )
        },
    decreases pos.trains.len(),
{
    first_is_found(pos.trains, run, k);
}

proof fn first_is_found(trains: Seq<TrainView>, run: Seq<char>, k: int)
    requires
        0 <= k <= trains.len(),
        forall|j: int| 0 <= j < k ==> (#[trigger] trains[j]).run != run,
    ensures
        k == trains.len() ==> render::first_with_run(trains, run) is None,
        k < trains.len() && trains[k].run == run ==> render::first_with_run(trains, run) == Some(
            trains[k],
        ),
    decreases k,
{
    if k > 0 {
        let rest = trains.drop_first();
        assert(trains[0].run != run);
        assert forall|j: int| 0 <= j < k - 1 implies (#[trigger] rest[j]).run != run by {
            assert(rest[j] == trains[j + 1]);
        }
        first_is_found(rest, run, k - 1);
    }
}

/// The notice for a run that is gone names the run and says that it is gone.
pub proof fn law_gone_notice_names_the_run(run: Seq<char>)
    requires
        text::lacks(run, '\n'),
    ensures
        reading::lines(render::gone_text(run))[0] == "Run "@ + run + " -- no longer reporting"@,
{
    reveal_strlit("Run ");
    reveal_strlit(" -- no longer reporting");
    reveal_strlit(" -- no longer reporting\n");
    let a = "Run "@ + run + " -- no longer reporting"@;
    let b = text::filled('=', 40)
        + "\n\nThis run is not in the current live feed. It may have finished\n"@
        + "its trip, gone out of service, or changed run number.\n\n"@
        + "Head back to the line listing to pick another train.\n"@;
    assert(" -- no longer reporting\n"@ =~= " -- no longer reporting"@ + seq!['\n']);
    assert(render::gone_text(run) =~= a + seq!['\n'] + b);
    assert(text::lacks(a, '\n')) by {
        reveal(text::lacks);
    }
    reading::first_line(a, b);
}

/// A train's row in a listing names its run and destination, then how it runs: DELAYED
/// stands there exactly where the train is flagged as delayed, approaching exactly
/// where it is flagged as approaching and not as delayed. The row ends with the next
/// station, where the feed reports one.
pub proof fn law_row_says_how_the_train_runs(t: TrainView)
    ensures
        ({
            let row = render::row_text(t);
            let head = "Run "@ + text::padded(t.run, 5) + " -> "@ + t.dest;
            let tail = row.skip(head.len() as int);
            let next = text::trimmed(t.next_station);
            let late = text::trim_start(tail).take(7) == "DELAYED"@;
            let near = text::trim_start(tail).take(11) == "approaching"@;
            &&& text::starts_with(row, head)
            &&& t.delayed <==> late && text::trim_start(tail).len() >= 7
            &&& t.approaching && !t.delayed <==> near && text::trim_start(tail).len() >= 11
            &&& next.len() > 0 ==> row.len() >= next.len() && row.skip(row.len() - next.len())
                == next
            &&& next.len() == 0 && !t.delayed && !t.approaching ==> tail.len() == 0
        }),
{
    reveal_strlit("DELAYED");
    reveal_strlit("DELAYED, next ");
    reveal_strlit("approaching");
    reveal_strlit("approaching ");
    reveal_strlit("next ");
    reveal_strlit("");
    reveal_strlit(" ");
    let row = render::row_text(t);
    let head = "Run "@ + text::padded(t.run, 5) + " -> "@ + t.dest;
    let tail = row.skip(head.len() as int);
    let next = text::trimmed(t.next_station);
    let status = render::row_status(t);
    assert(head.take(head.len() as int) =~= head);
    if status.len() == 0 {
        assert(row == head);
        assert(tail =~= Seq::<char>::empty());
        assert(row.take(head.len() as int) =~= head);
    } else {
        let n = if t.dest.len() < 14 {
            (14 - t.dest.len()) as nat
        } else {
            0
        };
        let gap = text::filled(' ', n + 1);
        assert(row =~= head + gap + status);
        assert(row.take(head.len() as int) =~= head);
        assert(tail =~= gap + status);
        assert(!text::is_space(status[0])) by {
            assert(status[0] == 'D' || status[0] == 'a' || status[0] == 'n');
        }
        blanks_are_trimmed(n + 1, status);
        assert(text::trim_start(tail) == status);
        if t.delayed {
            assert(status.take(7) =~= "DELAYED"@);
            assert(status[0] == 'D');
            if status.len() >= 11 {
                assert(status.take(11)[0] == 'D' && "approaching"@[0] == 'a');
            }
        } else if t.approaching {
            assert(status.take(11) =~= "approaching"@);
            assert(status.take(7)[0] == 'a' && "DELAYED"@[0] == 'D');
        } else {
            assert(status[0] == 'n');
            if status.len() >= 7 {
                assert(status.take(7)[0] == 'n' && "DELAYED"@[0] == 'D');
            }
            if status.len() >= 11 {
                assert(status.take(11)[0] == 'n' && "approaching"@[0] == 'a');
            }
        }
        if next.len() > 0 {
            assert(status.skip(status.len() - next.len()) =~= next);
            assert(row.skip(row.len() - next.len()) =~= status.skip(status.len() - next.len()));
        }
    }
}

proof fn blanks_are_trimmed(n: nat, s: Seq<char>)
    requires
        s.len() > 0,
        !text::is_space(s[0]),
    ensures
        text::trim_start(text::filled(' ', n) + s) == s,
    decreases n,
{
    let x = text::filled(' ', n) + s;
    if n == 0 {
        assert(x =~= s);
    } else {
        assert(x[0] == ' ');
        assert(text::is_space(' '));
        assert(x.drop_first() =~= text::filled(' ', (n - 1) as nat) + s);
        blanks_are_trimmed((n - 1) as nat, s);
    }
}

/// A train's item in a line's menu of the server names its run and destination, and
/// carries a mark exactly where the train is flagged: for approaching, for delayed,
/// or for both.
pub proof fn law_item_carries_the_flags(t: TrainView, host: Seq<char>, port: u16)
    ensures
        ({
            let m = server::train_item(t, host, port);
            let head = "Run "@ + text::padded(t.run, 5) + " -> "@ + t.dest;
            &&& m.selector == "/train/"@ + t.run
            &&& m.host == host
            &&& m.port == port
            &&& text::starts_with(m.display, head)
            &&& t.delayed <==> text::holds(m.display.skip(head.len() as int), "DELAYED"@)
            &&& t.approaching <==> text::holds(m.display.skip(head.len() as int), "approaching"@)
            &&& !t.delayed && !t.approaching ==> m.display == head
        }),
{
    reveal_strlit("");
    reveal_strlit("DELAYED");
    reveal_strlit("approaching");
    reveal_strlit("  [approaching, DELAYED]");
    reveal_strlit("  [approaching]");
    reveal_strlit("  [DELAYED]");
    let m = server::train_item(t, host, port);
    let head = "Run "@ + text::padded(t.run, 5) + " -> "@ + t.dest;
    let flags = server::flags_text(t);
    assert(m.display =~= head + flags);
    assert(m.display.take(head.len() as int) =~= head);
    assert(m.display.skip(head.len() as int) =~= flags);
    if t.approaching && t.delayed {
        assert(flags.subrange(3, 14) =~= "approaching"@);
        assert(flags.subrange(16, 23) =~= "DELAYED"@);
        assert(text::holds_at(flags, "approaching"@, 3));
        assert(text::holds_at(flags, "DELAYED"@, 16));
    } else if t.approaching {
        assert(flags.subrange(3, 14) =~= "approaching"@);
        assert(text::holds_at(flags, "approaching"@, 3));
        assert forall|i: int| !text::holds_at(flags, "DELAYED"@, i) by {
            if text::holds_at(flags, "DELAYED"@, i) {
                assert(flags.subrange(i, i + 7)[0] == 'D');
                assert(flags[i] == 'D');
            }
        }
    } else if t.delayed {
        assert(flags.subrange(3, 10) =~= "DELAYED"@);
        assert(text::holds_at(flags, "DELAYED"@, 3));
        assert forall|i: int| !text::holds_at(flags, "approaching"@, i) by {
            if text::holds_at(flags, "approaching"@, i) {
                assert(flags.subrange(i, i + 11)[0] == 'a');
                assert(flags[i] == 'a');
            }
        }
    } else {
        assert(m.display =~= head);
    }
}

/// Behind the destination, from the same column on in every row where it leaves room, a
/// row says how the train runs and which station is next.
pub proof fn law_row_tells_the_next_station(t: TrainView)
    ensures
        ({
            let row = render::row_text(t);
            let head = "Run "@ + text::padded(t.run, 5) + " -> "@ + t.dest;
            let tail = row.skip(head.len() as int);
            let said = text::trim_start(tail);
            let next = text::trimmed(t.next_station);
            let bare = next.len() == 0;
            let gap = tail.len() - said.len();
            &&& t.delayed && bare ==> said == "DELAYED"@
            &&& t.delayed && !bare ==> said == "DELAYED, next "@ + next
            &&& !t.delayed && t.approaching && bare ==> said == "approaching"@
            &&& !t.delayed && t.approaching && !bare ==> said == "approaching "@ + next
            &&& !t.delayed && !t.approaching && bare ==> row == head
            &&& !t.delayed && !t.approaching && !bare ==> said == "next "@ + next
            &&& said.len() > 0 ==> gap == (if t.dest.len() < 14 {
                15 - t.dest.len()
            } else {
                1
            })
        }),
{
    reveal_strlit("DELAYED");
    reveal_strlit("DELAYED, next ");
    reveal_strlit("approaching");
    reveal_strlit("approaching ");
    reveal_strlit("next ");
    reveal_strlit("");
    reveal_strlit(" ");
    let row = render::row_text(t);
    let head = "Run "@ + text::padded(t.run, 5) + " -> "@ + t.dest;
    let tail = row.skip(head.len() as int);
    let status = render::row_status(t);
    if status.len() == 0 {
        assert(row == head);
        assert(tail =~= Seq::<char>::empty());
        assert(text::trim_start(tail) =~= tail);
    } else {
        let n = if t.dest.len() < 14 {
            (14 - t.dest.len()) as nat
        } else {
            0
        };
        let gap = text::filled(' ', n + 1);
        assert(row =~= head + gap + status);
        assert(tail =~= gap + status);
        assert(!text::is_space(status[0])) by {
            assert(status[0] == 'D' || status[0] == 'a' || status[0] == 'n');
        }
        blanks_are_trimmed(n + 1, status);
    }
}

} // verus!
