//! What the window shows beside the inventory: the console, and the counters that the
//! capture thread sends through it.
use crate::live;
use crate::live::{Status, StatusView};
use crate::text;
use vstd::prelude::*;

verus! {

/// How many lines the console keeps.
pub const CONSOLE_LINES: usize = 400;

/// A region's name, or a dash.
pub open spec fn region_field(region: Option<Seq<char>>) -> Seq<char> {
    match region {
        Some(name) => name,
        None => "-"@,
    }
}

/// The counters of a session, with bars between them.
pub open spec fn status_fields(s: StatusView) -> Seq<char> {
    text::decimal(s.packets as nat) + "|"@ + text::decimal(s.snapshots as nat) + "|"@
        + text::decimal(s.discs as nat) + "|"@ + text::decimal(s.engines as nat) + "|"@
        + text::decimal(s.agents as nat) + "|"@ + region_field(s.region)
}

/// The line that carries the counters of a session.
pub open spec fn status_text(s: StatusView) -> Seq<char> {
    "status|"@ + status_fields(s)
}

pub fn status_line(status: &Status) -> (r: String)
    ensures
        r@ == status_text(status@),
{
    let mut fields: String = String::new();
    text::push_decimal(&mut fields, status.packets);
    assert(fields@ =~= text::decimal(status.packets as nat));
    fields.push_str("|");
    text::push_decimal(&mut fields, status.snapshots);
    fields.push_str("|");
    text::push_decimal(&mut fields, status.discs as u64);
    fields.push_str("|");
    text::push_decimal(&mut fields, status.engines as u64);
    fields.push_str("|");
    text::push_decimal(&mut fields, status.agents as u64);
    fields.push_str("|");
    match &status.region {
        Some(region) => {
            fields.push_str(region.as_str());
        },
        None => {
            fields.push_str("-");
        },
    }
    let mut out: String = "status|".to_owned();
    out.push_str(fields.as_str());
    out
}

/// The number at a position; zero where there is none.
pub open spec fn number_at(parts: Seq<Seq<char>>, i: int) -> u64 {
    if i < parts.len() {
        match text::parsed_decimal(parts[i], u64::MAX) {
            Some(n) => n,
            None => 0,
        }
    } else {
        0
    }
}

/// The counters in some fields.
pub open spec fn parsed_status(fields: Seq<char>) -> StatusView {
    let parts = text::split(fields, '|');
    StatusView {
        packets: number_at(parts, 0),
        snapshots: number_at(parts, 1),
        discs: number_at(parts, 2) as usize,
        engines: number_at(parts, 3) as usize,
        agents: number_at(parts, 4) as usize,
        region: if parts.len() > 5 && parts[5] != "-"@ {
            Some(parts[5])
        } else {
            None
        },
    }
}

fn read_number(parts: &Vec<Vec<char>>, i: usize) -> (r: u64)
    ensures
        r == number_at(text::char_lists(parts@), i as int),
{
    if i >= parts.len() {
        return 0;
    }
    assert(text::char_lists(parts@)[i as int] == parts@[i as int]@);
    match text::parse_decimal(parts[i].as_slice(), u64::MAX) {
        Some(n) => n,
        None => 0,
    }
}

/// Reads the counters of a session.
pub fn parse_status(fields: &str) -> (r: Status)
    ensures
        r@ == parsed_status(fields@),
{
    let parts: Vec<Vec<char>> = text::split_chars(fields, '|');
    let region: Option<String> = if parts.len() > 5 {
        assert(text::char_lists(parts@)[5] == parts@[5]@);
        let name: String = text::string_of(parts[5].as_slice());
        if text::same(name.as_str(), "-") {
            None
        } else {
            Some(name)
        }
    } else {
        None
    };
    Status {
        packets: read_number(&parts, 0),
        snapshots: read_number(&parts, 1),
        discs: read_number(&parts, 2) as usize,
        engines: read_number(&parts, 3) as usize,
        agents: read_number(&parts, 4) as usize,
        region,
    }
}

/// A region's name can be sent: it holds no bar, and is not the dash.
pub open spec fn sendable(region: Option<Seq<char>>) -> bool {
    match region {
        Some(name) => !name.contains('|') && name != "-"@,
        None => true,
    }
}

proof fn lemma_number_field(n: u64, rest: Seq<char>)
    ensures
        text::split(text::decimal(n as nat).push('|') + rest, '|') == seq![text::decimal(n as nat)]
            + text::split(rest, '|'),
        text::parsed_decimal(text::decimal(n as nat), u64::MAX) == Some(n),
{
    text::lemma_decimal_lacks(n as nat, '|');
    text::lemma_split_plain(text::decimal(n as nat), '|');
    text::lemma_split_at_separator(text::decimal(n as nat), rest, '|');
    text::lemma_parse_decimal_round_trip(n, u64::MAX);
}

proof fn lemma_regrouped(
    a: Seq<char>,
    b: Seq<char>,
    c: Seq<char>,
    d: Seq<char>,
    e: Seq<char>,
    f: Seq<char>,
    bar: Seq<char>,
)
    requires
        bar == seq!['|'],
    ensures
        a + bar + b + bar + c + bar + d + bar + e + bar + f == a.push('|') + (b.push('|') + (c.push(
            '|',
        ) + (d.push('|') + (e.push('|') + f)))),
{
    let ef = e.push('|') + f;
    let def = d.push('|') + ef;
    let cdef = c.push('|') + def;
    let bcdef = b.push('|') + cdef;
    let ab = a + bar + b;
    let abc = ab + bar + c;
    let abcd = abc + bar + d;
    assert(abcd + bar + e + bar + f =~= abcd + bar + ef);
    assert(abcd + bar + ef =~= abc + bar + def);
    assert(abc + bar + def =~= ab + bar + cdef);
    assert(ab + bar + cdef =~= a + bar + bcdef);
    assert(a + bar + bcdef =~= a.push('|') + bcdef);
}

/// Counters that were sent are read back.
pub proof fn law_counters_are_read_back(s: StatusView)
    requires
        sendable(s.region),
    ensures
        parsed_status(status_fields(s)) == s,
{
    reveal_strlit("|");
    reveal_strlit("-");
    assert("|"@ =~= seq!['|']);
    let dash = "-"@;
    let a = text::decimal(s.packets as nat);
    let b = text::decimal(s.snapshots as nat);
    let c = text::decimal(s.discs as nat);
    let d = text::decimal(s.engines as nat);
    let e = text::decimal(s.agents as nat);
    let f = region_field(s.region);
    assert(!f.contains('|')) by {
        if f == dash && f.contains('|') {
            let i = choose|i: int| 0 <= i < f.len() && f[i] == '|';
            assert(dash[i] == '-');
        }
    }
    text::lemma_split_plain(f, '|');
    let ef = e.push('|') + f;
    let def = d.push('|') + ef;
    let cdef = c.push('|') + def;
    let bcdef = b.push('|') + cdef;
    lemma_number_field(s.agents as u64, f);
    lemma_number_field(s.engines as u64, ef);
    lemma_number_field(s.discs as u64, def);
    lemma_number_field(s.snapshots, cdef);
    lemma_number_field(s.packets, bcdef);
    lemma_regrouped(a, b, c, d, e, f, "|"@);
    let parts = text::split(status_fields(s), '|');
    assert(parts == seq![a] + (seq![b] + (seq![c] + (seq![d] + (seq![e] + seq![f])))));
    assert(parts[0] == a && parts[1] == b && parts[2] == c && parts[3] == d && parts[4] == e
        && parts[5] == f);
}

/// The latest lines, as many as are kept.
pub open spec fn kept_lines(lines: Seq<Seq<char>>) -> Seq<Seq<char>> {
    if lines.len() > CONSOLE_LINES {
        lines.skip(lines.len() - CONSOLE_LINES)
    } else {
        lines
    }
}

/// What the window knows of a running capture.
#[derive(Debug)]
pub struct Console {
    pub lines: Vec<String>,
    pub status: Status,
}

/// What a [`Console`] holds.
pub struct ConsoleView {
    pub lines: Seq<Seq<char>>,
    pub status: StatusView,
}

impl View for Console {
    type V = ConsoleView;

    open spec fn view(&self) -> ConsoleView {
        ConsoleView { lines: text::texts(self.lines@), status: self.status@ }
    }
}

/// A line arrives: one with counters replaces the counters, another is shown.
pub open spec fn arrived(c: ConsoleView, line: Seq<char>) -> ConsoleView {
    if text::begins(line, "status|"@) {
        ConsoleView { status: parsed_status(line.skip("status|"@.len() as int)), ..c }
    } else {
        ConsoleView { lines: c.lines.push(line), ..c }
    }
}

/// Lines arrive in order.
pub open spec fn arrived_all(c: ConsoleView, lines: Seq<Seq<char>>) -> ConsoleView
    decreases lines.len(),
{
    if lines.len() == 0 {
        c
    } else {
        arrived(arrived_all(c, lines.drop_last()), lines.last())
    }
}

/// Lines arrive, and the oldest that there is no room for are dropped.
pub open spec fn drained(c: ConsoleView, lines: Seq<Seq<char>>) -> ConsoleView {
    let all = arrived_all(c, lines);
    ConsoleView { lines: kept_lines(all.lines), ..all }
}

impl Console {
    pub fn new() -> (r: Console)
        ensures
            r@ == (ConsoleView { lines: Seq::empty(), status: live::no_status() }),
    {
        let r = Console { lines: Vec::new(), status: Status::default() };
        assert(r@.lines =~= Seq::empty());
        r
    }

    fn take_line(&mut self, line: &String)
        ensures
            final(self)@ == arrived(old(self)@, line@),
    {
        let chars: Vec<char> = text::chars_of(line.as_str());
        let prefix: Vec<char> = text::chars_of("status|");
        assert(chars@.skip(0) =~= chars@);
        if text::begins_at(chars.as_slice(), 0, prefix.as_slice()) {
            let fields: String = text::string_between(chars.as_slice(), prefix.len(), chars.len());
            assert(fields@ =~= line@.skip(prefix@.len() as int));
            self.status = parse_status(fields.as_str());
        } else {
            let ghost before = self.lines@;
            self.lines.push(line.clone());
            assert(text::texts(self.lines@) =~= text::texts(before).push(line@));
        }
    }

    /// Takes in the lines that have arrived, and drops the oldest that there is no room for.
    pub fn drain(&mut self, lines: &Vec<String>)
        ensures
            final(self)@ == ({
                let all = arrived_all(old(self)@, text::texts(lines@));
                ConsoleView { lines: kept_lines(all.lines), ..all }
            }),
            final(self)@ == drained(old(self)@, text::texts(lines@)),
    {
        let ghost start = self@;
        let ghost all = text::texts(lines@);
        let mut i: usize = 0;
        assert(all.take(0) =~= Seq::empty());
        while i < lines.len()
            invariant
                i <= lines@.len(),
                all == text::texts(lines@),
                self@ == arrived_all(start, all.take(i as int)),
            decreases lines@.len() - i,
        {
            assert(all[i as int] == lines@[i as int]@);
            assert(all.take(i + 1).drop_last() =~= all.take(i as int));
            assert(all.take(i + 1).last() == all[i as int]);
            self.take_line(&lines[i]);
            i = i + 1;
        }
        assert(all.take(i as int) =~= all);
        if self.lines.len() > CONSOLE_LINES {
            let ghost before = self.lines@;
            let excess: usize = self.lines.len() - CONSOLE_LINES;
            let kept: Vec<String> = self.lines.split_off(excess);
            assert(text::texts(kept@) =~= text::texts(before).skip(excess as int));
            self.lines = kept;
        }
    }
}

/// The console never keeps more lines than it has room for.
pub proof fn law_the_console_is_bounded(lines: Seq<Seq<char>>)
    ensures
        kept_lines(lines).len() <= CONSOLE_LINES,
        lines.len() > 0 ==> kept_lines(lines).last() == lines.last(),
{
}

/// A line with counters sets the counters and shows nothing; any other line is shown, last, and
/// leaves the counters alone. Lines arrive in order.
pub proof fn law_lines_arrive_in_order(
    c: ConsoleView,
    s: StatusView,
    line: Seq<char>,
    first: Seq<Seq<char>>,
    then: Seq<Seq<char>>,
)
    requires
        sendable(s.region),
        !text::begins(line, "status|"@),
    ensures
        arrived(c, status_text(s)).status == s,
        arrived(c, status_text(s)).lines == c.lines,
        arrived(c, line).status == c.status,
        arrived(c, line).lines == c.lines.push(line),
        arrived_all(c, first + then) == arrived_all(arrived_all(c, first), then),
        arrived_all(c, seq![line]) == arrived(c, line),
    decreases then.len(),
{
    let mark = "status|"@;
    let told = status_text(s);
    assert(told.take(mark.len() as int) =~= mark);
    assert(told.skip(mark.len() as int) =~= status_fields(s));
    law_counters_are_read_back(s);
    reveal_with_fuel(arrived_all, 2);
    assert(seq![line].drop_last() =~= Seq::empty());
    if then.len() == 0 {
        assert(first + then =~= first);
    } else {
        law_lines_arrive_in_order(c, s, line, first, then.drop_last());
        assert((first + then).drop_last() =~= first + then.drop_last());
        assert((first + then).last() == then.last());
    }
}

/// The latest 400 lines are kept, in order.
pub proof fn law_the_latest_lines_are_kept(lines: Seq<Seq<char>>, k: int)
    requires
        0 <= k < lines.len(),
        k < 400,
    ensures
        ({
            let kept = kept_lines(lines);
            &&& k < kept.len()
            &&& kept[kept.len() - 1 - k] == lines[lines.len() - 1 - k]
            &&& kept.len() <= 400
        }),
{
}

/// After lines have arrived the latest of them is shown last, no more than 400 are, and the
/// counters are the latest that came.
pub proof fn law_the_latest_arrival_is_shown(
    c: ConsoleView,
    lines: Seq<Seq<char>>,
    line: Seq<char>,
    s: StatusView,
)
    requires
        !text::begins(line, "status|"@),
        sendable(s.region),
    ensures
        drained(c, lines.push(line)).lines.last() == line,
        drained(c, lines.push(line)).lines.len() <= 400,
        drained(c, lines.push(line)).status == drained(c, lines).status,
        drained(c, lines.push(status_text(s))).status == s,
        drained(c, lines.push(status_text(s))).lines == drained(c, lines).lines,
{
    law_lines_arrive_in_order(arrived_all(c, lines), s, line, Seq::empty(), Seq::empty());
    assert(lines.push(line).drop_last() =~= lines);
    assert(lines.push(status_text(s)).drop_last() =~= lines);
    law_the_console_is_bounded(arrived_all(c, lines.push(line)).lines);
}

} // verus!
