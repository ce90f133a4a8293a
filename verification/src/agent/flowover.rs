//! Reading flow-over progress out of the engine's output.
//!
//! The engine has no status API and writes no status file: the only evidence that
//! assimilation is happening, or has finished, is a handful of lines on its output.
//! The parser is permissive about everything except the words it keys on, and a
//! line that matches nothing is simply not an event.

use crate::strings;
use crate::text;
use vstd::prelude::*;

verus! {

/// What a line of engine output told us.
#[derive(Debug, Clone, PartialEq, Eq)]
pub enum Event {
    /// Flow-over began; the node is assimilating onto a local disk.
    Started { disk: String },
    /// Flow-over finished. `moved` extents are now local.
    Complete { moved: u64, failed: u64 },
    /// Migration gave up. The engine stops after repeated extent failures.
    Aborted,
    /// A single extent failed; not fatal on its own.
    ExtentFailed { detail: String },
}

#[verifier::ext_equal]
pub enum EventView {
    Started { disk: Seq<char> },
    Complete { moved: nat, failed: nat },
    Aborted,
    ExtentFailed { detail: Seq<char> },
}

impl View for Event {
    type V = EventView;

    open spec fn view(&self) -> EventView {
        match *self {
            Event::Started { disk } => EventView::Started { disk: disk@ },
            Event::Complete { moved, failed } => EventView::Complete {
                moved: moved as nat,
                failed: failed as nat,
            },
            Event::Aborted => EventView::Aborted,
            Event::ExtentFailed { detail } => EventView::ExtentFailed { detail: detail@ },
        }
    }
}

pub open spec fn opt_event(e: Option<Event>) -> Option<EventView> {
    match e {
        Some(e) => Some(e@),
        None => None,
    }
}

// ---------------------------------------------------------------------------
// Numbers in a line

/// How many digits `s` starts with.
pub open spec fn run(s: Seq<char>) -> nat
    decreases s.len(),
{
    if s.len() > 0 && text::is_digit(s[0]) {
        1 + run(s.skip(1))
    } else {
        0
    }
}

/// The numbers in `s`, one for each run of digits. A run too long for a 64-bit
/// number is passed over.
pub open spec fn numbers(s: Seq<char>) -> Seq<nat>
    decreases s.len(),
{
    if s.len() == 0 {
        Seq::empty()
    } else if run(s) == 0 || run(s) > s.len() {
        numbers(s.skip(1))
    } else {
        let rest = numbers(s.skip(run(s) as int));
        match text::parse_dec(s.take(run(s) as int), u64::MAX as nat) {
            Some(n) => seq![n] + rest,
            None => rest,
        }
    }
}

pub open spec fn nats(v: Seq<u64>) -> Seq<nat> {
    v.map_values(|n: u64| n as nat)
}

/// The number at `i`, or 0 when there are not so many.
pub open spec fn number_at(v: Seq<nat>, i: int) -> nat {
    if i < v.len() {
        v[i]
    } else {
        0
    }
}

/// Where the run of digits at `from` ends.
fn run_from(chars: &Vec<char>, from: usize) -> (k: usize)
    requires
        from <= chars@.len(),
    ensures
        from <= k <= chars@.len(),
        k - from == run(chars@.skip(from as int)),
{
    let mut k: usize = from;
    while k < chars.len() && strings::is_digit(chars[k])
        invariant
            from <= k <= chars@.len(),
            run(chars@.skip(from as int)) == (k - from) + run(chars@.skip(k as int)),
        decreases chars@.len() - k,
    {
        assert(chars@.skip(k as int).skip(1) == chars@.skip(k + 1));
        k = k + 1;
    }
    k
}

fn all_numbers(line: &str) -> (r: Vec<u64>)
    ensures
        nats(r@) == numbers(line@),
{
    let chars = strings::chars_of(line);
    let mut out: Vec<u64> = Vec::new();
    let mut from: usize = 0;
    assert(chars@.skip(0) == chars@);
    assert(nats(out@) + numbers(chars@) == numbers(chars@));
    while from < chars.len()
        invariant
            from <= chars@.len(),
            nats(out@) + numbers(chars@.skip(from as int)) == numbers(chars@),
        decreases chars@.len() - from,
    {
        let ghost rest = chars@.skip(from as int);
        let k = run_from(&chars, from);
        if k == from {
            assert(rest.skip(1) == chars@.skip(from + 1));
            from = from + 1;
        } else {
            let digits = strings::range(&chars, from, k);
            assert(rest.take(k - from) == digits@);
            assert(rest.skip(k - from) == chars@.skip(k as int));
            if let Some(n) = strings::parse_dec(digits.as_str(), u64::MAX) {
                assert(nats(out@.push(n)) + numbers(chars@.skip(k as int)) == nats(out@) + (seq![
                    n as nat,
                ] + numbers(chars@.skip(k as int))));
                out.push(n);
            }
            from = k;
        }
    }
    assert(nats(out@) + Seq::<nat>::empty() == nats(out@));
    out
}

// ---------------------------------------------------------------------------
// Lines

/// The disk that a start line names behind its first words.
pub open spec fn named_disk(rest: Seq<char>) -> Seq<char> {
    match text::second_piece(rest, " on "@) {
        Some(s) => text::trim(text::before(s, " in background"@)),
        None => Seq::empty(),
    }
}

/// What a line, without the white space around it, says.
pub open spec fn said(line: Seq<char>) -> Option<EventView> {
    if text::starts_with(line, "Flow-over: migrating to local slab"@) {
        Some(
            EventView::Started {
                disk: named_disk(text::strip_prefix(line, "Flow-over: migrating to local slab"@)->0),
            },
        )
    } else if text::starts_with(line, "Flow-over complete:"@) {
        Some(EventView::Complete { moved: number_at(numbers(line), 0), failed: 0 })
    } else if text::starts_with(line, "flow-over complete:"@) {
        Some(
            EventView::Complete {
                moved: number_at(numbers(line), 0),
                failed: number_at(numbers(line), 1),
            },
        )
    } else if text::starts_with(line, "flow-over: aborting"@) {
        Some(EventView::Aborted)
    } else if text::starts_with(line, "flow-over: extent "@) {
        Some(
            EventView::ExtentFailed {
                detail: text::trim(text::strip_prefix(line, "flow-over: extent "@)->0),
            },
        )
    } else {
        None
    }
}

fn disk_of(rest: &str) -> (r: String)
    ensures
        r@ == named_disk(rest@),
{
    match strings::second_piece(rest, " on ") {
        Some(s) => strings::trim(strings::before(s.as_str(), " in background").as_str()),
        None => String::new(),
    }
}

fn number_or_zero(v: &Vec<u64>, i: usize) -> (r: u64)
    ensures
        r as nat == number_at(nats(v@), i as int),
{
    if i < v.len() {
        v[i]
    } else {
        0
    }
}

/// Classifies one line of engine output.
pub fn parse_line(line: &str) -> (r: Option<Event>)
    ensures
        opt_event(r) == said(text::trim(line@)),
{
    let line = strings::trim(line);
    let line = line.as_str();
    if let Some(rest) = strings::strip_prefix(line, "Flow-over: migrating to local slab") {
        return Some(Event::Started { disk: disk_of(rest.as_str()) });
    }
    if strings::starts_with(line, "Flow-over complete:") {
        let found = all_numbers(line);
        return Some(Event::Complete { moved: number_or_zero(&found, 0), failed: 0 });
    }
    if strings::starts_with(line, "flow-over complete:") {
        let found = all_numbers(line);
        return Some(
            Event::Complete {
                moved: number_or_zero(&found, 0),
                failed: number_or_zero(&found, 1),
            },
        );
    }
    if strings::starts_with(line, "flow-over: aborting") {
        return Some(Event::Aborted);
    }
    match strings::strip_prefix(line, "flow-over: extent ") {
        Some(detail) => Some(Event::ExtentFailed { detail: strings::trim(detail.as_str()) }),
        None => None,
    }
}

// ---------------------------------------------------------------------------
// Laws

/// Whether no digit stands in `s`.
pub open spec fn wordy(s: Seq<char>) -> bool {
    forall|i: int| 0 <= i < s.len() ==> !text::is_digit(#[trigger] s[i])
}

proof fn lemma_words_skipped(a: Seq<char>, b: Seq<char>)
    requires
        wordy(a),
    ensures
        numbers(a + b) == numbers(b),
    decreases a.len(),
{
    if a.len() == 0 {
        assert(a + b =~= b);
    } else {
        let s = a + b;
        assert(s[0] == a[0]);
        assert(s.skip(1) =~= a.skip(1) + b);
        assert forall|i: int| 0 <= i < a.skip(1).len() implies !text::is_digit(
            #[trigger] a.skip(1)[i],
        ) by {
            assert(a.skip(1)[i] == a[i + 1]);
        }
        lemma_words_skipped(a.skip(1), b);
    }
}

proof fn lemma_run(digits: Seq<char>, rest: Seq<char>)
    requires
        text::all_digits(digits),
        rest.len() > 0 ==> !text::is_digit(rest[0]),
    ensures
        run(digits + rest) == digits.len(),
    decreases digits.len(),
{
    let s = digits + rest;
    if digits.len() == 0 {
        assert(s =~= rest);
    } else {
        assert(s[0] == digits[0]);
        assert(s.skip(1) =~= digits.skip(1) + rest);
        assert forall|i: int| 0 <= i < digits.skip(1).len() implies text::is_digit(
            #[trigger] digits.skip(1)[i],
        ) by {
            assert(digits.skip(1)[i] == digits[i + 1]);
        }
        lemma_run(digits.skip(1), rest);
    }
}

proof fn lemma_number_read(n: nat, rest: Seq<char>)
    requires
        n <= u64::MAX,
        rest.len() > 0 ==> !text::is_digit(rest[0]),
    ensures
        numbers(text::dec(n) + rest) == seq![n] + numbers(rest),
{
    let d = text::dec(n);
    let s = d + rest;
    text::law_decimals_read_back(n, u64::MAX as nat);
    lemma_run(d, rest);
    assert(s.take(d.len() as int) =~= d);
    assert(s.skip(d.len() as int) =~= rest);
}

/// The line that the engine ends with tells how many extents moved and how many failed, in
/// that order; the one that is for the console tells only the first.
pub proof fn law_the_last_line_tells_both_counts(
    before: Seq<char>,
    moved: nat,
    between: Seq<char>,
    failed: nat,
    behind: Seq<char>,
)
    requires
        wordy(before),
        wordy(between),
        between.len() > 0,
        wordy(behind),
        moved <= u64::MAX,
        failed <= u64::MAX,
    ensures
        said(
            "flow-over complete:"@ + (before + (text::dec(moved) + (between + (text::dec(failed)
                + behind)))),
        ) == Some(EventView::Complete { moved, failed }),
        said("Flow-over complete:"@ + (before + (text::dec(moved) + between))) == Some(
            EventView::Complete { moved, failed: 0 },
        ),
{
    reveal_strlit("Flow-over: migrating to local slab");
    reveal_strlit("Flow-over complete:");
    reveal_strlit("flow-over complete:");
    let small = "flow-over complete:"@;
    let large = "Flow-over complete:"@;
    let three = text::dec(failed) + behind;
    let two = text::dec(moved) + (between + three);
    let tail = before + two;
    let line = small + tail;
    assert(wordy(small) && wordy(large));
    lemma_words_skipped(small, tail);
    lemma_words_skipped(before, two);
    assert((between + three)[0] == between[0]);
    lemma_number_read(moved, between + three);
    lemma_words_skipped(between, three);
    lemma_number_read(failed, behind);
    assert(numbers(line) =~= seq![moved] + (seq![failed] + numbers(behind)));
    assert(line.take(small.len() as int) =~= small);
    assert(line[0] == 'f');
    if text::starts_with(line, large) {
        assert(line.take(large.len() as int)[0] == 'F');
    }
    if text::starts_with(line, "Flow-over: migrating to local slab"@) {
        assert(line.take("Flow-over: migrating to local slab"@.len() as int)[0] == 'F');
    }
    let console = large + (before + (text::dec(moved) + between));
    lemma_words_skipped(large, before + (text::dec(moved) + between));
    lemma_words_skipped(before, text::dec(moved) + between);
    lemma_number_read(moved, between);
    assert(numbers(console) =~= seq![moved] + numbers(between));
    assert(console.take(large.len() as int) =~= large);
    assert(console[9] == large[9]);
    if text::starts_with(console, "Flow-over: migrating to local slab"@) {
        assert(console.take("Flow-over: migrating to local slab"@.len() as int)[9]
            == "Flow-over: migrating to local slab"@[9]);
    }
}

/// Whatever stands behind them, these words say that flow-over gave up, and those that an
/// extent failed: what is said of the extent is kept.
pub proof fn law_failures_are_told_by_their_words(rest: Seq<char>)
    ensures
        said("flow-over: aborting"@ + rest) == Some(EventView::Aborted),
        said("flow-over: extent "@ + rest) == Some(
            EventView::ExtentFailed { detail: text::trim(rest) },
        ),
{
    reveal_strlit("Flow-over: migrating to local slab");
    reveal_strlit("Flow-over complete:");
    reveal_strlit("flow-over complete:");
    reveal_strlit("flow-over: aborting");
    reveal_strlit("flow-over: extent ");
    lemma_begins_otherwise("flow-over: aborting"@ + rest);
    lemma_begins_otherwise("flow-over: extent "@ + rest);
    let gone = "flow-over: aborting"@ + rest;
    assert(gone.take("flow-over: aborting"@.len() as int) =~= "flow-over: aborting"@);
    let one = "flow-over: extent "@ + rest;
    assert(one.take("flow-over: extent "@.len() as int) =~= "flow-over: extent "@);
    assert(one.skip("flow-over: extent "@.len() as int) =~= rest);
    if text::starts_with(one, "flow-over: aborting"@) {
        assert(one.take("flow-over: aborting"@.len() as int)[11] == 'a');
        assert(one[11] == 'e');
    }
}

proof fn lemma_begins_otherwise(line: Seq<char>)
    requires
        line.len() > 9,
        line[0] == 'f',
        line[9] == ':',
    ensures
        !text::starts_with(line, "Flow-over: migrating to local slab"@),
        !text::starts_with(line, "Flow-over complete:"@),
        !text::starts_with(line, "flow-over complete:"@),
{
    reveal_strlit("Flow-over: migrating to local slab");
    reveal_strlit("Flow-over complete:");
    reveal_strlit("flow-over complete:");
    if text::starts_with(line, "Flow-over: migrating to local slab"@) {
        assert(line.take("Flow-over: migrating to local slab"@.len() as int)[0] == 'F');
    }
    if text::starts_with(line, "Flow-over complete:"@) {
        assert(line.take("Flow-over complete:"@.len() as int)[0] == 'F');
    }
    if text::starts_with(line, "flow-over complete:"@) {
        assert(line.take("flow-over complete:"@.len() as int)[9] == ' ');
    }
}

/// The line that flow-over starts with names the disk it goes onto.
pub proof fn law_the_first_line_names_the_disk(slab: Seq<char>, disk: Seq<char>)
    requires
        text::one_word(slab),
        slab != "on"@,
        text::one_word(disk),
    ensures
        said(
            "Flow-over: migrating to local slab"@ + (seq![' '] + slab + " on "@ + disk
                + " in background"@),
        ) == Some(EventView::Started { disk }),
{
    let head = "Flow-over: migrating to local slab"@;
    let on = " on "@;
    let end = " in background"@;
    reveal_strlit(" on ");
    reveal_strlit(" in background");
    reveal_strlit("on");
    let rest = seq![' '] + slab + on + disk + end;
    let line = head + rest;
    assert(line.take(head.len() as int) =~= head);
    assert(line.skip(head.len() as int) =~= rest);
    let at = 1 + slab.len() as int;
    assert(rest.skip(at) =~= on + disk + end);
    assert(rest.skip(at).take(4) =~= on);
    assert forall|j: int| 0 <= j < at implies !text::starts_with(#[trigger] rest.skip(j), on) by {
        if text::starts_with(rest.skip(j), on) {
            let t = rest.skip(j).take(4);
            assert(t[0] == ' ' && t[1] == 'o' && t[2] == 'n' && t[3] == ' ');
            assert(rest[j] == ' ' && rest[j + 1] == 'o' && rest[j + 2] == 'n' && rest[j + 3] == ' ');
            if j > 0 {
                assert(rest[j] == slab[j - 1]);
            } else {
                assert(rest[1] == slab[0]);
                if slab.len() > 2 {
                    assert(rest[3] == slab[2]);
                } else if slab.len() == 2 {
                    assert(rest[2] == slab[1]);
                    assert(slab =~= "on"@);
                } else {
                    assert(rest[2] == ' ');
                }
            }
        }
    }
    text::law_found_first(rest, on, at);
    let named = disk + end;
    assert(rest.skip(at + 4) =~= named);
    lemma_stands_nowhere(disk);
    assert(text::find(named, on) is None);
    let n = disk.len() as int;
    assert(named.skip(n) =~= end);
    assert(end.take(end.len() as int) =~= end);
    assert forall|j: int| 0 <= j < n implies !text::starts_with(#[trigger] named.skip(j), end) by {
        if text::starts_with(named.skip(j), end) {
            assert(named.skip(j).take(end.len() as int)[0] == ' ');
            assert(named[j] == disk[j]);
        }
    }
    text::law_found_first(named, end, n);
    assert(named.take(n) =~= disk);
    text::law_trimmed(disk);
    text::law_found_where_it_first_stands(named, on);
}

/// ` on ` stands nowhere in a disk's name and what follows it.
proof fn lemma_stands_nowhere(disk: Seq<char>)
    requires
        text::one_word(disk),
    ensures
        text::find(disk + " in background"@, " on "@) is None,
{
    reveal_strlit(" on ");
    reveal_strlit(" in background");
    let named = disk + " in background"@;
    let on = " on "@;
    text::law_found_where_it_first_stands(named, on);
    if let Some(i) = text::find(named, on) {
        let t = named.skip(i as int).take(4);
        assert(t[0] == ' ' && t[1] == 'o');
        assert(named[i as int] == ' ' && named[i as int + 1] == 'o');
        if i < disk.len() {
            assert(named[i as int] == disk[i as int]);
        } else {
            let k = i - disk.len();
            assert(named[i as int] == " in background"@[k as int]);
            assert(k == 0 || k == 3);
            assert(named[i as int + 1] == " in background"@[k + 1]);
        }
    }
}

/// Nothing else is an event.
pub proof fn law_other_lines_are_no_events(line: Seq<char>)
    requires
        !"Flow-over: migrating to local slab"@.is_prefix_of(line),
        !"Flow-over complete:"@.is_prefix_of(line),
        !"flow-over complete:"@.is_prefix_of(line),
        !"flow-over: aborting"@.is_prefix_of(line),
        !"flow-over: extent "@.is_prefix_of(line),
    ensures
        said(line) is None,
{
    lemma_prefix("Flow-over: migrating to local slab"@, line);
    lemma_prefix("Flow-over complete:"@, line);
    lemma_prefix("flow-over complete:"@, line);
    lemma_prefix("flow-over: aborting"@, line);
    lemma_prefix("flow-over: extent "@, line);
}

proof fn lemma_prefix(prefix: Seq<char>, line: Seq<char>)
    ensures
        text::starts_with(line, prefix) <==> prefix.is_prefix_of(line),
{
    if prefix.len() <= line.len() {
        assert(line.take(prefix.len() as int) =~= line.subrange(0, prefix.len() as int));
    }
}

} // verus!
