//! Turning what the engine says into reports for the boot server.

use crate::agent::flowover;
use crate::agent::flowover::{Event, EventView};
use crate::agent::inventory::{Inventory, InventoryView};
use crate::http1;
use crate::http1::{Outgoing, OutgoingView};
use crate::strings;
use crate::text;
use vstd::prelude::*;
use vstd::string::StringExecFns;

verus! {

/// A phase to report, with a word about it.
#[derive(Debug, Clone, PartialEq, Eq)]
pub struct Report {
    pub phase: String,
    pub detail: String,
}

#[verifier::ext_equal]
pub struct ReportView {
    pub phase: Seq<char>,
    pub detail: Seq<char>,
}

impl View for Report {
    type V = ReportView;

    open spec fn view(&self) -> ReportView {
        ReportView { phase: self.phase@, detail: self.detail@ }
    }
}

pub open spec fn opt_report(r: Option<Report>) -> Option<ReportView> {
    match r {
        Some(r) => Some(r@),
        None => None,
    }
}

// ---------------------------------------------------------------------------
// Following the engine's output

/// How often a failed extent is reported. One by one they are noise until they
/// accumulate; the engine gives up after sixteen, so the trend shows before that.
pub const FAILURES_PER_REPORT: u32 = 4;

/// How many extents have failed once `event` has happened.
pub open spec fn failures_after(failures: nat, event: Option<EventView>) -> nat {
    match event {
        Some(EventView::ExtentFailed { .. }) => failures + 1,
        _ => failures,
    }
}

/// What is reported of `event`, given how many extents have failed with it.
pub open spec fn report_of(failures: nat, event: Option<EventView>) -> Option<ReportView> {
    match event {
        Some(EventView::Started { disk }) => Some(
            ReportView { phase: "assimilating"@, detail: "flow-over onto "@ + disk },
        ),
        Some(EventView::Complete { moved, failed }) => Some(
            ReportView {
                phase: if failed > 0 {
                    "assimilating"@
                } else {
                    "local"@
                },
                detail: text::dec(moved) + " extent(s) local, "@ + text::dec(failed) + " failed"@,
            },
        ),
        Some(EventView::Aborted) => Some(
            ReportView {
                phase: "failed"@,
                detail: "flow-over aborted after repeated failures"@,
            },
        ),
        Some(EventView::ExtentFailed { detail }) => if failures % (FAILURES_PER_REPORT as nat)
            == 0 {
            Some(
                ReportView {
                    phase: "assimilating"@,
                    detail: text::dec(failures) + " extent failures: "@ + detail,
                },
            )
        } else {
            None
        },
        None => None,
    }
}

/// Whether nothing more is to be learnt once `event` has happened.
pub open spec fn is_last(event: Option<EventView>) -> bool {
    match event {
        Some(EventView::Complete { .. }) => true,
        Some(EventView::Aborted) => true,
        _ => false,
    }
}

/// What to do about a line.
#[derive(Debug, Clone, PartialEq, Eq)]
pub struct Step {
    /// What to report, if anything.
    pub report: Option<Report>,
    /// Whether to stop following the output.
    pub done: bool,
}

/// Flow-over, as far as the engine's output has been read.
#[derive(Debug)]
pub struct Progress {
    extent_failures: u32,
}

impl Progress {
    /// How many extents have failed so far.
    pub closed spec fn failures(&self) -> nat {
        self.extent_failures as nat
    }

    pub fn new() -> (r: Self)
        ensures
            r.failures() == 0,
    {
        Progress { extent_failures: 0 }
    }

    pub fn extent_failures(&self) -> (r: u32)
        ensures
            r as nat == self.failures(),
    {
        self.extent_failures
    }

    /// Takes one line of the engine's output.
    pub fn on_line(&mut self, line: &str) -> (r: Step)
        requires
            old(self).failures() < u32::MAX,
        ensures
            ({
                let event = flowover::said(text::trim(line@));
                &&& final(self).failures() == failures_after(old(self).failures(), event)
                &&& opt_report(r.report) == report_of(final(self).failures(), event)
                &&& r.done == is_last(event)
            }),
    {
        let Some(event) = flowover::parse_line(line) else {
            return Step { report: None, done: false };
        };
        match event {
            Event::Started { disk } => Step {
                report: Some(
                    Report {
                        phase: "assimilating".to_owned(),
                        detail: strings::concat("flow-over onto ", disk.as_str()),
                    },
                ),
                done: false,
            },
            Event::Complete { moved, failed } => {
                let mut detail = strings::dec(moved);
                detail.append(" extent(s) local, ");
                detail.append(strings::dec(failed).as_str());
                detail.append(" failed");
                let phase = if failed > 0 {
                    "assimilating"
                } else {
                    "local"
                };
                Step { report: Some(Report { phase: phase.to_owned(), detail }), done: true }
            },
            Event::Aborted => Step {
                report: Some(
                    Report {
                        phase: "failed".to_owned(),
                        detail: "flow-over aborted after repeated failures".to_owned(),
                    },
                ),
                done: true,
            },
            Event::ExtentFailed { detail } => {
                self.extent_failures = self.extent_failures + 1;
                if self.extent_failures % FAILURES_PER_REPORT != 0 {
                    return Step { report: None, done: false };
                }
                let mut said = strings::dec(self.extent_failures as u64);
                said.append(" extent failures: ");
                said.append(detail.as_str());
                Step {
                    report: Some(Report { phase: "assimilating".to_owned(), detail: said }),
                    done: false,
                }
            },
        }
    }
}

// ---------------------------------------------------------------------------
// JSON strings

/// How a character stands in a JSON string.
pub open spec fn escaped(c: char) -> Seq<char> {
    if c == '"' {
        "\\\""@
    } else if c == '\\' {
        "\\\\"@
    } else if c == '\x08' {
        "\\b"@
    } else if c == '\t' {
        "\\t"@
    } else if c == '\n' {
        "\\n"@
    } else if c == '\x0c' {
        "\\f"@
    } else if c == '\r' {
        "\\r"@
    } else if (c as u32) < 0x20 {
        "\\u00"@ + text::hex2(c as u8)
    } else {
        seq![c]
    }
}

pub open spec fn escaped_all(s: Seq<char>) -> Seq<char>
    decreases s.len(),
{
    if s.len() == 0 {
        Seq::empty()
    } else {
        escaped_all(s.drop_last()) + escaped(s.last())
    }
}

/// A text as a JSON string.
pub open spec fn json_string(s: Seq<char>) -> Seq<char> {
    "\""@ + escaped_all(s) + "\""@
}

/// `serde_json::to_string` of a `str`, which always succeeds: the text between
/// double quotes, with double quotes, backslashes and the control characters below
/// the space escaped, each in its short form where JSON has one and else as `\u00`
/// and two lowercase hex digits.
#[verifier::external_body]
fn quote(s: &str) -> (r: String)
    ensures
        r@ == json_string(s@),
{
    serde_json::to_string(s).unwrap_or_default()
}

// ---------------------------------------------------------------------------
// Reporting

/// The body of a report: its members in the order of their names.
pub open spec fn body(mac: Seq<char>, phase: Seq<char>, detail: Option<Seq<char>>) -> Seq<char> {
    let rest = "\"mac\":"@ + json_string(mac) + ",\"phase\":"@ + json_string(phase) + "}"@;
    match detail {
        Some(d) => "{\"detail\":"@ + json_string(d) + ","@ + rest,
        None => "{"@ + rest,
    }
}

/// A further member of a JSON object, where there is one.
pub open spec fn member(name: Seq<char>, value: Option<Seq<char>>) -> Seq<char> {
    match value {
        Some(v) => ",\""@ + name + "\":"@ + json_string(v),
        None => Seq::empty(),
    }
}

/// What the machine is made of, as the boot server takes it: the members in the order
/// of their names.
pub open spec fn inventory_body(mac: Seq<char>, v: InventoryView) -> Seq<char> {
    "{\"cpus\":"@ + text::dec(v.cpus as nat) + ",\"disks\":["@ + text::join(
        v.disks.map_values(|d: Seq<char>| json_string(d)),
        ","@,
    ) + "],\"mac\":"@ + json_string(mac) + ",\"memory_kb\":"@ + text::dec(v.memory_kb as nat)
        + member("product"@, v.product) + member("serial"@, v.serial) + "}"@
}

fn add_member(mut said: String, name: &str, value: &Option<String>) -> (r: String)
    ensures
        r@ == said@ + member(name@, text::opt_text(*value)),
{
    match value {
        Some(v) => {
            let mut more = strings::concat(",\"", name);
            more.append("\":");
            more.append(quote(v.as_str()).as_str());
            said.append(more.as_str());
        },
        None => {
            assert(said@ + Seq::<char>::empty() =~= said@);
        },
    }
    said
}

fn quote_all(names: &Vec<String>) -> (r: Vec<String>)
    ensures
        text::texts(r@) == text::texts(names@).map_values(|d: Seq<char>| json_string(d)),
{
    let mut out: Vec<String> = Vec::new();
    let mut i: usize = 0;
    while i < names.len()
        invariant
            i <= names@.len(),
            out@.len() == i,
            forall|j: int| 0 <= j < i ==> (#[trigger] out@[j])@ == json_string(names@[j]@),
        decreases names@.len() - i,
    {
        out.push(quote(names[i].as_str()));
        i = i + 1;
    }
    assert(text::texts(out@) =~= text::texts(names@).map_values(|d: Seq<char>| json_string(d)));
    out
}

/// The POST of `body` to `url`, which has to be a plain `http://` one.
pub open spec fn post_to(url: Seq<char>, body: Seq<char>) -> Option<OutgoingView> {
    match text::strip_prefix(url, "http://"@) {
        Some(rest) => Some(
            OutgoingView {
                connect: http1::dialled(http1::authority(rest)),
                text: http1::posted(http1::path(rest), http1::authority(rest), body),
            },
        ),
        None => None,
    }
}

/// Why a response does not count as the report having been taken.
pub open spec fn refusal(response: Seq<char>) -> Option<Seq<char>> {
    match http1::status_of(response) {
        None => Some("no status line in response"@),
        Some(code) => if 200 <= code < 300 {
            None
        } else {
            Some("boot server returned "@ + text::dec(code))
        },
    }
}

/// Who reports, and to whom.
#[derive(Debug)]
pub struct Reporter {
    url: String,
    mac: String,
}

impl Reporter {
    /// The boot server's base URL, without slashes at its end.
    pub closed spec fn url(&self) -> Seq<char> {
        self.url@
    }

    /// This node's MAC address, as the boot server knows it.
    pub closed spec fn mac(&self) -> Seq<char> {
        self.mac@
    }

    pub fn new(url: &str, mac: String) -> (r: Self)
        ensures
            r.url() == text::trim_end_char(url@, '/'),
            r.mac() == mac@,
    {
        Reporter { url: strings::trim_end_char(url, '/'), mac }
    }

    /// The request that reports a phase.
    pub fn request(&self, phase: &str, detail: Option<&str>) -> (r: Result<Outgoing, String>)
        ensures
            match r {
                Ok(out) => post_to(
                    self.url() + "/api/v1/report"@,
                    body(self.mac(), phase@, text::opt_str(detail)),
                ) == Some(out@),
                Err(said) => text::strip_prefix(self.url() + "/api/v1/report"@, "http://"@) is None
                    && said@ == "only http:// is supported"@,
            },
    {
        let mut said = String::new();
        match detail {
            Some(d) => {
                said.append("{\"detail\":");
                said.append(quote(d).as_str());
                said.append(",");
            },
            None => said.append("{"),
        }
        let mut rest = strings::concat("\"mac\":", quote(self.mac.as_str()).as_str());
        rest.append(",\"phase\":");
        rest.append(quote(phase).as_str());
        rest.append("}");
        said.append(rest.as_str());
        assert(said@ == body(self.mac(), phase@, text::opt_str(detail)));
        self.post("/api/v1/report", said.as_str())
    }

    /// The request that says what this machine is made of.
    pub fn inventory_request(&self, inv: &Inventory) -> (r: Result<Outgoing, String>)
        ensures
            match r {
                Ok(out) => post_to(
                    self.url() + "/api/v1/inventory"@,
                    inventory_body(self.mac(), inv@),
                ) == Some(out@),
                Err(said) => text::strip_prefix(self.url() + "/api/v1/inventory"@, "http://"@)
                    is None && said@ == "only http:// is supported"@,
            },
    {
        let mut said = strings::concat("{\"cpus\":", strings::dec(inv.cpus as u64).as_str());
        said.append(",\"disks\":[");
        said.append(strings::join(&quote_all(&inv.disks), ",").as_str());
        said.append("],\"mac\":");
        said.append(quote(self.mac.as_str()).as_str());
        said.append(",\"memory_kb\":");
        said.append(strings::dec(inv.memory_kb).as_str());
        said = add_member(said, "product", &inv.product);
        said = add_member(said, "serial", &inv.serial);
        said.append("}");
        self.post("/api/v1/inventory", said.as_str())
    }

    fn post(&self, path: &str, body: &str) -> (r: Result<Outgoing, String>)
        ensures
            match r {
                Ok(out) => post_to(self.url() + path@, body@) == Some(out@),
                Err(said) => text::strip_prefix(self.url() + path@, "http://"@) is None && said@
                    == "only http:// is supported"@,
            },
    {
        let url = strings::concat(self.url.as_str(), path);
        match strings::strip_prefix(url.as_str(), "http://") {
            Some(target) => {
                let (host, asked) = http1::split(target.as_str());
                Ok(
                    Outgoing {
                        connect: http1::dial(host.as_str()),
                        text: http1::post(asked.as_str(), host.as_str(), body),
                    },
                )
            },
            None => Err("only http:// is supported".to_owned()),
        }
    }

    /// What the boot server made of a report.
    pub fn outcome(&self, response: &str) -> (r: Result<(), String>)
        ensures
            match r {
                Ok(()) => refusal(response@) is None,
                Err(said) => refusal(response@) == Some(said@),
            },
    {
        match http1::parse_status(response) {
            None => Err("no status line in response".to_owned()),
            Some(code) => if 200 <= code && code < 300 {
                Ok(())
            } else {
                Err(strings::concat("boot server returned ", strings::dec(code as u64).as_str()))
            },
        }
    }
}

// ---------------------------------------------------------------------------
// Laws

/// A node counts as local only once its flow-over has completed without a failure.
pub proof fn law_local_means_nothing_failed(failures: nat, event: Option<EventView>)
    requires
        report_of(failures, event) is Some,
        report_of(failures, event)->0.phase == "local"@,
    ensures
        event matches Some(EventView::Complete { failed, .. }) && failed == 0,
{
    reveal_strlit("local");
    reveal_strlit("assimilating");
    reveal_strlit("failed");
    assert("local"@.len() != "assimilating"@.len());
    assert("local"@.len() != "failed"@.len());
}

/// A line that says nothing about flow-over changes nothing.
pub proof fn law_chatter_is_ignored(failures: nat)
    ensures
        failures_after(failures, None) == failures,
        report_of(failures, None) is None,
        !is_last(None),
{
}

/// Following ends with a report, so no flow-over ends unseen.
pub proof fn law_the_end_is_reported(failures: nat, event: Option<EventView>)
    requires
        is_last(event),
    ensures
        report_of(failures, event) is Some,
{
}

/// Of any four failed extents in a row, one is reported.
pub proof fn law_failures_surface(failures: nat, detail: Seq<char>)
    ensures
        exists|k: nat|
            k < FAILURES_PER_REPORT && #[trigger] report_of(
                failures + k,
                Some(EventView::ExtentFailed { detail }),
            ) is Some,
{
    let short = failures % (FAILURES_PER_REPORT as nat);
    let k = if short == 0 {
        0
    } else {
        (FAILURES_PER_REPORT - short) as nat
    };
    assert((failures + k) % (FAILURES_PER_REPORT as nat) == 0);
    assert(report_of(failures + k, Some(EventView::ExtentFailed { detail })) is Some);
}

/// No control character gets into a JSON string, so whatever the engine says, a
/// report stays on one line.
pub proof fn law_escapes_are_plain(s: Seq<char>)
    ensures
        forall|i: int| 0 <= i < escaped_all(s).len() ==> #[trigger] escaped_all(s)[i] as u32 >= 0x20,
    decreases s.len(),
{
    if s.len() > 0 {
        law_escapes_are_plain(s.drop_last());
        let head = escaped_all(s.drop_last());
        let tail = escaped(s.last());
        lemma_escaped_is_plain(s.last());
        assert forall|i: int| 0 <= i < escaped_all(s).len() implies #[trigger] escaped_all(
            s,
        )[i] as u32 >= 0x20 by {
            if i < head.len() {
                assert(escaped_all(s)[i] == head[i]);
            } else {
                assert(escaped_all(s)[i] == tail[i - head.len()]);
            }
        }
    }
}

proof fn lemma_escaped_is_plain(c: char)
    ensures
        forall|i: int| 0 <= i < escaped(c).len() ==> #[trigger] escaped(c)[i] as u32 >= 0x20,
{
    reveal_strlit("\\\"");
    reveal_strlit("\\\\");
    reveal_strlit("\\b");
    reveal_strlit("\\t");
    reveal_strlit("\\n");
    reveal_strlit("\\f");
    reveal_strlit("\\r");
    reveal_strlit("\\u00");
}

/// A completed flow-over leaves the machine local exactly where no extent failed, and says
/// how many moved and how many did not; only a completed one ever does.
pub proof fn law_a_completed_flow_over_tells_its_counts(failures: nat, moved: nat, failed: nat)
    ensures
        ({
            let report = report_of(failures, Some(EventView::Complete { moved, failed }));
            &&& report is Some
            &&& failed == 0 ==> report->0.phase == "local"@
            &&& failed > 0 ==> report->0.phase == "assimilating"@
            &&& exists|a: Seq<char>, b: Seq<char>| #[trigger]
                text::all_digits(a) && #[trigger] text::all_digits(b) && text::digits_value(a)
                    == moved && text::digits_value(b) == failed && report->0.detail == a
                    + " extent(s) local, "@ + b + " failed"@
            &&& is_last(Some(EventView::Complete { moved, failed }))
        }),
{
    text::law_decimals_read_back(moved, moved);
    text::law_decimals_read_back(failed, failed);
    assert(text::all_digits(text::dec(moved)) && text::all_digits(text::dec(failed)));
}

/// A start names the disk, an abort is a failure and the end; neither counts as a failed
/// extent.
pub proof fn law_a_start_and_an_abort_are_reported(failures: nat, disk: Seq<char>)
    ensures
        report_of(failures, Some(EventView::Started { disk })) == Some(
            ReportView { phase: "assimilating"@, detail: "flow-over onto "@ + disk },
        ),
        !is_last(Some(EventView::Started { disk })),
        report_of(failures, Some(EventView::Aborted)) is Some,
        report_of(failures, Some(EventView::Aborted))->0.phase == "failed"@,
        is_last(Some(EventView::Aborted)),
        failures_after(failures, Some(EventView::Started { disk })) == failures,
        failures_after(failures, Some(EventView::Aborted)) == failures,
{
}

/// Every failed extent counts. Of four in a row one is reported, with how many there have
/// been and what was said of the last; none of them ends the run.
pub proof fn law_every_fourth_failure_is_reported(failures: nat, detail: Seq<char>)
    ensures
        ({
            let event = Some(EventView::ExtentFailed { detail });
            let now = failures_after(failures, event);
            &&& now == failures + 1
            &&& report_of(now, event) is Some <==> now % 4 == 0
            &&& report_of(now, event) is Some ==> report_of(now, event)->0.phase == "assimilating"@
                && exists|n: Seq<char>| #[trigger]
                text::all_digits(n) && text::digits_value(n) == failures + 1 && report_of(
                    now,
                    event,
                )->0.detail == n + " extent failures: "@ + detail
            &&& !is_last(event)
        }),
{
    text::law_decimals_read_back(failures + 1, failures + 1);
    assert(text::all_digits(text::dec(failures + 1)));
}

/// A report goes to the host that the URL names and asks for the path it names, with the
/// body it was given; a URL of another scheme goes nowhere.
pub proof fn law_a_report_goes_where_its_url_says(
    host: Seq<char>,
    tail: Seq<char>,
    url: Seq<char>,
    body: Seq<char>,
)
    requires
        text::free_of(host, '/'),
    ensures
        post_to("http://"@ + (host + seq!['/'] + tail), body) == Some(
            OutgoingView {
                connect: http1::dialled(host),
                text: http1::posted(seq!['/'] + tail, host, body),
            },
        ),
        post_to(url, body) is Some <==> "http://"@.is_prefix_of(url),
{
    let full = "http://"@ + (host + seq!['/'] + tail);
    let p = "http://"@;
    assert(full.take(p.len() as int) =~= p);
    assert(full.skip(p.len() as int) =~= host + seq!['/'] + tail);
    http1::law_a_target_splits_at_its_first_slash(host, tail);
    if p.len() <= url.len() {
        assert(url.subrange(0, p.len() as int) =~= url.take(p.len() as int));
    }
}

/// A response is taken well exactly where its status is one of the two hundreds.
pub proof fn law_a_response_is_judged_by_its_status(response: Seq<char>)
    ensures
        refusal(response) is None <==> http1::status_of(response) is Some && 200
            <= http1::status_of(response)->0 <= 299,
{
}

/// A report names the machine and the phase, and what is said about it in front of them.
pub proof fn law_a_report_names_the_machine(
    mac: Seq<char>,
    phase: Seq<char>,
    detail: Option<Seq<char>>,
)
    ensures
        exists|front: Seq<char>| #[trigger]
            opens(body(mac, phase, detail), front) && body(mac, phase, detail) == front
                + "\"mac\":"@ + json_string(mac) + ",\"phase\":"@ + json_string(phase) + "}"@ && (
            match detail {
                None => front == "{"@,
                Some(d) => front == "{\"detail\":"@ + json_string(d) + ","@,
            }),
{
    let front = match detail {
        Some(d) => "{\"detail\":"@ + json_string(d) + ","@,
        None => "{"@,
    };
    let all = body(mac, phase, detail);
    assert(all =~= front + "\"mac\":"@ + json_string(mac) + ",\"phase\":"@ + json_string(phase)
        + "}"@);
    assert(all.subrange(0, front.len() as int) =~= front);
    assert(opens(all, front));
}

/// Whether a text opens with another.
pub open spec fn opens(s: Seq<char>, front: Seq<char>) -> bool {
    front.is_prefix_of(s)
}

} // verus!
