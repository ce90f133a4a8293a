//! Prometheus exposition.
//!
//! Plain counters: the set is small, and a boot server that thousands of machines
//! hit at once should carry as little machinery in that path as possible.

use crate::server::hosts::HostCounts;
use crate::server::state::Phase;
use crate::strings;
use crate::text;
use vstd::prelude::*;
use vstd::string::StringExecFns;

verus! {

/// The version this server calls itself.
pub const VERSION: &'static str = "0.4.0";

#[derive(Debug, Clone, Copy, PartialEq, Eq, Structural)]
pub struct Metrics {
    pub requests_total: u64,
    pub boot_script_requests: u64,
    pub asset_requests: u64,
    pub not_found: u64,
    /// Boot requests refused: unknown host under a deny policy, or a MAC we could
    /// not parse.
    pub refused: u64,
    pub claim_failures: u64,
    /// Successful boot pallet refreshes that changed what we serve.
    pub pallet_refreshes: u64,
    pub pallet_refresh_failures: u64,
    /// `BootHost` status subresource patches written.
    pub status_writes: u64,
    pub status_write_failures: u64,
    /// Errors from the `BootHost` watch. The watch retries on its own, so this
    /// rising while records stay current is noise; it rising while they go stale
    /// is the alert.
    pub watch_errors: u64,
}

// ---------------------------------------------------------------------------
// The exposition format

/// One sample: its labels, as written behind the name, and its value.
#[verifier::ext_equal]
pub struct Sample {
    pub labels: Seq<char>,
    pub value: nat,
}

pub open spec fn sample_line(name: Seq<char>, sample: Sample) -> Seq<char> {
    name + sample.labels + " "@ + text::dec(sample.value) + "\n"@
}

pub open spec fn sample_lines(name: Seq<char>, samples: Seq<Sample>) -> Seq<char>
    decreases samples.len(),
{
    if samples.len() == 0 {
        Seq::empty()
    } else {
        sample_lines(name, samples.drop_last()) + sample_line(name, samples.last())
    }
}

/// A metric: its help, its type, and its samples below them.
pub open spec fn family(
    name: Seq<char>,
    help: Seq<char>,
    kind: Seq<char>,
    samples: Seq<Sample>,
) -> Seq<char> {
    "# HELP "@ + name + " "@ + help + "\n# TYPE "@ + name + " "@ + kind + "\n"@ + sample_lines(
        name,
        samples,
    )
}

pub open spec fn plain(value: nat) -> Seq<Sample> {
    seq![Sample { labels: Seq::empty(), value }]
}

/// `{name="value"}`.
pub open spec fn label(name: Seq<char>, value: Seq<char>) -> Seq<char> {
    "{"@ + name + "=\""@ + value + "\"}"@
}

pub open spec fn counter(name: Seq<char>, help: Seq<char>, value: u64) -> Seq<char> {
    family(name, help, "counter"@, plain(value as nat))
}

pub open spec fn counters(m: Metrics) -> Seq<char> {
    counter("stormnetboot_requests_total"@, "Total HTTP requests served."@, m.requests_total)
        + counter(
        "stormnetboot_boot_script_requests_total"@,
        "Rendered iPXE boot scripts served."@,
        m.boot_script_requests,
    ) + counter(
        "stormnetboot_asset_requests_total"@,
        "Boot asset requests (kernel, initramfs, ISO, iPXE binaries)."@,
        m.asset_requests,
    ) + counter(
        "stormnetboot_not_found_total"@,
        "Requests that matched no route or asset."@,
        m.not_found,
    ) + counter(
        "stormnetboot_refused_total"@,
        "Boot requests refused (unknown host, or unparseable MAC)."@,
        m.refused,
    ) + counter(
        "stormnetboot_claim_failures_total"@,
        "Failures claiming a per-host root volume."@,
        m.claim_failures,
    ) + counter(
        "stormnetboot_pallet_refreshes_total"@,
        "Boot pallet refreshes that changed what is served."@,
        m.pallet_refreshes,
    ) + counter(
        "stormnetboot_pallet_refresh_failures_total"@,
        "Failed attempts to refresh the boot pallet."@,
        m.pallet_refresh_failures,
    ) + counter(
        "stormnetboot_status_writes_total"@,
        "BootHost status subresource patches written."@,
        m.status_writes,
    ) + counter(
        "stormnetboot_status_write_failures_total"@,
        "Failed BootHost status patches."@,
        m.status_write_failures,
    ) + counter(
        "stormnetboot_watch_errors_total"@,
        "Errors returned by the BootHost watch."@,
        m.watch_errors,
    )
}

/// Hosts by phase: the series an operator actually alerts on during a fleet
/// install.
pub open spec fn phase_samples(phases: Seq<(Phase, usize)>) -> Seq<Sample> {
    phases.map_values(
        |p: (Phase, usize)| Sample { labels: label("phase"@, p.0.word()), value: p.1 as nat },
    )
}

/// Records by layer: a cluster layer that empties out while the file layer still
/// answers is the failure that would otherwise look like nothing going wrong.
pub open spec fn record_samples(hosts: HostCounts) -> Seq<Sample> {
    seq![
        Sample { labels: label("source"@, "file"@), value: hosts.file as nat },
        Sample { labels: label("source"@, "boothost"@), value: hosts.kube as nat },
    ]
}

pub open spec fn exposition(
    m: Metrics,
    phases: Seq<(Phase, usize)>,
    hosts: HostCounts,
) -> Seq<char> {
    family(
        "stormnetboot_build_info"@,
        "Build information."@,
        "gauge"@,
        seq![Sample { labels: label("version"@, VERSION@), value: 1 }],
    ) + counters(m) + family(
        "stormnetboot_hosts"@,
        "Hosts currently tracked, by boot phase."@,
        "gauge"@,
        phase_samples(phases),
    ) + family(
        "stormnetboot_host_records"@,
        "Host records held, by source layer."@,
        "gauge"@,
        record_samples(hosts),
    ) + family(
        "stormnetboot_boothost_synced"@,
        "Whether the BootHost watch has listed the cluster."@,
        "gauge"@,
        plain(
            if hosts.kube_synced {
                1
            } else {
                0
            },
        ),
    )
}

// ---------------------------------------------------------------------------
// Writing it

fn label_text(name: &str, value: &str) -> (r: String)
    ensures
        r@ == label(name@, value@),
{
    let mut out = strings::concat("{", name);
    out.append("=\"");
    out.append(value);
    out.append("\"}");
    out
}

fn head(name: &str, help: &str, kind: &str) -> (r: String)
    ensures
        r@ == family(name@, help@, kind@, Seq::empty()),
{
    let mut out = strings::concat("# HELP ", name);
    out.append(" ");
    out.append(help);
    out.append("\n# TYPE ");
    out.append(name);
    out.append(" ");
    out.append(kind);
    out.append("\n");
    assert(out@ + Seq::<char>::empty() == out@);
    out
}

fn one_sample(name: &str, labels: &str, value: u64) -> (r: String)
    ensures
        r@ == sample_line(name@, (Sample { labels: labels@, value: value as nat })),
{
    let mut out = strings::concat(name, labels);
    out.append(" ");
    out.append(strings::dec(value).as_str());
    out.append("\n");
    out
}

/// One more sample under a family.
proof fn lemma_one_more(
    name: Seq<char>,
    help: Seq<char>,
    kind: Seq<char>,
    samples: Seq<Sample>,
    sample: Sample,
)
    ensures
        family(name, help, kind, samples.push(sample)) == family(name, help, kind, samples)
            + sample_line(name, sample),
{
    assert(samples.push(sample).drop_last() == samples);
    let a = "# HELP "@ + name + " "@ + help + "\n# TYPE "@ + name + " "@ + kind + "\n"@;
    assert(a + (sample_lines(name, samples) + sample_line(name, sample)) == a + sample_lines(
        name,
        samples,
    ) + sample_line(name, sample));
}

fn single(name: &str, help: &str, kind: &str, labels: &str, value: u64) -> (r: String)
    ensures
        r@ == family(
            name@,
            help@,
            kind@,
            seq![Sample { labels: labels@, value: value as nat }],
        ),
{
    let mut out = head(name, help, kind);
    out.append(one_sample(name, labels, value).as_str());
    proof {
        let sample = Sample { labels: labels@, value: value as nat };
        lemma_one_more(name@, help@, kind@, Seq::empty(), sample);
        assert(Seq::<Sample>::empty().push(sample) == seq![sample]);
    }
    out
}

fn counter_text(name: &str, help: &str, value: u64) -> (r: String)
    ensures
        r@ == counter(name@, help@, value),
{
    proof {
        reveal_strlit("");
        assert(""@ == Seq::<char>::empty());
    }
    single(name, help, "counter", "", value)
}

fn phases_text(phases: &[(Phase, usize)]) -> (r: String)
    ensures
        r@ == family(
            "stormnetboot_hosts"@,
            "Hosts currently tracked, by boot phase."@,
            "gauge"@,
            phase_samples(phases@),
        ),
{
    let mut out = head("stormnetboot_hosts", "Hosts currently tracked, by boot phase.", "gauge");
    assert(phase_samples(phases@.take(0)) == Seq::<Sample>::empty());
    let mut i: usize = 0;
    while i < phases.len()
        invariant
            i <= phases@.len(),
            out@ == family(
                "stormnetboot_hosts"@,
                "Hosts currently tracked, by boot phase."@,
                "gauge"@,
                phase_samples(phases@.take(i as int)),
            ),
        decreases phases@.len() - i,
    {
        let (phase, count) = phases[i];
        let labels = label_text("phase", phase.slug());
        out.append(one_sample("stormnetboot_hosts", labels.as_str(), count as u64).as_str());
        proof {
            let sample = Sample { labels: labels@, value: count as nat };
            lemma_one_more(
                "stormnetboot_hosts"@,
                "Hosts currently tracked, by boot phase."@,
                "gauge"@,
                phase_samples(phases@.take(i as int)),
                sample,
            );
            assert(phase_samples(phases@.take(i as int)).push(sample) == phase_samples(
                phases@.take(i + 1),
            ));
        }
        i = i + 1;
    }
    assert(phases@.take(i as int) == phases@);
    out
}

fn records_text(hosts: HostCounts) -> (r: String)
    ensures
        r@ == family(
            "stormnetboot_host_records"@,
            "Host records held, by source layer."@,
            "gauge"@,
            record_samples(hosts),
        ),
{
    let file = label_text("source", "file");
    let kube = label_text("source", "boothost");
    let mut out = single(
        "stormnetboot_host_records",
        "Host records held, by source layer.",
        "gauge",
        file.as_str(),
        hosts.file as u64,
    );
    out.append(
        one_sample("stormnetboot_host_records", kube.as_str(), hosts.kube as u64).as_str(),
    );
    proof {
        let first = Sample { labels: file@, value: hosts.file as nat };
        let second = Sample { labels: kube@, value: hosts.kube as nat };
        lemma_one_more(
            "stormnetboot_host_records"@,
            "Host records held, by source layer."@,
            "gauge"@,
            seq![first],
            second,
        );
        assert(seq![first].push(second) == record_samples(hosts));
    }
    out
}

impl Metrics {
    /// One more. The counter wraps, as counters do.
    pub fn incr(counter: &mut u64)
        ensures
            *final(counter) == if *old(counter) == u64::MAX {
                0
            } else {
                (*old(counter) + 1) as u64
            },
    {
        *counter = counter.wrapping_add(1);
    }

    fn counters_text(&self) -> (r: String)
        ensures
            r@ == counters(*self),
    {
        let mut out = counter_text(
            "stormnetboot_requests_total",
            "Total HTTP requests served.",
            self.requests_total,
        );
        out.append(
            counter_text(
                "stormnetboot_boot_script_requests_total",
                "Rendered iPXE boot scripts served.",
                self.boot_script_requests,
            ).as_str(),
        );
        out.append(
            counter_text(
                "stormnetboot_asset_requests_total",
                "Boot asset requests (kernel, initramfs, ISO, iPXE binaries).",
                self.asset_requests,
            ).as_str(),
        );
        out.append(
            counter_text(
                "stormnetboot_not_found_total",
                "Requests that matched no route or asset.",
                self.not_found,
            ).as_str(),
        );
        out.append(
            counter_text(
                "stormnetboot_refused_total",
                "Boot requests refused (unknown host, or unparseable MAC).",
                self.refused,
            ).as_str(),
        );
        out.append(
            counter_text(
                "stormnetboot_claim_failures_total",
                "Failures claiming a per-host root volume.",
                self.claim_failures,
            ).as_str(),
        );
        out.append(
            counter_text(
                "stormnetboot_pallet_refreshes_total",
                "Boot pallet refreshes that changed what is served.",
                self.pallet_refreshes,
            ).as_str(),
        );
        out.append(
            counter_text(
                "stormnetboot_pallet_refresh_failures_total",
                "Failed attempts to refresh the boot pallet.",
                self.pallet_refresh_failures,
            ).as_str(),
        );
        out.append(
            counter_text(
                "stormnetboot_status_writes_total",
                "BootHost status subresource patches written.",
                self.status_writes,
            ).as_str(),
        );
        out.append(
            counter_text(
                "stormnetboot_status_write_failures_total",
                "Failed BootHost status patches.",
                self.status_write_failures,
            ).as_str(),
        );
        out.append(
            counter_text(
                "stormnetboot_watch_errors_total",
                "Errors returned by the BootHost watch.",
                self.watch_errors,
            ).as_str(),
        );
        out
    }

    pub fn render(&self, phases: &[(Phase, usize)], hosts: HostCounts) -> (r: String)
        ensures
            r@ == exposition(*self, phases@, hosts),
    {
        let version = label_text("version", VERSION);
        let mut out = single(
            "stormnetboot_build_info",
            "Build information.",
            "gauge",
            version.as_str(),
            1,
        );
        out.append(self.counters_text().as_str());
        out.append(phases_text(phases).as_str());
        out.append(records_text(hosts).as_str());
        proof {
            reveal_strlit("");
            assert(""@ == Seq::<char>::empty());
        }
        out.append(
            single(
                "stormnetboot_boothost_synced",
                "Whether the BootHost watch has listed the cluster.",
                "gauge",
                "",
                if hosts.kube_synced {
                    1
                } else {
                    0
                },
            ).as_str(),
        );
        out
    }
}

impl Default for Metrics {
    fn default() -> (r: Self)
        ensures
            r == (Metrics {
                requests_total: 0,
                boot_script_requests: 0,
                asset_requests: 0,
                not_found: 0,
                refused: 0,
                claim_failures: 0,
                pallet_refreshes: 0,
                pallet_refresh_failures: 0,
                status_writes: 0,
                status_write_failures: 0,
                watch_errors: 0,
            }),
    {
        Metrics {
            requests_total: 0,
            boot_script_requests: 0,
            asset_requests: 0,
            not_found: 0,
            refused: 0,
            claim_failures: 0,
            pallet_refreshes: 0,
            pallet_refresh_failures: 0,
            status_writes: 0,
            status_write_failures: 0,
            watch_errors: 0,
        }
    }
}

// ---------------------------------------------------------------------------
// Laws

/// Whether a page holds a line of its own with a series and a number, given what stands
/// in front of it, the number's digits and what stands behind it.
pub open spec fn stands(
    page: Seq<char>,
    series: Seq<char>,
    front: Seq<char>,
    digits: Seq<char>,
    back: Seq<char>,
) -> bool {
    &&& page == front + "\n"@ + series + " "@ + digits + "\n"@ + back
    &&& digits.len() > 0
    &&& text::all_digits(digits)
}

/// Whether a page shows a series at that value.
pub open spec fn shows(page: Seq<char>, series: Seq<char>, value: nat) -> bool {
    exists|front: Seq<char>, digits: Seq<char>, back: Seq<char>| #[trigger]
        stands(page, series, front, digits, back) && text::digits_value(digits) == value
}

/// What a part of a page shows, the page shows.
proof fn lemma_more(a: Seq<char>, b: Seq<char>)
    ensures
        forall|series: Seq<char>, value: nat|
            shows(a, series, value) || shows(b, series, value) ==> #[trigger] shows(
                a + b,
                series,
                value,
            ),
{
    assert forall|series: Seq<char>, value: nat|
        shows(a, series, value) || shows(b, series, value) implies #[trigger] shows(
        a + b,
        series,
        value,
    ) by {
        if shows(a, series, value) {
            let (f, d, k) = choose|f: Seq<char>, d: Seq<char>, k: Seq<char>| #[trigger]
                stands(a, series, f, d, k) && text::digits_value(d) == value;
            assert(a + b =~= f + "\n"@ + series + " "@ + d + "\n"@ + (k + b));
            assert(stands(a + b, series, f, d, k + b));
        } else {
            let (f, d, k) = choose|f: Seq<char>, d: Seq<char>, k: Seq<char>| #[trigger]
                stands(b, series, f, d, k) && text::digits_value(d) == value;
            assert(a + b =~= (a + f) + "\n"@ + series + " "@ + d + "\n"@ + k);
            assert(stands(a + b, series, a + f, d, k));
        }
    }
}

/// Every sample stands on a line of its own behind a line that ended.
proof fn lemma_samples(front: Seq<char>, name: Seq<char>, samples: Seq<Sample>)
    requires
        front.len() > 0,
        front.last() == '\n',
    ensures
        (front + sample_lines(name, samples)).last() == '\n',
        forall|i: int|
            0 <= i < samples.len() ==> shows(
                front + sample_lines(name, samples),
                name + (#[trigger] samples[i]).labels,
                samples[i].value,
            ),
    decreases samples.len(),
{
    reveal_strlit("\n");
    if samples.len() == 0 {
        assert(front + sample_lines(name, samples) =~= front);
    } else {
        let rest = samples.drop_last();
        let last = samples.last();
        lemma_samples(front, name, rest);
        let before = front + sample_lines(name, rest);
        let line = sample_line(name, last);
        let page = front + sample_lines(name, samples);
        assert(page =~= before + line);
        lemma_more(before, line);
        text::law_decimals_read_back(last.value, last.value);
        let d = text::dec(last.value);
        assert(before =~= before.drop_last() + "\n"@);
        assert(page =~= before.drop_last() + "\n"@ + (name + last.labels) + " "@ + d + "\n"@
            + Seq::<char>::empty());
        assert(stands(page, name + last.labels, before.drop_last(), d, Seq::<char>::empty()));
        assert forall|i: int| 0 <= i < samples.len() implies shows(
            page,
            name + (#[trigger] samples[i]).labels,
            samples[i].value,
        ) by {
            if i < rest.len() {
                assert(rest[i] == samples[i]);
                assert(shows(before + line, name + samples[i].labels, samples[i].value));
            }
        }
    }
}

proof fn lemma_family(name: Seq<char>, help: Seq<char>, kind: Seq<char>, samples: Seq<Sample>)
    ensures
        forall|i: int|
            0 <= i < samples.len() ==> shows(
                family(name, help, kind, samples),
                name + (#[trigger] samples[i]).labels,
                samples[i].value,
            ),
{
    reveal_strlit("\n");
    let front = "# HELP "@ + name + " "@ + help + "\n# TYPE "@ + name + " "@ + kind + "\n"@;
    lemma_samples(front, name, samples);
    assert(family(name, help, kind, samples) == front + sample_lines(name, samples));
}

proof fn lemma_counter(name: Seq<char>, help: Seq<char>, value: u64)
    ensures
        shows(counter(name, help, value), name, value as nat),
{
    let samples = plain(value as nat);
    lemma_family(name, help, "counter"@, samples);
    assert(name + samples[0].labels =~= name);
}

/// Every counter is on the page, on a line of its own, under its name and at its value.
pub proof fn law_every_counter_is_shown(m: Metrics, phases: Seq<(Phase, usize)>, hosts: HostCounts)
    ensures
        ({
            let page = exposition(m, phases, hosts);
            &&& shows(page, "stormnetboot_requests_total"@, m.requests_total as nat)
            &&& shows(page, "stormnetboot_boot_script_requests_total"@, m.boot_script_requests as nat)
            &&& shows(page, "stormnetboot_asset_requests_total"@, m.asset_requests as nat)
            &&& shows(page, "stormnetboot_not_found_total"@, m.not_found as nat)
            &&& shows(page, "stormnetboot_refused_total"@, m.refused as nat)
            &&& shows(page, "stormnetboot_claim_failures_total"@, m.claim_failures as nat)
            &&& shows(page, "stormnetboot_pallet_refreshes_total"@, m.pallet_refreshes as nat)
            &&& shows(page, "stormnetboot_pallet_refresh_failures_total"@, m.pallet_refresh_failures as nat)
            &&& shows(page, "stormnetboot_status_writes_total"@, m.status_writes as nat)
            &&& shows(page, "stormnetboot_status_write_failures_total"@, m.status_write_failures as nat)
            &&& shows(page, "stormnetboot_watch_errors_total"@, m.watch_errors as nat)
        }),
{
    lemma_counters(m);
    lemma_page(m, phases, hosts);
}

proof fn lemma_counters(m: Metrics)
    ensures
        shows(counters(m), "stormnetboot_requests_total"@, m.requests_total as nat),
        shows(counters(m), "stormnetboot_boot_script_requests_total"@, m.boot_script_requests as nat),
        shows(counters(m), "stormnetboot_asset_requests_total"@, m.asset_requests as nat),
        shows(counters(m), "stormnetboot_not_found_total"@, m.not_found as nat),
        shows(counters(m), "stormnetboot_refused_total"@, m.refused as nat),
        shows(counters(m), "stormnetboot_claim_failures_total"@, m.claim_failures as nat),
        shows(counters(m), "stormnetboot_pallet_refreshes_total"@, m.pallet_refreshes as nat),
        shows(counters(m), "stormnetboot_pallet_refresh_failures_total"@, m.pallet_refresh_failures as nat),
        shows(counters(m), "stormnetboot_status_writes_total"@, m.status_writes as nat),
        shows(counters(m), "stormnetboot_status_write_failures_total"@, m.status_write_failures as nat),
        shows(counters(m), "stormnetboot_watch_errors_total"@, m.watch_errors as nat),
{
    let c0 = counter(
        "stormnetboot_requests_total"@,
        "Total HTTP requests served."@,
        m.requests_total,
    );
    lemma_counter(
        "stormnetboot_requests_total"@,
        "Total HTTP requests served."@,
        m.requests_total,
    );
    let c1 = counter(
        "stormnetboot_boot_script_requests_total"@,
        "Rendered iPXE boot scripts served."@,
        m.boot_script_requests,
    );
    lemma_counter(
        "stormnetboot_boot_script_requests_total"@,
        "Rendered iPXE boot scripts served."@,
        m.boot_script_requests,
    );
    let c2 = counter(
        "stormnetboot_asset_requests_total"@,
        "Boot asset requests (kernel, initramfs, ISO, iPXE binaries)."@,
        m.asset_requests,
    );
    lemma_counter(
        "stormnetboot_asset_requests_total"@,
        "Boot asset requests (kernel, initramfs, ISO, iPXE binaries)."@,
        m.asset_requests,
    );
    let c3 = counter(
        "stormnetboot_not_found_total"@,
        "Requests that matched no route or asset."@,
        m.not_found,
    );
    lemma_counter(
        "stormnetboot_not_found_total"@,
        "Requests that matched no route or asset."@,
        m.not_found,
    );
    let c4 = counter(
        "stormnetboot_refused_total"@,
        "Boot requests refused (unknown host, or unparseable MAC)."@,
        m.refused,
    );
    lemma_counter(
        "stormnetboot_refused_total"@,
        "Boot requests refused (unknown host, or unparseable MAC)."@,
        m.refused,
    );
    let c5 = counter(
        "stormnetboot_claim_failures_total"@,
        "Failures claiming a per-host root volume."@,
        m.claim_failures,
    );
    lemma_counter(
        "stormnetboot_claim_failures_total"@,
        "Failures claiming a per-host root volume."@,
        m.claim_failures,
    );
    let c6 = counter(
        "stormnetboot_pallet_refreshes_total"@,
        "Boot pallet refreshes that changed what is served."@,
        m.pallet_refreshes,
    );
    lemma_counter(
        "stormnetboot_pallet_refreshes_total"@,
        "Boot pallet refreshes that changed what is served."@,
        m.pallet_refreshes,
    );
    let c7 = counter(
        "stormnetboot_pallet_refresh_failures_total"@,
        "Failed attempts to refresh the boot pallet."@,
        m.pallet_refresh_failures,
    );
    lemma_counter(
        "stormnetboot_pallet_refresh_failures_total"@,
        "Failed attempts to refresh the boot pallet."@,
        m.pallet_refresh_failures,
    );
    let c8 = counter(
        "stormnetboot_status_writes_total"@,
        "BootHost status subresource patches written."@,
        m.status_writes,
    );
    lemma_counter(
        "stormnetboot_status_writes_total"@,
        "BootHost status subresource patches written."@,
        m.status_writes,
    );
    let c9 = counter(
        "stormnetboot_status_write_failures_total"@,
        "Failed BootHost status patches."@,
        m.status_write_failures,
    );
    lemma_counter(
        "stormnetboot_status_write_failures_total"@,
        "Failed BootHost status patches."@,
        m.status_write_failures,
    );
    let c10 = counter(
        "stormnetboot_watch_errors_total"@,
        "Errors returned by the BootHost watch."@,
        m.watch_errors,
    );
    lemma_counter(
        "stormnetboot_watch_errors_total"@,
        "Errors returned by the BootHost watch."@,
        m.watch_errors,
    );
    let p1 = c0 + c1;
    lemma_more(c0, c1);
    let p2 = p1 + c2;
    lemma_more(p1, c2);
    let p3 = p2 + c3;
    lemma_more(p2, c3);
    let p4 = p3 + c4;
    lemma_more(p3, c4);
    let p5 = p4 + c5;
    lemma_more(p4, c5);
    let p6 = p5 + c6;
    lemma_more(p5, c6);
    let p7 = p6 + c7;
    lemma_more(p6, c7);
    let p8 = p7 + c8;
    lemma_more(p7, c8);
    let p9 = p8 + c9;
    lemma_more(p8, c9);
    let p10 = p9 + c10;
    lemma_more(p9, c10);
    assert(counters(m) == p10);
}

/// What the counters and the three families behind them show, the page shows.
proof fn lemma_page(m: Metrics, phases: Seq<(Phase, usize)>, hosts: HostCounts)
    ensures
        forall|series: Seq<char>, value: nat|
            shows(counters(m), series, value) ==> #[trigger] shows(
                exposition(m, phases, hosts),
                series,
                value,
            ),
        forall|i: int|
            0 <= i < phases.len() ==> shows(
                exposition(m, phases, hosts),
                "stormnetboot_hosts"@ + ("{"@ + "phase"@ + "=\""@ + (#[trigger] phases[i]).0.word()
                    + "\"}"@),
                phases[i].1 as nat,
            ),
        shows(
            exposition(m, phases, hosts),
            "stormnetboot_host_records"@ + ("{"@ + "source"@ + "=\""@ + "file"@ + "\"}"@),
            hosts.file as nat,
        ),
        shows(
            exposition(m, phases, hosts),
            "stormnetboot_host_records"@ + ("{"@ + "source"@ + "=\""@ + "boothost"@ + "\"}"@),
            hosts.kube as nat,
        ),
        shows(
            exposition(m, phases, hosts),
            "stormnetboot_boothost_synced"@,
            if hosts.kube_synced {
                1
            } else {
                0
            },
        ),
{
    let build = family(
        "stormnetboot_build_info"@,
        "Build information."@,
        "gauge"@,
        seq![Sample { labels: label("version"@, VERSION@), value: 1 }],
    );
    let one = family(
        "stormnetboot_hosts"@,
        "Hosts currently tracked, by boot phase."@,
        "gauge"@,
        phase_samples(phases),
    );
    let two = family(
        "stormnetboot_host_records"@,
        "Host records held, by source layer."@,
        "gauge"@,
        record_samples(hosts),
    );
    let synced: nat = if hosts.kube_synced {
        1
    } else {
        0
    };
    let three = family(
        "stormnetboot_boothost_synced"@,
        "Whether the BootHost watch has listed the cluster."@,
        "gauge"@,
        plain(synced),
    );
    lemma_family(
        "stormnetboot_hosts"@,
        "Hosts currently tracked, by boot phase."@,
        "gauge"@,
        phase_samples(phases),
    );
    lemma_family(
        "stormnetboot_host_records"@,
        "Host records held, by source layer."@,
        "gauge"@,
        record_samples(hosts),
    );
    lemma_family(
        "stormnetboot_boothost_synced"@,
        "Whether the BootHost watch has listed the cluster."@,
        "gauge"@,
        plain(synced),
    );
    lemma_more(build, counters(m));
    lemma_more(build + counters(m), one);
    lemma_more(build + counters(m) + one, two);
    lemma_more(build + counters(m) + one + two, three);
    let page = exposition(m, phases, hosts);
    assert(page == build + counters(m) + one + two + three);
    assert(record_samples(hosts)[0].labels == label("source"@, "file"@));
    assert(record_samples(hosts)[1].labels == label("source"@, "boothost"@));
    assert(plain(synced)[0].value == synced);
    assert("stormnetboot_boothost_synced"@ + plain(synced)[0].labels
        =~= "stormnetboot_boothost_synced"@);
    assert forall|i: int| 0 <= i < phases.len() implies shows(
        page,
        "stormnetboot_hosts"@ + ("{"@ + "phase"@ + "=\""@ + (#[trigger] phases[i]).0.word()
            + "\"}"@),
        phases[i].1 as nat,
    ) by {
        let s = phase_samples(phases)[i];
        assert(shows(one, "stormnetboot_hosts"@ + s.labels, s.value));
        assert(shows(build + counters(m) + one, "stormnetboot_hosts"@ + s.labels, s.value));
        assert(shows(build + counters(m) + one + two, "stormnetboot_hosts"@ + s.labels, s.value));
    }
}

/// The hosts in each phase are on the page under that phase's slug, and the records of each
/// layer under its name; whether the cluster was listed is 1 or 0.
pub proof fn law_hosts_and_records_are_shown(
    m: Metrics,
    phases: Seq<(Phase, usize)>,
    hosts: HostCounts,
    i: int,
)
    requires
        0 <= i < phases.len(),
    ensures
        ({
            let page = exposition(m, phases, hosts);
            &&& shows(
                page,
                "stormnetboot_hosts"@ + ("{"@ + "phase"@ + "=\""@ + phases[i].0.word() + "\"}"@),
                phases[i].1 as nat,
            )
            &&& shows(
                page,
                "stormnetboot_host_records"@ + ("{"@ + "source"@ + "=\""@ + "file"@ + "\"}"@),
                hosts.file as nat,
            )
            &&& shows(
                page,
                "stormnetboot_host_records"@ + ("{"@ + "source"@ + "=\""@ + "boothost"@ + "\"}"@),
                hosts.kube as nat,
            )
            &&& hosts.kube_synced ==> shows(page, "stormnetboot_boothost_synced"@, 1)
            &&& !hosts.kube_synced ==> shows(page, "stormnetboot_boothost_synced"@, 0)
        }),
{
    lemma_page(m, phases, hosts);
}

} // verus!
