//! What the two HTTP surfaces answer.
//!
//! The boot surface is what firmware touches and carries only what a booting
//! machine needs. The management surface carries the console feed, metrics and
//! host administration, and belongs on the other side of the network split.

use crate::server::claims;
use crate::server::claims::{ClaimClient, ClaimReply, ClaimRequest, ClaimResponse};
use crate::server::config::Config;
use crate::server::hosts::{HostRecord, HostStore, HostStoreView, UnknownHostPolicy};
use crate::server::ipxe;
use crate::server::ipxe::{BootPlan, PlanView};
use crate::server::mac;
use crate::server::mac::{Mac, MacParseError};
use crate::server::mac_map::MacMap;
use crate::server::metrics;
use crate::server::metrics::Metrics;
use crate::server::pallet::{AssetStatus, Refreshed};
use crate::server::state;
use crate::server::state::{BootState, HostStateView, Inventory, Phase};
use crate::strings;
use crate::text;
use vstd::prelude::*;
use vstd::string::StringExecFns;

verus! {

/// A response: its status code and its body.
#[derive(Debug, PartialEq, Eq)]
pub struct Reply {
    pub status: u16,
    pub body: String,
}

#[verifier::ext_equal]
pub struct ReplyView {
    pub status: u16,
    pub body: Seq<char>,
}

impl View for Reply {
    type V = ReplyView;

    open spec fn view(&self) -> ReplyView {
        ReplyView { status: self.status, body: self.body@ }
    }
}

#[derive(Debug)]
pub struct BootQuery {
    /// MAC of the booting host, as iPXE's `${net0/mac}`.
    pub mac: Option<String>,
}

/// A booting node telling where it got to.
///
/// This is how the phases past the asset fetch become visible at all: nothing
/// else can see a machine between `switch_root` and joining a cluster.
#[derive(Debug)]
pub struct ReportRequest {
    pub mac: String,
    pub phase: String,
    pub detail: Option<String>,
}

/// A node describing its own hardware.
#[derive(Debug)]
pub struct InventoryRequest {
    pub mac: String,
    pub hardware: Inventory,
}

pub struct AppState {
    pub cfg: Config,
    pub metrics: Metrics,
    pub hosts: HostStore,
    pub boot: BootState,
    pub assets: AssetStatus,
    pub claim_client: Option<ClaimClient>,
    /// Claims already made, by host.
    ///
    /// Firmware retries: a machine that times out fetching a kernel comes back
    /// and asks for its script again. Without this, every retry would mint
    /// another clone and leak it.
    pub claims: MacMap<ClaimResponse>,
}

/// A boot that waits for the registry's answer to a claim.
pub struct PendingBoot {
    pub mac: Option<Mac>,
    pub record: Option<HostRecord>,
    pub request: ClaimRequest,
}

/// What a request for a boot script leads to.
pub enum BootStep {
    /// Answer it.
    Answer(Reply),
    /// Claim a root volume for the host first.
    Claim(PendingBoot),
}

// ---------------------------------------------------------------------------
// Deciding on a boot

/// Whether a machine may boot, and as whom.
pub open spec fn admission(cfg: Config, hosts: HostStoreView, mac: Option<Mac>) -> Result<
    Option<HostRecord>,
    ReplyView,
> {
    let record = match mac {
        Some(m) => if hosts.records().contains_key(m) {
            Some(hosts.records()[m])
        } else {
            None
        },
        None => None,
    };
    match record {
        None => if cfg.unknown_hosts == UnknownHostPolicy::Deny {
            Err(
                ReplyView {
                    status: 403,
                    body:
                        "#!ipxe\n# this machine has no host record; refusing to boot it\nshell\n"@,
                },
            )
        } else {
            Ok(None)
        },
        Some(r) => if r.online {
            Ok(Some(r))
        } else {
            Err(
                ReplyView {
                    status: 403,
                    body: "#!ipxe\n# "@ + r.name@
                        + " is marked offline (spec.online=false); not booting it\nshell\n"@,
                },
            )
        },
    }
}

/// Which machine a boot query names.
pub open spec fn asked(mac: Option<Seq<char>>) -> Result<Option<Mac>, ReplyView> {
    match mac {
        None => Ok(None),
        Some(raw) => match mac::parsed(raw) {
            Ok(m) => Ok(Some(m)),
            Err(e) => Err(
                ReplyView {
                    status: 400,
                    body: "#!ipxe\n# malformed mac: "@ + e.says() + "\nshell\n"@,
                },
            ),
        },
    }
}

/// The plan for a host that boots from a claimed volume.
pub open spec fn claimed(plan: PlanView, claim: Option<ClaimResponse>) -> PlanView {
    match claim {
        None => plan,
        Some(c) => match c.attach {
            Some(a) => PlanView {
                portal: Some(a.address@),
                portal_port: a.port,
                nqn: Some(a.target@),
                nsid: a.nsid,
                volume: Some(c.volume_name@),
                ..plan
            },
            None => PlanView { volume: Some(c.volume_name@), ..plan },
        },
    }
}

/// The script a host is served.
pub open spec fn served(
    cfg: Config,
    mac: Option<Mac>,
    record: Option<HostRecord>,
    claim: Option<ClaimResponse>,
) -> ReplyView {
    ReplyView {
        status: 200,
        body: ipxe::script(cfg, claimed(ipxe::unclaimed(cfg, mac, record), claim)),
    }
}

/// What a host is told when no root volume could be claimed for it.
pub open spec fn unclaimable(why: Seq<char>) -> ReplyView {
    ReplyView {
        status: 503,
        body: "#!ipxe\n# could not claim a root volume: "@ + why + "\nshell\n"@,
    }
}

pub open spec fn bumped(n: u64) -> u64 {
    if n == u64::MAX {
        0
    } else {
        (n + 1) as u64
    }
}

/// What a boot leaves in the tracked hosts once its script went out: the pallet
/// version the host was served.
pub open spec fn versioned(
    hosts: Map<Mac, HostStateView>,
    mac: Option<Mac>,
    version: Option<Seq<char>>,
) -> Map<Mac, HostStateView> {
    match (mac, version) {
        (Some(m), Some(v)) => if hosts.contains_key(m) {
            hosts.insert(m, HostStateView { pallet_version: Some(v), ..hosts[m] })
        } else {
            hosts
        },
        _ => hosts,
    }
}

/// A phase report on a host, if it said who it is.
pub open spec fn noted(
    before: Map<Mac, HostStateView>,
    mac: Option<Mac>,
    phase: Phase,
    detail: Option<Seq<char>>,
    now: u64,
    after: Map<Mac, HostStateView>,
) -> bool {
    match mac {
        Some(m) => state::observed(before, m, phase, detail, now, after),
        None => after == before,
    }
}

/// Everything but the counters and the tracked hosts.
pub open spec fn otherwise_same(a: AppState, b: AppState) -> bool {
    &&& a.cfg == b.cfg
    &&& a.hosts@ == b.hosts@
    &&& a.assets == b.assets
    &&& a.claim_client == b.claim_client
    &&& a.claims@ == b.claims@
}

impl AppState {
    pub open spec fn wf(&self) -> bool {
        self.hosts.wf() && self.boot.wf() && self.claims.wf()
    }

    pub fn new(
        cfg: Config,
        hosts: HostStore,
        claim_client: Option<ClaimClient>,
        assets: AssetStatus,
    ) -> (r: Self)
        requires
            hosts.wf(),
        ensures
            r.wf(),
            r.cfg == cfg,
            r.hosts == hosts,
            r.claim_client == claim_client,
            r.assets == assets,
            r.boot@ == Map::<Mac, HostStateView>::empty(),
            r.claims@ == Map::<Mac, ClaimResponse>::empty(),
            r.metrics == (Metrics {
                requests_total: 0,
                boot_script_requests: 0,
                asset_requests: 0,
                not_found: 0,
                refused: 0,
                claim_failures: 0,
                pallet_refreshes: 0,
                pallet_refresh_failures: 0,
                status_writes: 0,
                status_write_failures: 0,
                watch_errors: 0,
            }),
    {
        AppState {
            cfg,
            metrics: Metrics::default(),
            hosts,
            boot: BootState::default(),
            assets,
            claim_client,
            claims: MacMap::new(),
        }
    }

    pub fn asset_status(&self) -> (r: AssetStatus)
        ensures
            r == self.assets,
    {
        self.assets.clone()
    }

    pub fn set_asset_status(&mut self, status: AssetStatus)
        ensures
            *final(self) == (AppState { assets: status, ..*old(self) }),
    {
        self.assets = status;
    }

    /// The clone this host is booting from, for the record's status.
    pub fn claim_id(&self, mac: &Mac) -> (r: Option<String>)
        requires
            self.claims.wf(),
        ensures
            r == if self.claims@.contains_key(*mac) {
                Some(self.claims@[*mac].id)
            } else {
                None
            },
    {
        match self.claims.get(mac) {
            Some(c) => Some(c.id.clone()),
            None => None,
        }
    }

    /// Whether the machine may boot.
    fn may_boot(&self, mac: Option<&Mac>) -> (r: Result<Option<HostRecord>, Reply>)
        requires
            self.wf(),
        ensures
            match r {
                Ok(record) => admission(
                    self.cfg,
                    self.hosts@,
                    match mac {
                        Some(m) => Some(*m),
                        None => None,
                    },
                ) == Ok::<Option<HostRecord>, ReplyView>(record),
                Err(reply) => admission(
                    self.cfg,
                    self.hosts@,
                    match mac {
                        Some(m) => Some(*m),
                        None => None,
                    },
                ) == Err::<Option<HostRecord>, ReplyView>(reply@),
            },
    {
        let record = match mac {
            Some(m) => self.hosts.lookup(m),
            None => None,
        };
        match record {
            None => {
                if self.cfg.unknown_hosts == UnknownHostPolicy::Deny {
                    Err(
                        Reply {
                            status: 403,
                            body:
                                "#!ipxe\n# this machine has no host record; refusing to boot it\nshell\n".to_owned(),
                        },
                    )
                } else {
                    Ok(None)
                }
            },
            Some(r) => {
                // A parked machine keeps its identity and does not boot. Refusing
                // here rather than deleting the record is what lets a host come
                // back from repair as itself.
                if r.online {
                    Ok(Some(r))
                } else {
                    let mut body = strings::concat("#!ipxe\n# ", r.name.as_str());
                    body.append(" is marked offline (spec.online=false); not booting it\nshell\n");
                    Err(Reply { status: 403, body })
                }
            },
        }
    }

    /// A request for a boot script.
    ///
    /// The machine is identified and admitted, and what it should boot from is
    /// found, as far as that takes no answer from the registry: `finish_boot`
    /// takes it from there.
    pub fn begin_boot(&mut self, query: &BootQuery, now: u64) -> (r: BootStep)
        requires
            old(self).wf(),
        ensures
            final(self).wf(),
            otherwise_same(*final(self), *old(self)),
            begun(*old(self), text::opt_text(query.mac), now, *final(self), r),
    {
        Metrics::incr(&mut self.metrics.boot_script_requests);
        let mac = match &query.mac {
            None => None,
            Some(raw) => match Mac::parse(raw.as_str()) {
                Ok(m) => Some(m),
                Err(err) => {
                    // A MAC we cannot parse is a client bug or a probe; refuse
                    // rather than silently serving a default boot to an
                    // unidentified machine.
                    Metrics::incr(&mut self.metrics.refused);
                    let mut body = strings::concat(
                        "#!ipxe\n# malformed mac: ",
                        err.message().as_str(),
                    );
                    body.append("\nshell\n");
                    return BootStep::Answer(Reply { status: 400, body });
                },
            },
        };
        let record = match self.may_boot(mac.as_ref()) {
            Ok(record) => record,
            Err(reply) => {
                Metrics::incr(&mut self.metrics.refused);
                return BootStep::Answer(reply);
            },
        };
        if let Some(m) = mac {
            self.boot.observe_at(m, Phase::ScriptFetched, None, now);
        }
        let ghost fetched = self.boot@;
        assert(noted(old(self).boot@, mac, Phase::ScriptFetched, None, now, fetched));
        if !self.cfg.claims_enabled() {
            let reply = self.serve(mac, &record, None);
            return BootStep::Answer(reply);
        }
        // Claim a per-host root volume, reusing an existing claim on retry.
        let golden = match &record {
            Some(h) => match &h.stack {
                Some(s) => Some(s.as_str()),
                None => None,
            },
            None => None,
        };
        let request = match &self.claim_client {
            Some(client) => client.request(mac.as_ref(), golden),
            None => {
                let reply = self.refuse_claim(mac, "claims are not configured", now);
                return BootStep::Answer(reply);
            },
        };
        if let Some(claim) = self.held_by(mac) {
            let reply = self.serve(mac, &record, Some(&claim));
            return BootStep::Answer(reply);
        }
        BootStep::Claim(PendingBoot { mac, record, request })
    }

    /// A boot whose turn to claim has come. Claims are made one at a time, so
    /// another request of the same machine may have claimed its volume meanwhile:
    /// that claim is reused, and nothing is asked of the registry.
    pub fn resume_boot(&mut self, pending: PendingBoot) -> (r: BootStep)
        requires
            old(self).wf(),
        ensures
            final(self).wf(),
            otherwise_same(*final(self), *old(self)),
            final(self).metrics == old(self).metrics,
            match held(old(self).claims@, pending.mac) {
                Some(claim) => {
                    &&& r matches BootStep::Answer(said)
                    &&& said@ == served(old(self).cfg, pending.mac, pending.record, Some(claim))
                    &&& final(self).boot@ == versioned(
                        old(self).boot@,
                        pending.mac,
                        old(self).assets@.version,
                    )
                },
                None => r == BootStep::Claim(pending) && final(self).boot@ == old(self).boot@,
            },
    {
        match self.held_by(pending.mac) {
            Some(claim) => {
                let reply = self.serve(pending.mac, &pending.record, Some(&claim));
                BootStep::Answer(reply)
            },
            None => BootStep::Claim(pending),
        }
    }

    /// The rest of a boot, once the registry has answered. A claim the machine
    /// already holds stays, and is what it is served: replacing it would leave the
    /// volume it may be running from without an owner.
    pub fn finish_boot(&mut self, pending: PendingBoot, reply: ClaimReply, now: u64) -> (r: Reply)
        requires
            old(self).wf(),
        ensures
            final(self).wf(),
            final(self).cfg == old(self).cfg,
            final(self).hosts@ == old(self).hosts@,
            final(self).assets == old(self).assets,
            final(self).claim_client == old(self).claim_client,
            match settled(old(self).claims@, pending, reply) {
                Ok(claim) => {
                    &&& r@ == served(old(self).cfg, pending.mac, pending.record, Some(claim))
                    &&& final(self).claims@ == kept(old(self).claims@, pending.mac, claim)
                    &&& final(self).metrics == old(self).metrics
                    &&& final(self).boot@ == versioned(
                        old(self).boot@,
                        pending.mac,
                        old(self).assets@.version,
                    )
                },
                Err(why) => {
                    &&& r@ == unclaimable(why)
                    &&& final(self).claims@ == old(self).claims@
                    &&& final(self).metrics == (Metrics {
                        claim_failures: bumped(old(self).metrics.claim_failures),
                        ..old(self).metrics
                    })
                    &&& noted(
                        old(self).boot@,
                        pending.mac,
                        Phase::Failed,
                        Some("claim failed: "@ + why),
                        now,
                        final(self).boot@,
                    )
                },
            },
    {
        if let Some(claim) = self.held_by(pending.mac) {
            assert(kept(self.claims@, pending.mac, claim) =~= self.claims@);
            return self.serve(pending.mac, &pending.record, Some(&claim));
        }
        match ClaimClient::claim(&pending.request, reply) {
            Ok(claim) => {
                if let Some(m) = pending.mac {
                    self.claims.insert(m, claim.clone());
                }
                self.serve(pending.mac, &pending.record, Some(&claim))
            },
            Err(why) => self.refuse_claim(pending.mac, why.as_str(), now),
        }
    }

    fn held_by(&self, mac: Option<Mac>) -> (r: Option<ClaimResponse>)
        requires
            self.wf(),
        ensures
            r == held(self.claims@, mac),
    {
        match mac {
            Some(m) => match self.claims.get(&m) {
                Some(claim) => Some(claim.clone()),
                None => None,
            },
            None => None,
        }
    }

    fn refuse_claim(&mut self, mac: Option<Mac>, why: &str, now: u64) -> (r: Reply)
        requires
            old(self).wf(),
        ensures
            final(self).wf(),
            otherwise_same(*final(self), *old(self)),
            r@ == unclaimable(why@),
            final(self).metrics == (Metrics {
                claim_failures: bumped(old(self).metrics.claim_failures),
                ..old(self).metrics
            }),
            noted(
                old(self).boot@,
                mac,
                Phase::Failed,
                Some("claim failed: "@ + why@),
                now,
                final(self).boot@,
            ),
    {
        Metrics::incr(&mut self.metrics.claim_failures);
        if let Some(m) = mac {
            self.boot.observe_at(
                m,
                Phase::Failed,
                Some(strings::concat("claim failed: ", why)),
                now,
            );
        }
        let mut body = strings::concat("#!ipxe\n# could not claim a root volume: ", why);
        body.append("\nshell\n");
        Reply { status: 503, body }
    }

    fn serve(
        &mut self,
        mac: Option<Mac>,
        record: &Option<HostRecord>,
        claim: Option<&ClaimResponse>,
    ) -> (r: Reply)
        requires
            old(self).wf(),
        ensures
            final(self).wf(),
            otherwise_same(*final(self), *old(self)),
            final(self).metrics == old(self).metrics,
            r@ == served(
                old(self).cfg,
                mac,
                *record,
                match claim {
                    Some(c) => Some(*c),
                    None => None,
                },
            ),
            final(self).boot@ == versioned(old(self).boot@, mac, old(self).assets@.version),
    {
        let body = {
            let mut plan = BootPlan::resolve(&self.cfg, mac.as_ref(), record.as_ref());
            let ghost before = plan@;
            if let Some(c) = claim {
                if let Some(attach) = &c.attach {
                    plan.portal = Some(attach.address.as_str());
                    plan.portal_port = attach.port;
                    plan.nqn = Some(attach.target.as_str());
                    plan.nsid = attach.nsid;
                }
                plan.volume = Some(c.volume_name.as_str());
            }
            assert(plan@ =~= claimed(
                before,
                match claim {
                    Some(c) => Some(*c),
                    None => None,
                },
            ));
            ipxe::render(&self.cfg, &plan)
        };
        if let Some(m) = mac {
            if let Some(version) = strings::clone_opt(&self.assets.version) {
                self.boot.set_pallet_version(&m, version.as_str());
            }
        }
        Reply { status: 200, body }
    }

    /// A booting node telling where it got to.
    pub fn report(&mut self, req: ReportRequest, now: u64) -> (r: Reply)
        requires
            old(self).wf(),
        ensures
            final(self).wf(),
            otherwise_same(*final(self), *old(self)),
            final(self).metrics == old(self).metrics,
            match mac::parsed(req.mac@) {
                Err(e) => r@ == bad_mac(e) && final(self).boot@ == old(self).boot@,
                Ok(m) => match phase_named(req.phase@) {
                    None => r@ == (ReplyView {
                        status: 400,
                        body: "unknown phase "@ + strings::debug_text(req.phase@) + "\n"@,
                    }) && final(self).boot@ == old(self).boot@,
                    Some(phase) => r@ == recorded() && state::observed(
                        old(self).boot@,
                        m,
                        phase,
                        text::opt_text(req.detail),
                        now,
                        final(self).boot@,
                    ),
                },
            },
    {
        let mac = match Mac::parse(req.mac.as_str()) {
            Ok(m) => m,
            Err(err) => return refuse_mac(err),
        };
        match parse_phase(req.phase.as_str()) {
            None => {
                let mut body = strings::concat(
                    "unknown phase ",
                    strings::debug(req.phase.as_str()).as_str(),
                );
                body.append("\n");
                Reply { status: 400, body }
            },
            Some(phase) => {
                self.boot.observe_at(mac, phase, req.detail, now);
                Reply { status: 202, body: "recorded\n".to_owned() }
            },
        }
    }

    /// A node describing its own hardware.
    pub fn inventory(&mut self, req: InventoryRequest, now: u64) -> (r: Reply)
        requires
            old(self).wf(),
        ensures
            final(self).wf(),
            otherwise_same(*final(self), *old(self)),
            final(self).metrics == old(self).metrics,
            match mac::parsed(req.mac@) {
                Err(e) => r@ == bad_mac(e) && final(self).boot@ == old(self).boot@,
                Ok(m) => r@ == recorded() && state::described(
                    old(self).boot@,
                    m,
                    req.hardware@,
                    now,
                    final(self).boot@,
                ),
            },
    {
        match Mac::parse(req.mac.as_str()) {
            Ok(m) => {
                self.boot.set_inventory_at(&m, req.hardware, now);
                Reply { status: 202, body: "recorded\n".to_owned() }
            },
            Err(err) => refuse_mac(err),
        }
    }

    /// Counts a request on the boot surface, before it is answered.
    pub fn count_request(&mut self, path: &str)
        ensures
            *final(self) == (AppState {
                metrics: Metrics {
                    requests_total: bumped(old(self).metrics.requests_total),
                    asset_requests: if text::starts_with(path@, "/boot/"@) {
                        bumped(old(self).metrics.asset_requests)
                    } else {
                        old(self).metrics.asset_requests
                    },
                    ..old(self).metrics
                },
                ..*old(self)
            }),
    {
        Metrics::incr(&mut self.metrics.requests_total);
        if strings::starts_with(path, "/boot/") {
            Metrics::incr(&mut self.metrics.asset_requests);
        }
    }

    /// Counts the answer.
    pub fn count_response(&mut self, status: u16)
        ensures
            *final(self) == (AppState {
                metrics: Metrics {
                    not_found: if status == 404 {
                        bumped(old(self).metrics.not_found)
                    } else {
                        old(self).metrics.not_found
                    },
                    ..old(self).metrics
                },
                ..*old(self)
            }),
    {
        if status == 404 {
            Metrics::incr(&mut self.metrics.not_found);
        }
    }

    /// What came of asking the registry for a new boot pallet. A refresh that
    /// failed never takes a working boot tier down: what is served stays.
    pub fn settle_refresh(&mut self, outcome: Result<Refreshed, String>)
        ensures
            *final(self) == match outcome {
                Ok(done) => AppState {
                    assets: done.status,
                    metrics: Metrics {
                        pallet_refreshes: if done.changed {
                            bumped(old(self).metrics.pallet_refreshes)
                        } else {
                            old(self).metrics.pallet_refreshes
                        },
                        ..old(self).metrics
                    },
                    ..*old(self)
                },
                Err(_) => AppState {
                    metrics: Metrics {
                        pallet_refresh_failures: bumped(
                            old(self).metrics.pallet_refresh_failures,
                        ),
                        ..old(self).metrics
                    },
                    ..*old(self)
                },
            },
    {
        match outcome {
            Ok(done) => {
                if done.changed {
                    Metrics::incr(&mut self.metrics.pallet_refreshes);
                }
                self.assets = done.status;
            },
            Err(_) => Metrics::incr(&mut self.metrics.pallet_refresh_failures),
        }
    }

    /// The metrics page.
    pub fn metrics_page(&self) -> (r: String)
        requires
            self.wf(),
        ensures
            r@ == metrics::exposition(
                self.metrics,
                state::counted(self.boot.in_sequence(), state::all_phases()),
                self.hosts@.tally(),
            ),
    {
        let phases = self.boot.phase_counts();
        self.metrics.render(phases.as_slice(), self.hosts.counts())
    }
}

pub open spec fn bad_mac(e: MacParseError) -> ReplyView {
    ReplyView { status: 400, body: "bad mac: "@ + e.says() + "\n"@ }
}

pub open spec fn recorded() -> ReplyView {
    ReplyView { status: 202, body: "recorded\n"@ }
}

fn refuse_mac(err: MacParseError) -> (r: Reply)
    ensures
        r@ == bad_mac(err),
{
    let mut body = strings::concat("bad mac: ", err.message().as_str());
    body.append("\n");
    Reply { status: 400, body }
}

/// A phase name in the one spelling, whatever spelling a client sent.
pub open spec fn phase_word(raw: Seq<char>) -> Seq<char> {
    text::replace(text::to_lower(text::trim(raw)), '_', '-')
}

pub open spec fn phase_named(raw: Seq<char>) -> Option<Phase> {
    if phase_word(raw) == Phase::ScriptFetched.word() {
        Some(Phase::ScriptFetched)
    } else if phase_word(raw) == Phase::AssetsFetched.word() {
        Some(Phase::AssetsFetched)
    } else if phase_word(raw) == Phase::RootAttached.word() {
        Some(Phase::RootAttached)
    } else if phase_word(raw) == Phase::Running.word() {
        Some(Phase::Running)
    } else if phase_word(raw) == Phase::Assimilating.word() {
        Some(Phase::Assimilating)
    } else if phase_word(raw) == Phase::Local.word() {
        Some(Phase::Local)
    } else if phase_word(raw) == Phase::Failed.word() {
        Some(Phase::Failed)
    } else {
        None
    }
}

pub fn parse_phase(raw: &str) -> (r: Option<Phase>)
    ensures
        r == phase_named(raw@),
{
    let trimmed = strings::trim(raw);
    let small = strings::to_lower(trimmed.as_str());
    let word = strings::replace(small.as_str(), '_', '-');
    let word = word.as_str();
    if strings::eq(word, "script-fetched") {
        Some(Phase::ScriptFetched)
    } else if strings::eq(word, "assets-fetched") {
        Some(Phase::AssetsFetched)
    } else if strings::eq(word, "root-attached") {
        Some(Phase::RootAttached)
    } else if strings::eq(word, "running") {
        Some(Phase::Running)
    } else if strings::eq(word, "assimilating") {
        Some(Phase::Assimilating)
    } else if strings::eq(word, "local") {
        Some(Phase::Local)
    } else if strings::eq(word, "failed") {
        Some(Phase::Failed)
    } else {
        None
    }
}

/// Whether a machine could boot from here: it cannot without a kernel and an
/// initramfs.
pub fn readyz(kernel: bool, initramfs: bool) -> (r: Reply)
    ensures
        r@ == if kernel && initramfs {
            ReplyView { status: 200, body: "ready\n"@ }
        } else {
            ReplyView {
                status: 503,
                body: "missing boot assets: "@ + text::join(
                    (if kernel {
                        Seq::empty()
                    } else {
                        seq!["vmlinuz"@]
                    }) + (if initramfs {
                        Seq::empty()
                    } else {
                        seq!["initramfs.img"@]
                    }),
                    ", "@,
                ) + "\n"@,
            }
        },
{
    if kernel && initramfs {
        return Reply { status: 200, body: "ready\n".to_owned() };
    }
    let mut missing: Vec<String> = Vec::new();
    if !kernel {
        missing.push("vmlinuz".to_owned());
    }
    if !initramfs {
        missing.push("initramfs.img".to_owned());
    }
    assert(text::texts(missing@) =~= (if kernel {
        Seq::empty()
    } else {
        seq!["vmlinuz"@]
    }) + (if initramfs {
        Seq::empty()
    } else {
        seq!["initramfs.img"@]
    }));
    let mut body = strings::concat(
        "missing boot assets: ",
        strings::join(&missing, ", ").as_str(),
    );
    body.append("\n");
    Reply { status: 503, body }
}

/// What `begin_boot` does with a request at `now`.
pub open spec fn begun(
    before: AppState,
    mac: Option<Seq<char>>,
    now: u64,
    after: AppState,
    step: BootStep,
) -> bool {
    let counted = Metrics {
        boot_script_requests: bumped(before.metrics.boot_script_requests),
        ..before.metrics
    };
    let refused = Metrics { refused: bumped(before.metrics.refused), ..counted };
    match asked(mac) {
        Err(reply) => refuses(before, after, refused, step, reply),
        Ok(m) => match admission(before.cfg, before.hosts@, m) {
            Err(reply) => refuses(before, after, refused, step, reply),
            Ok(record) => exists|fetched: Map<Mac, HostStateView>| #[trigger]
                noted(before.boot@, m, Phase::ScriptFetched, None, now, fetched) && proceeds(
                    before,
                    m,
                    record,
                    now,
                    fetched,
                    counted,
                    after,
                    step,
                ),
        },
    }
}

/// The claim a machine holds. One that was not identified holds none.
pub open spec fn held(claims: Map<Mac, ClaimResponse>, mac: Option<Mac>) -> Option<ClaimResponse> {
    match mac {
        Some(m) => if claims.contains_key(m) {
            Some(claims[m])
        } else {
            None
        },
        None => None,
    }
}

/// The claim a boot ends with: the one the machine holds, or else what the
/// registry answered.
pub open spec fn settled(
    claims: Map<Mac, ClaimResponse>,
    pending: PendingBoot,
    reply: ClaimReply,
) -> Result<ClaimResponse, Seq<char>> {
    match held(claims, pending.mac) {
        Some(claim) => Ok(claim),
        None => claims::outcome(pending.request, reply),
    }
}

/// The claims once a machine has its own.
pub open spec fn kept(
    claims: Map<Mac, ClaimResponse>,
    mac: Option<Mac>,
    claim: ClaimResponse,
) -> Map<Mac, ClaimResponse> {
    match mac {
        Some(m) => claims.insert(m, claim),
        None => claims,
    }
}

/// The machine is turned away: nothing is tracked of it.
pub open spec fn refuses(
    before: AppState,
    after: AppState,
    refused: Metrics,
    step: BootStep,
    reply: ReplyView,
) -> bool {
    &&& step matches BootStep::Answer(said)
    &&& said@ == reply
    &&& after.metrics == refused
    &&& after.boot@ == before.boot@
}

/// The machine is admitted, its fetch is tracked as `fetched`, and it is served,
/// told that there is no volume for it, or made to wait for a claim.
pub open spec fn proceeds(
    before: AppState,
    mac: Option<Mac>,
    record: Option<HostRecord>,
    now: u64,
    fetched: Map<Mac, HostStateView>,
    counted: Metrics,
    after: AppState,
    step: BootStep,
) -> bool {
    if !before.cfg.claims() {
        answers(before, mac, record, None, fetched, counted, after, step)
    } else if before.claim_client is None {
        &&& step matches BootStep::Answer(said)
        &&& said@ == unclaimable("claims are not configured"@)
        &&& after.metrics == (Metrics { claim_failures: bumped(counted.claim_failures), ..counted })
        &&& noted(
            fetched,
            mac,
            Phase::Failed,
            Some("claim failed: "@ + "claims are not configured"@),
            now,
            after.boot@,
        )
    } else if mac is Some && before.claims@.contains_key(mac->0) {
        answers(
            before,
            mac,
            record,
            Some(before.claims@[mac->0]),
            fetched,
            counted,
            after,
            step,
        )
    } else {
        &&& step matches BootStep::Claim(pending)
        &&& pending.mac == mac
        &&& pending.record == record
        &&& asks_for(before.claim_client->0, mac, record, pending.request)
        &&& after.metrics == counted
        &&& after.boot@ == fetched
    }
}

/// The request for a host's clone: of the stack its record names, or else of the
/// golden every host boots.
pub open spec fn asks_for(
    client: ClaimClient,
    mac: Option<Mac>,
    record: Option<HostRecord>,
    request: ClaimRequest,
) -> bool {
    &&& request.url@ == client.base() + "/v1/clones/claim"@
    &&& request.golden@ == match record {
        Some(r) => match r.stack {
            Some(s) => s@,
            None => client.fallback(),
        },
        None => client.fallback(),
    }
    &&& text::opt_text(request.consumer) == match mac {
        Some(m) => Some(mac::canonical(m@)),
        None => None,
    }
}

pub open spec fn answers(
    before: AppState,
    mac: Option<Mac>,
    record: Option<HostRecord>,
    claim: Option<ClaimResponse>,
    fetched: Map<Mac, HostStateView>,
    counted: Metrics,
    after: AppState,
    step: BootStep,
) -> bool {
    &&& step matches BootStep::Answer(said)
    &&& said@ == served(before.cfg, mac, record, claim)
    &&& after.metrics == counted
    &&& after.boot@ == versioned(fetched, mac, before.assets@.version)
}

// ---------------------------------------------------------------------------
// Laws

/// A machine that already holds a claim never has another one made for it,
/// however often its firmware asks.
pub proof fn law_a_retry_reuses_the_claim(
    before: AppState,
    mac: Option<Seq<char>>,
    now: u64,
    after: AppState,
    step: BootStep,
)
    requires
        begun(before, mac, now, after, step),
        asked(mac) is Ok,
        (asked(mac)->Ok_0) is Some,
        before.claims@.contains_key((asked(mac)->Ok_0)->0),
    ensures
        step is Answer,
{
}

/// A retry that arrives while the first claim is out reuses it all the same: once
/// the first request has its claim, the second one is served that claim, whatever
/// the registry answers it, and the machine holds no other.
pub proof fn law_a_retry_in_flight_reuses_the_claim(
    claims: Map<Mac, ClaimResponse>,
    mac: Mac,
    first: PendingBoot,
    first_reply: ClaimReply,
    second: PendingBoot,
    second_reply: ClaimReply,
)
    requires
        first.mac == Some(mac),
        second.mac == Some(mac),
        settled(claims, first, first_reply) is Ok,
    ensures
        ({
            let claim = settled(claims, first, first_reply)->Ok_0;
            let after = kept(claims, Some(mac), claim);
            &&& held(after, Some(mac)) == Some(claim)
            &&& settled(after, second, second_reply) == Ok::<ClaimResponse, Seq<char>>(claim)
            &&& kept(after, Some(mac), claim) == after
        }),
{
    let claim = settled(claims, first, first_reply)->Ok_0;
    let after = kept(claims, Some(mac), claim);
    assert(kept(after, Some(mac), claim) =~= after);
}

/// A machine whose address cannot be read, that is unknown where unknown machines
/// are denied, or that is parked, is told so and leaves no trace in the tracked
/// hosts; nothing is claimed for it.
pub proof fn law_a_refused_machine_is_not_tracked(
    before: AppState,
    mac: Option<Seq<char>>,
    now: u64,
    after: AppState,
    step: BootStep,
)
    requires
        begun(before, mac, now, after, step),
        asked(mac) is Err || admission(before.cfg, before.hosts@, asked(mac)->Ok_0) is Err,
    ensures
        after.boot@ == before.boot@,
        after.metrics.refused == bumped(before.metrics.refused),
        step matches BootStep::Answer(said) && (said@.status == 400 || said@.status == 403),
{
}

/// A host that is parked is refused, and one that is not known is refused exactly
/// where the policy denies it.
pub proof fn law_who_may_boot(cfg: Config, hosts: HostStoreView, mac: Mac)
    ensures
        hosts.records().contains_key(mac) ==> (admission(cfg, hosts, Some(mac)) is Ok
            <==> hosts.records()[mac].online),
        !hosts.records().contains_key(mac) ==> (admission(cfg, hosts, Some(mac)) is Ok
            <==> cfg.unknown_hosts == UnknownHostPolicy::Allow),
{
}

/// A phase that is written in its one spelling is read as that phase.
pub proof fn law_slugs_read_back(phase: Phase, raw: Seq<char>)
    requires
        phase_word(raw) == phase.word(),
    ensures
        phase_named(raw) == Some(phase),
{
    state::law_every_phase_has_a_distinct_slug(phase, Phase::ScriptFetched);
    state::law_every_phase_has_a_distinct_slug(phase, Phase::AssetsFetched);
    state::law_every_phase_has_a_distinct_slug(phase, Phase::RootAttached);
    state::law_every_phase_has_a_distinct_slug(phase, Phase::Running);
    state::law_every_phase_has_a_distinct_slug(phase, Phase::Assimilating);
    state::law_every_phase_has_a_distinct_slug(phase, Phase::Local);
    state::law_every_phase_has_a_distinct_slug(phase, Phase::Failed);
}

/// A claim is asked for by name: the URL is the registry's own, the consumer reads back
/// as the machine that boots, and the golden is the stack its record names or else the
/// one that every host boots.
pub proof fn law_a_claim_names_the_machine(
    client: ClaimClient,
    mac: Option<Mac>,
    record: Option<HostRecord>,
    request: ClaimRequest,
)
    requires
        asks_for(client, mac, record, request),
        mac is Some ==> mac->0.valid(),
    ensures
        mac is Some <==> request.consumer is Some,
        mac is Some ==> mac::parsed(request.consumer->0@) == Ok::<Mac, MacParseError>(mac->0),
        record is Some && record->0.stack is Some ==> request.golden@ == record->0.stack->0@,
        record is None || record->0.stack is None ==> request.golden@ == client.fallback(),
        request.url@ == client.base() + "/v1/clones/claim"@,
{
    if let Some(m) = mac {
        mac::law_text_reads_back(m);
    }
}

/// A request for a boot script is counted as one, whatever comes of it. A machine that is
/// turned away is counted among the refused and no other is; no other counter moves but
/// that of the failed claims, and that one only where nothing can be claimed from.
pub proof fn law_a_boot_request_is_counted_once(
    before: AppState,
    mac: Option<Seq<char>>,
    now: u64,
    after: AppState,
    step: BootStep,
)
    requires
        begun(before, mac, now, after, step),
        before.metrics.boot_script_requests < u64::MAX,
        before.metrics.refused < u64::MAX,
        before.metrics.claim_failures < u64::MAX,
    ensures
        after.metrics.boot_script_requests == before.metrics.boot_script_requests + 1,
        after.metrics.refused == before.metrics.refused + if asked(mac) is Err || admission(
            before.cfg,
            before.hosts@,
            asked(mac)->Ok_0,
        ) is Err {
            1int
        } else {
            0
        },
        after.metrics.claim_failures == before.metrics.claim_failures || (
        after.metrics.claim_failures == before.metrics.claim_failures + 1
            && before.claim_client is None),
        after.metrics.requests_total == before.metrics.requests_total,
        after.metrics.asset_requests == before.metrics.asset_requests,
        after.metrics.not_found == before.metrics.not_found,
        after.metrics.pallet_refreshes == before.metrics.pallet_refreshes,
        after.metrics.pallet_refresh_failures == before.metrics.pallet_refresh_failures,
        after.metrics.status_writes == before.metrics.status_writes,
        after.metrics.status_write_failures == before.metrics.status_write_failures,
        after.metrics.watch_errors == before.metrics.watch_errors,
{
}

/// A machine that is admitted is tracked from then on: one that was not known is in the
/// first phase, unless nothing could be claimed for it. Whoever else is tracked stays as
/// it is while there is room.
pub proof fn law_an_admitted_machine_is_tracked(
    before: AppState,
    mac: Seq<char>,
    m: Mac,
    now: u64,
    after: AppState,
    step: BootStep,
    other: Mac,
)
    requires
        begun(before, Some(mac), now, after, step),
        mac::parsed(mac) == Ok::<Mac, MacParseError>(m),
        admission(before.cfg, before.hosts@, Some(m)) is Ok,
        before.boot@.dom().finite(),
        before.boot@.dom().len() < 20_000,
    ensures
        after.boot@.contains_key(m),
        !before.boot@.contains_key(m) ==> after.boot@[m].first_seen_unix == now && (
        after.boot@[m].phase == Phase::ScriptFetched || (after.boot@[m].phase == Phase::Failed
            && before.claim_client is None)),
        before.boot@.contains_key(m) ==> after.boot@[m].phase.rank()
            >= before.boot@[m].phase.rank(),
        step matches BootStep::Answer(said) && said@.status == 200 && before.assets@.version is Some
            ==> after.boot@[m].pallet_version == before.assets@.version,
        other != m && before.boot@.contains_key(other) && (before.boot@.contains_key(m)
            || before.boot@.dom().len() < 19_999) ==> after.boot@.contains_key(other)
            && after.boot@[other] == before.boot@[other],
{
}

/// What a machine is turned away with starts like a script and drops to a shell: it says
/// what is wrong with the address, or that the machine is unknown, or which host is
/// parked. Nothing is ever served to one whose address cannot be read.
pub proof fn law_a_refusal_is_a_script(cfg: Config, hosts: HostStoreView, raw: Seq<char>, m: Mac)
    ensures
        asked(None) == Ok::<Option<Mac>, ReplyView>(None),
        asked(Some(raw)) is Ok <==> mac::parsed(raw) is Ok,
        mac::parsed(raw) is Ok ==> asked(Some(raw))->Ok_0 == Some(mac::parsed(raw)->Ok_0),
        mac::parsed(raw) is Err ==> asked(Some(raw))->Err_0.status == 400 && asked(
            Some(raw),
        )->Err_0.body == "#!ipxe\n# malformed mac: "@ + mac::parsed(raw)->Err_0.says()
            + "\nshell\n"@,
        admission(cfg, hosts, Some(m)) is Err ==> admission(cfg, hosts, Some(m))->Err_0.status
            == 403,
        admission(cfg, hosts, Some(m)) is Err && hosts.records().contains_key(m) ==> exists|
            front: Seq<char>,
            back: Seq<char>,
        |
            admission(cfg, hosts, Some(m))->Err_0.body == #[trigger] (front
                + hosts.records()[m].name@ + back),
        admission(cfg, hosts, Some(m)) is Ok ==> admission(cfg, hosts, Some(m))->Ok_0
            == if hosts.records().contains_key(m) {
            Some(hosts.records()[m])
        } else {
            None
        },
        admission(cfg, hosts, None) is Ok <==> cfg.unknown_hosts != UnknownHostPolicy::Deny,
{
    if hosts.records().contains_key(m) && !hosts.records()[m].online {
        let front = "#!ipxe\n# "@;
        let back = " is marked offline (spec.online=false); not booting it\nshell\n"@;
        assert(admission(cfg, hosts, Some(m))->Err_0.body == front + hosts.records()[m].name@
            + back);
    }
}

/// Where the server claims volumes, no machine is served without one of its own: it gets
/// the claim it holds or has to wait for one. Where it does not, every machine is served
/// at once.
pub proof fn law_a_claiming_server_serves_claims(
    before: AppState,
    mac: Option<Seq<char>>,
    now: u64,
    after: AppState,
    step: BootStep,
)
    requires
        begun(before, mac, now, after, step),
        asked(mac) is Ok,
        admission(before.cfg, before.hosts@, asked(mac)->Ok_0) is Ok,
    ensures
        ({
            let who = asked(mac)->Ok_0;
            let holds = who is Some && before.claims@.contains_key(who->0);
            &&& step is Claim <==> before.cfg.claims() && before.claim_client is Some && !holds
            &&& step matches BootStep::Claim(pending) ==> pending.mac == who && pending.record
                == admission(before.cfg, before.hosts@, who)->Ok_0
            &&& step matches BootStep::Answer(said) ==> (said@.status == 503
                <==> before.cfg.claims() && before.claim_client is None)
        }),
{
}

/// A slug is read as its phase, with underscores for its hyphens too, and with white
/// space around it; and only the seven slugs are read at all.
pub proof fn law_a_phase_is_read_by_its_slug(phase: Phase, raw: Seq<char>, white: char)
    requires
        text::is_white(white),
    ensures
        phase_named(phase.word()) == Some(phase),
        phase_named(text::replace(phase.word(), '-', '_')) == Some(phase),
        phase_named(seq![white] + raw) == phase_named(raw),
        phase_named(raw + seq![white]) == phase_named(raw),
        phase_named(raw) is Some ==> text::replace(text::to_lower(text::trim(raw)), '_', '-')
            == phase_named(raw)->0.word(),
{
    reveal_strlit("script-fetched");
    reveal_strlit("assets-fetched");
    reveal_strlit("root-attached");
    reveal_strlit("running");
    reveal_strlit("assimilating");
    reveal_strlit("local");
    reveal_strlit("failed");
    let word = phase.word();
    let under = text::replace(word, '-', '_');
    assert(text::is_trimmed(word) && text::is_trimmed(under));
    text::law_trimmed(word);
    text::law_trimmed(under);
    assert(forall|i: int| 0 <= i < word.len() ==> 'a' <= #[trigger] word[i] <= 'z' || word[i] == '-');
    assert(phase_word(word) =~= word);
    assert(phase_word(under) =~= word);
    law_slugs_read_back(phase, word);
    law_slugs_read_back(phase, under);
    text::law_white_space_around_is_trimmed(raw, white);
}

/// A claim that a machine holds is the one it keeps, and no other machine's is touched.
pub proof fn law_claims_are_each_machines_own(
    claims: Map<Mac, ClaimResponse>,
    mac: Mac,
    claim: ClaimResponse,
    other: Mac,
)
    ensures
        held(kept(claims, Some(mac), claim), Some(mac)) == Some(claim),
        other != mac ==> held(kept(claims, Some(mac), claim), Some(other)) == held(
            claims,
            Some(other),
        ),
        kept(claims, None, claim) == claims,
        held(claims, None) is None,
        held(claims, Some(other)) is Some <==> claims.contains_key(other),
{
}

/// What a failed claim is answered with carries the reason, and is no script that boots.
pub proof fn law_an_unclaimed_machine_is_told_why(why: Seq<char>)
    ensures
        unclaimable(why).status == 503,
        unclaimable(why).body == "#!ipxe\n# could not claim a root volume: "@ + why
            + "\nshell\n"@,
{
}

/// A served machine's entry names the version it was served, and says all else that it
/// said; no other entry changes, and none comes or goes.
pub proof fn law_a_version_is_noted_with_its_host(
    hosts: Map<Mac, HostStateView>,
    mac: Mac,
    version: Seq<char>,
    other: Mac,
)
    ensures
        versioned(hosts, Some(mac), Some(version)).dom() == hosts.dom(),
        hosts.contains_key(mac) ==> ({
            let now = versioned(hosts, Some(mac), Some(version))[mac];
            &&& now.pallet_version == Some(version)
            &&& now.phase == hosts[mac].phase
            &&& now.detail == hosts[mac].detail
            &&& now.hardware == hosts[mac].hardware
            &&& now.updated_unix == hosts[mac].updated_unix
            &&& now.first_seen_unix == hosts[mac].first_seen_unix
        }),
        other != mac && hosts.contains_key(other) ==> versioned(hosts, Some(mac), Some(version))[other]
            == hosts[other],
        versioned(hosts, None, Some(version)) == hosts,
        versioned(hosts, Some(mac), None) == hosts,
{
    assert(versioned(hosts, Some(mac), Some(version)).dom() =~= hosts.dom());
}

} // verus!
