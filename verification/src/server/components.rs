//! stormview component feed.
//!
//! The wire contract is stormview's `ComponentSummary`. `kind` is a grouping
//! noun, not an enum: renderers must not exhaust-match on it, so adding kinds
//! here is safe.

use crate::server::mac;
use crate::server::pallet::{AssetStatus, AssetStatusView};
use crate::server::state;
use crate::server::state::{BootState, HostState, HostStateView, Phase};
use crate::strings;
use crate::text;
use vstd::prelude::*;
use vstd::string::StringExecFns;

verus! {

/// Component health, in the order a viewer sorts by: broken first.
#[derive(Debug, Clone, Copy, PartialEq, Eq, Structural)]
pub enum Health {
    Error,
    Warn,
    /// In order. Written `ok` on the wire.
    Good,
    Idle,
    Unknown,
}

#[derive(Debug, PartialEq, Eq)]
pub struct Metric {
    pub label: String,
    pub value: String,
    pub unit: Option<String>,
    pub tone: Option<String>,
}

#[verifier::ext_equal]
pub struct MetricView {
    pub label: Seq<char>,
    pub value: Seq<char>,
    pub unit: Option<Seq<char>>,
    pub tone: Option<Seq<char>>,
}

impl View for Metric {
    type V = MetricView;

    open spec fn view(&self) -> MetricView {
        MetricView {
            label: self.label@,
            value: self.value@,
            unit: text::opt_text(self.unit),
            tone: text::opt_text(self.tone),
        }
    }
}

/// A figure without a unit or a tone.
pub open spec fn metric(label: Seq<char>, value: Seq<char>) -> MetricView {
    MetricView { label, value, unit: None, tone: None }
}

impl Metric {
    pub fn new(label: &str, value: &str) -> (r: Self)
        ensures
            r@ == metric(label@, value@),
    {
        Metric { label: label.to_owned(), value: value.to_owned(), unit: None, tone: None }
    }

    pub fn tone(self, tone: &str) -> (r: Self)
        ensures
            r@ == (MetricView { tone: Some(tone@), ..self@ }),
    {
        Metric {
            label: self.label,
            value: self.value,
            unit: self.unit,
            tone: Some(tone.to_owned()),
        }
    }
}

#[derive(Debug, Clone, Copy, PartialEq, Eq, Structural)]
pub enum RelationKind {
    HasOne,
    HasMany,
    BelongsTo,
}

#[derive(Debug, PartialEq, Eq)]
pub struct Relation {
    pub name: String,
    pub kind: RelationKind,
    pub targets: Vec<String>,
    pub href: Option<String>,
}

#[verifier::ext_equal]
pub struct RelationView {
    pub name: Seq<char>,
    pub kind: RelationKind,
    pub targets: Seq<Seq<char>>,
    pub href: Option<Seq<char>>,
}

impl View for Relation {
    type V = RelationView;

    open spec fn view(&self) -> RelationView {
        RelationView {
            name: self.name@,
            kind: self.kind,
            targets: text::texts(self.targets@),
            href: text::opt_text(self.href),
        }
    }
}

pub open spec fn belongs(name: Seq<char>, target: Seq<char>) -> RelationView {
    RelationView { name, kind: RelationKind::BelongsTo, targets: seq![target], href: None }
}

impl Relation {
    pub fn belongs_to(name: &str, target: &str) -> (r: Self)
        ensures
            r@ == belongs(name@, target@),
    {
        let mut targets: Vec<String> = Vec::new();
        targets.push(target.to_owned());
        let r = Relation {
            name: name.to_owned(),
            kind: RelationKind::BelongsTo,
            targets,
            href: None,
        };
        assert(r@.targets =~= seq![target@]);
        r
    }

    pub fn has_many(name: &str, targets: Vec<String>) -> (r: Self)
        ensures
            r@ == (RelationView {
                name: name@,
                kind: RelationKind::HasMany,
                targets: text::texts(targets@),
                href: None,
            }),
    {
        Relation { name: name.to_owned(), kind: RelationKind::HasMany, targets, href: None }
    }
}

#[derive(Debug, PartialEq, Eq)]
pub struct Action {
    pub id: String,
    pub label: String,
    pub method: String,
    pub path: String,
    pub enabled: bool,
    pub danger: bool,
}

#[derive(Debug, PartialEq, Eq)]
pub struct ComponentSummary {
    pub id: String,
    pub kind: String,
    pub label: String,
    pub health: Health,
    pub detail: String,
    pub metrics: Vec<Metric>,
    pub actions: Vec<Action>,
    pub relations: Vec<Relation>,
    pub link: Option<String>,
}

#[verifier::ext_equal]
pub struct ComponentView {
    pub id: Seq<char>,
    pub kind: Seq<char>,
    pub label: Seq<char>,
    pub health: Health,
    pub detail: Seq<char>,
    pub metrics: Seq<MetricView>,
    pub actions: Seq<Action>,
    pub relations: Seq<RelationView>,
    pub link: Option<Seq<char>>,
}

pub open spec fn metrics_of(v: Seq<Metric>) -> Seq<MetricView> {
    v.map_values(|m: Metric| m@)
}

pub open spec fn relations_of(v: Seq<Relation>) -> Seq<RelationView> {
    v.map_values(|r: Relation| r@)
}

impl View for ComponentSummary {
    type V = ComponentView;

    open spec fn view(&self) -> ComponentView {
        ComponentView {
            id: self.id@,
            kind: self.kind@,
            label: self.label@,
            health: self.health,
            detail: self.detail@,
            metrics: metrics_of(self.metrics@),
            actions: self.actions@,
            relations: relations_of(self.relations@),
            link: text::opt_text(self.link),
        }
    }
}

pub open spec fn components_of(v: Seq<ComponentSummary>) -> Seq<ComponentView> {
    v.map_values(|c: ComponentSummary| c@)
}

/// Cap on per-host rows in the feed.
///
/// A fleet install can have thousands of machines in flight and the console
/// renders every row it is given, so the feed shows the most recently active.
pub const MAX_HOST_ROWS: usize = 200;

// ---------------------------------------------------------------------------
// What the feed says

pub open spec fn label_of(phase: Phase) -> Seq<char> {
    match phase {
        Phase::ScriptFetched => "script fetched"@,
        Phase::AssetsFetched => "fetching assets"@,
        Phase::RootAttached => "root attached"@,
        Phase::Running => "running"@,
        Phase::Assimilating => "assimilating"@,
        Phase::Local => "local"@,
        Phase::Failed => "failed"@,
    }
}

pub open spec fn health_of(phase: Phase) -> Health {
    match phase {
        Phase::Failed => Health::Error,
        Phase::Local | Phase::Running | Phase::Assimilating => Health::Good,
        _ => Health::Idle,
    }
}

pub open spec fn phase_id(phase: Phase) -> Seq<char> {
    "phase:"@ + phase.word()
}

/// The first twelve characters of a digest behind its `sha256:`.
pub open spec fn short(digest: Seq<char>) -> Seq<char> {
    let hex = text::trim_prefixes(digest, "sha256:"@);
    if hex.len() <= 12 {
        hex
    } else {
        hex.take(12)
    }
}

/// The daemon's verdict on itself.
pub open spec fn system_component(
    hosts: Seq<HostStateView>,
    assets: AssetStatusView,
) -> ComponentView {
    let failed = state::count_in(hosts, Phase::Failed);
    ComponentView {
        id: "system"@,
        kind: "netboot"@,
        label: "stormnetboot"@,
        health: if !assets.ready {
            Health::Error
        } else if failed > 0 {
            Health::Warn
        } else {
            Health::Good
        },
        detail: if !assets.ready {
            "not serving: "@ + assets.detail
        } else if failed > 0 {
            "serving "@ + assets.detail + "; "@ + text::dec(failed) + " host(s) failed"@
        } else {
            "serving "@ + assets.detail
        },
        metrics: seq![
            metric("hosts"@, text::dec(hosts.len())),
            MetricView {
                tone: Some(
                    if failed > 0 {
                        "error"@
                    } else {
                        "muted"@
                    },
                ),
                ..metric("failed"@, text::dec(failed))
            },
        ],
        actions: Seq::empty(),
        relations: seq![
            RelationView {
                name: "phases"@,
                kind: RelationKind::HasMany,
                targets: state::counted(hosts, state::all_phases()).map_values(
                    |c: (Phase, usize)| phase_id(c.0),
                ),
                href: None,
            },
        ],
        link: None,
    }
}

pub open spec fn asset_metrics(assets: AssetStatusView) -> Seq<MetricView> {
    let version = seq![
        metric(
            "version"@,
            match assets.version {
                Some(v) => v,
                None => "-"@,
            },
        ),
    ];
    let pinned = match assets.digest {
        Some(d) => version.push(metric("digest"@, short(d))),
        None => version,
    };
    pinned.push(
        if assets.signature_verified {
            MetricView { tone: Some("ok"@), ..metric("signature"@, "verified"@) }
        } else {
            MetricView { tone: Some("warn"@), ..metric("signature"@, "unverified"@) }
        },
    )
}

/// What is being served.
pub open spec fn asset_component(assets: AssetStatusView) -> ComponentView {
    ComponentView {
        id: "assets:boot"@,
        kind: "pallet"@,
        label: "boot pallet"@,
        health: if assets.ready {
            Health::Good
        } else {
            Health::Error
        },
        detail: assets.detail,
        metrics: asset_metrics(assets),
        actions: Seq::empty(),
        relations: seq![belongs("service"@, "system"@)],
        link: None,
    }
}

/// A phase that some host is in.
pub open spec fn phase_component(c: (Phase, usize)) -> ComponentView {
    ComponentView {
        id: phase_id(c.0),
        kind: "phase"@,
        label: label_of(c.0),
        health: health_of(c.0),
        detail: text::dec(c.1 as nat) + " host(s)"@,
        metrics: seq![metric("hosts"@, text::dec(c.1 as nat))],
        actions: Seq::empty(),
        relations: seq![belongs("service"@, "system"@)],
        link: None,
    }
}

pub open spec fn host_component(host: HostStateView) -> ComponentView {
    let phase = seq![metric("phase"@, label_of(host.phase))];
    ComponentView {
        id: "host:"@ + mac::canonical(host.mac@),
        kind: "host"@,
        label: mac::canonical(host.mac@),
        health: health_of(host.phase),
        detail: match host.detail {
            Some(d) => d,
            None => label_of(host.phase),
        },
        metrics: match host.pallet_version {
            Some(v) => phase.push(metric("pallet"@, v)),
            None => phase,
        },
        actions: Seq::empty(),
        relations: seq![belongs("phase"@, phase_id(host.phase))],
        link: None,
    }
}

pub open spec fn rows(list: Seq<HostStateView>) -> Seq<HostStateView> {
    if list.len() <= MAX_HOST_ROWS {
        list
    } else {
        list.take(MAX_HOST_ROWS as int)
    }
}

/// The full feed: the service's verdict on itself, what it is serving, a row per
/// phase, and the most recently active hosts.
pub open spec fn feed(
    hosts: Seq<HostStateView>,
    list: Seq<HostStateView>,
    assets: AssetStatusView,
) -> Seq<ComponentView> {
    seq![system_component(hosts, assets), asset_component(assets)] + state::counted(
        hosts,
        state::all_phases(),
    ).map_values(|c: (Phase, usize)| phase_component(c)) + rows(list).map_values(
        |h: HostStateView| host_component(h),
    )
}

// ---------------------------------------------------------------------------
// Building it

fn phase_label(phase: Phase) -> (r: &'static str)
    ensures
        r@ == label_of(phase),
{
    match phase {
        Phase::ScriptFetched => "script fetched",
        Phase::AssetsFetched => "fetching assets",
        Phase::RootAttached => "root attached",
        Phase::Running => "running",
        Phase::Assimilating => "assimilating",
        Phase::Local => "local",
        Phase::Failed => "failed",
    }
}

fn phase_health(phase: Phase) -> (r: Health)
    ensures
        r == health_of(phase),
{
    match phase {
        Phase::Failed => Health::Error,
        Phase::Local => Health::Good,
        Phase::Running => Health::Good,
        Phase::Assimilating => Health::Good,
        _ => Health::Idle,
    }
}

fn phase_target(phase: Phase) -> (r: String)
    ensures
        r@ == phase_id(phase),
{
    strings::concat("phase:", phase.slug())
}

pub fn short_digest(digest: &str) -> (r: String)
    ensures
        r@ == short(digest@),
{
    let hex = strings::trim_prefixes(digest, "sha256:");
    let chars = strings::chars_of(hex.as_str());
    if chars.len() <= 12 {
        hex
    } else {
        assert(chars@.subrange(0, 12) == chars@.take(12));
        strings::range(&chars, 0, 12)
    }
}

fn system_row(state: &BootState, counts: &Vec<(Phase, usize)>, assets: &AssetStatus) -> (r:
    ComponentSummary)
    requires
        counts@ == state::counted(state.in_sequence(), state::all_phases()),
    ensures
        r@ == system_component(state.in_sequence(), assets@),
{
    let total: usize = state.len();
    let failed: usize = state.count(Phase::Failed);
    let (health, detail) = if !assets.ready {
        (Health::Error, strings::concat("not serving: ", assets.detail.as_str()))
    } else if failed > 0 {
        let mut said = strings::concat("serving ", assets.detail.as_str());
        said.append("; ");
        said.append(strings::dec(failed as u64).as_str());
        said.append(" host(s) failed");
        (Health::Warn, said)
    } else {
        (Health::Good, strings::concat("serving ", assets.detail.as_str()))
    };
    let mut metrics: Vec<Metric> = Vec::new();
    metrics.push(Metric::new("hosts", strings::dec(total as u64).as_str()));
    metrics.push(
        Metric::new("failed", strings::dec(failed as u64).as_str()).tone(
            if failed > 0 {
                "error"
            } else {
                "muted"
            },
        ),
    );
    let mut targets: Vec<String> = Vec::new();
    let mut i: usize = 0;
    while i < counts.len()
        invariant
            i <= counts@.len(),
            targets@.len() == i,
            forall|j: int| 0 <= j < i ==> (#[trigger] targets@[j])@ == phase_id(counts@[j].0),
        decreases counts@.len() - i,
    {
        targets.push(phase_target(counts[i].0));
        i = i + 1;
    }
    let mut relations: Vec<Relation> = Vec::new();
    relations.push(Relation::has_many("phases", targets));
    let r = ComponentSummary {
        id: "system".to_owned(),
        kind: "netboot".to_owned(),
        label: "stormnetboot".to_owned(),
        health,
        detail,
        metrics,
        actions: Vec::new(),
        relations,
        link: None,
    };
    let ghost want = system_component(state.in_sequence(), assets@);
    assert(text::texts(targets@) =~= want.relations[0].targets);
    assert(r@.relations[0] =~= want.relations[0]);
    assert(r@.relations =~= want.relations);
    assert(r@.metrics =~= want.metrics);
    assert(r@.actions =~= want.actions);
    r
}

fn asset_row(assets: &AssetStatus) -> (r: ComponentSummary)
    ensures
        r@ == asset_component(assets@),
{
    let mut metrics: Vec<Metric> = Vec::new();
    metrics.push(
        match &assets.version {
            Some(v) => Metric::new("version", v.as_str()),
            None => Metric::new("version", "-"),
        },
    );
    if let Some(digest) = &assets.digest {
        metrics.push(Metric::new("digest", short_digest(digest.as_str()).as_str()));
    }
    metrics.push(
        if assets.signature_verified {
            Metric::new("signature", "verified").tone("ok")
        } else {
            Metric::new("signature", "unverified").tone("warn")
        },
    );
    let mut relations: Vec<Relation> = Vec::new();
    relations.push(Relation::belongs_to("service", "system"));
    let r = ComponentSummary {
        id: "assets:boot".to_owned(),
        kind: "pallet".to_owned(),
        label: "boot pallet".to_owned(),
        health: if assets.ready {
            Health::Good
        } else {
            Health::Error
        },
        detail: assets.detail.clone(),
        metrics,
        actions: Vec::new(),
        relations,
        link: None,
    };
    let ghost want = asset_component(assets@);
    assert(r@.metrics =~= want.metrics);
    assert(r@.relations =~= want.relations);
    assert(r@.actions =~= want.actions);
    r
}

fn phase_row(phase: Phase, count: usize) -> (r: ComponentSummary)
    ensures
        r@ == phase_component((phase, count)),
{
    let number = strings::dec(count as u64);
    let mut metrics: Vec<Metric> = Vec::new();
    metrics.push(Metric::new("hosts", number.as_str()));
    let mut relations: Vec<Relation> = Vec::new();
    relations.push(Relation::belongs_to("service", "system"));
    let r = ComponentSummary {
        id: phase_target(phase),
        kind: "phase".to_owned(),
        label: phase_label(phase).to_owned(),
        health: phase_health(phase),
        detail: strings::concat(number.as_str(), " host(s)"),
        metrics,
        actions: Vec::new(),
        relations,
        link: None,
    };
    let ghost want = phase_component((phase, count));
    assert(r@.metrics =~= want.metrics);
    assert(r@.relations =~= want.relations);
    assert(r@.actions =~= want.actions);
    r
}

fn host_row(host: &HostState) -> (r: ComponentSummary)
    ensures
        r@ == host_component(host@),
{
    let name = host.mac.to_text();
    let mut metrics: Vec<Metric> = Vec::new();
    metrics.push(Metric::new("phase", phase_label(host.phase)));
    if let Some(version) = &host.pallet_version {
        metrics.push(Metric::new("pallet", version.as_str()));
    }
    let mut relations: Vec<Relation> = Vec::new();
    relations.push(Relation::belongs_to("phase", phase_target(host.phase).as_str()));
    let r = ComponentSummary {
        id: strings::concat("host:", name.as_str()),
        kind: "host".to_owned(),
        label: name,
        health: phase_health(host.phase),
        detail: match &host.detail {
            Some(d) => d.clone(),
            None => phase_label(host.phase).to_owned(),
        },
        metrics,
        actions: Vec::new(),
        relations,
        link: None,
    };
    let ghost want = host_component(host@);
    assert(r@.metrics =~= want.metrics);
    assert(r@.relations =~= want.relations);
    assert(r@.actions =~= want.actions);
    r
}

/// Build the full feed.
pub fn collect(state: &BootState, assets: &AssetStatus) -> (r: Vec<ComponentSummary>)
    requires
        state.wf(),
    ensures
        exists|list: Seq<HostStateView>| #[trigger]
            state::snapshot_of(state@, list) && components_of(r@) == feed(
                state.in_sequence(),
                list,
                assets@,
            ),
{
    let counts = state.phase_counts();
    let hosts = state.snapshot();
    let ghost list = state::views(hosts@);
    let ghost phases = state::counted(state.in_sequence(), state::all_phases()).map_values(
        |c: (Phase, usize)| phase_component(c),
    );
    let ghost first = seq![system_component(state.in_sequence(), assets@), asset_component(assets@)];
    let mut out: Vec<ComponentSummary> = Vec::new();
    out.push(system_row(state, &counts, assets));
    out.push(asset_row(assets));
    assert(components_of(out@) =~= first + phases.take(0));
    let mut i: usize = 0;
    while i < counts.len()
        invariant
            i <= counts@.len(),
            phases == counts@.map_values(|c: (Phase, usize)| phase_component(c)),
            components_of(out@) == first + phases.take(i as int),
        decreases counts@.len() - i,
    {
        let row = phase_row(counts[i].0, counts[i].1);
        assert(row@ == phases[i as int]);
        let ghost was = out@;
        out.push(row);
        i = i + 1;
        assert(components_of(out@) =~= components_of(was).push(row@));
        assert(components_of(out@) =~= first + phases.take(i as int));
    }
    assert(phases.take(i as int) =~= phases);
    let ghost rest = rows(list).map_values(|h: HostStateView| host_component(h));
    let shown: usize = if hosts.len() <= MAX_HOST_ROWS {
        hosts.len()
    } else {
        MAX_HOST_ROWS
    };
    assert(components_of(out@) =~= first + phases + rest.take(0));
    let mut j: usize = 0;
    while j < shown
        invariant
            j <= shown <= hosts@.len(),
            list == state::views(hosts@),
            rest == rows(list).map_values(|h: HostStateView| host_component(h)),
            rest.len() == shown,
            components_of(out@) == first + phases + rest.take(j as int),
        decreases shown - j,
    {
        let row = host_row(&hosts[j]);
        assert(rows(list)[j as int] == list[j as int]);
        assert(row@ == rest[j as int]);
        let ghost was = out@;
        out.push(row);
        j = j + 1;
        assert(components_of(out@) =~= components_of(was).push(row@));
        assert(components_of(out@) =~= first + phases + rest.take(j as int));
    }
    assert(rest.take(j as int) =~= rest);
    assert(components_of(out@) == feed(state.in_sequence(), list, assets@));
    out
}

// ---------------------------------------------------------------------------
// Laws

/// The feed opens with the service's verdict on itself.
pub proof fn law_the_feed_opens_with_the_system(
    hosts: Seq<HostStateView>,
    list: Seq<HostStateView>,
    assets: AssetStatusView,
)
    ensures
        feed(hosts, list, assets).len() >= 2,
        feed(hosts, list, assets)[0].id == "system"@,
{
}

/// However many hosts are in flight, the feed has no more than `MAX_HOST_ROWS` of
/// them.
pub proof fn law_host_rows_are_capped(
    hosts: Seq<HostStateView>,
    list: Seq<HostStateView>,
    assets: AssetStatusView,
)
    ensures
        feed(hosts, list, assets).len() <= 2 + state::counted(hosts, state::all_phases()).len()
            + MAX_HOST_ROWS,
        list.len() >= MAX_HOST_ROWS ==> feed(hosts, list, assets).len() == 2 + state::counted(
            hosts,
            state::all_phases(),
        ).len() + MAX_HOST_ROWS,
{
}

/// Whether some component of the feed has this id.
pub open spec fn present(components: Seq<ComponentView>, id: Seq<char>) -> bool {
    exists|n: int| 0 <= n < components.len() && (#[trigger] components[n]).id == id
}

/// Every relation target is a component of the same feed: a console never
/// renders a dangling edge.
pub proof fn law_relations_resolve(
    state: &BootState,
    list: Seq<HostStateView>,
    assets: AssetStatusView,
    i: int,
    j: int,
    k: int,
)
    requires
        state.wf(),
        state::snapshot_of(state@, list),
        0 <= i < feed(state.in_sequence(), list, assets).len(),
        0 <= j < feed(state.in_sequence(), list, assets)[i].relations.len(),
        0 <= k < feed(state.in_sequence(), list, assets)[i].relations[j].targets.len(),
    ensures
        present(
            feed(state.in_sequence(), list, assets),
            feed(state.in_sequence(), list, assets)[i].relations[j].targets[k],
        ),
{
    let hosts = state.in_sequence();
    let all = feed(hosts, list, assets);
    let counts = state::counted(hosts, state::all_phases());
    assert(all[0].id == "system"@);
    assert forall|n: int| 0 <= n < counts.len() implies #[trigger] all[2 + n].id == phase_id(
        counts[n].0,
    ) by {
        assert(all[2 + n] == phase_component(counts[n]));
    }
    if i == 0 {
        assert(all[2 + k].id == phase_id(counts[k].0));
    } else if i < 2 + counts.len() {
        if i > 1 {
            assert(all[i] == phase_component(counts[i - 2]));
        }
    } else {
        let r = i - 2 - counts.len();
        assert(rows(list)[r] == list[r]);
        assert(all[i] == host_component(list[r]));
        state::law_listed_hosts_are_counted(state, list, r);
        let n = choose|n: int| 0 <= n < counts.len() && (#[trigger] counts[n]).0 == list[r].phase;
        assert(all[2 + n].id == phase_id(counts[n].0));
    }
}

/// No two components of a feed have one id.
pub proof fn law_ids_differ(
    state: &BootState,
    list: Seq<HostStateView>,
    assets: AssetStatusView,
    i: int,
    j: int,
)
    requires
        state.wf(),
        state::snapshot_of(state@, list),
        0 <= i < j < feed(state.in_sequence(), list, assets).len(),
    ensures
        feed(state.in_sequence(), list, assets)[i].id != feed(
            state.in_sequence(),
            list,
            assets,
        )[j].id,
{
    let hosts = state.in_sequence();
    let all = feed(hosts, list, assets);
    let counts = state::counted(hosts, state::all_phases());
    let n = counts.len() as int;
    reveal_strlit("system");
    reveal_strlit("assets:boot");
    reveal_strlit("phase:");
    reveal_strlit("host:");
    assert(all[0].id == "system"@ && all[1].id == "assets:boot"@);
    assert forall|k: int| 2 <= k < 2 + n implies (#[trigger] all[k]).id == phase_id(
        counts[k - 2].0,
    ) && all[k].id[0] == 'p' by {
        assert(all[k] == phase_component(counts[k - 2]));
        assert(phase_id(counts[k - 2].0)[0] == "phase:"@[0]);
    }
    assert forall|k: int| 2 + n <= k < all.len() implies (#[trigger] all[k]).id == "host:"@
        + mac::canonical(list[k - 2 - n].mac@) && all[k].id[0] == 'h' by {
        let r = k - 2 - n;
        assert(rows(list)[r] == list[r]);
        assert(all[k] == host_component(list[r]));
        assert(("host:"@ + mac::canonical(list[r].mac@))[0] == "host:"@[0]);
    }
    if all[i].id == all[j].id {
        assert(all[i].id[0] == all[j].id[0]);
        if 2 <= i && j < 2 + n {
            let a = counts[i - 2].0;
            let b = counts[j - 2].0;
            assert(phase_id(a).skip(6) =~= a.word());
            assert(phase_id(b).skip(6) =~= b.word());
            state::law_every_phase_has_a_distinct_slug(a, b);
            state::law_phase_counts_summarise_the_snapshot(state, list);
            assert(counts[i - 2].0.rank() < counts[j - 2].0.rank());
        } else if 2 + n <= i {
            let a = list[i - 2 - n].mac;
            let b = list[j - 2 - n].mac;
            let x = mac::canonical(a@);
            let y = mac::canonical(b@);
            assert(("host:"@ + x).skip(5) =~= x);
            assert(("host:"@ + y).skip(5) =~= y);
            state::law_the_sequence_lists_the_tracked_hosts(state);
            assert(state@.contains_key(a) && state@.contains_key(b));
            mac::law_text_reads_back(a);
            mac::law_text_reads_back(b);
            assert(state::listed_before(list[i - 2 - n], list[j - 2 - n]));
        }
    }
}

/// The feed is a snapshot: its rows are those of the most recently active hosts, in that
/// order and capped, its system row counts every tracked host, and it has a phase row,
/// with the full count, for each phase that some host is in and for no other.
pub proof fn law_the_feed_shows_the_snapshot(
    state: &BootState,
    list: Seq<HostStateView>,
    assets: AssetStatusView,
)
    requires
        state.wf(),
        state::snapshot_of(state@, list),
    ensures
        feed(state.in_sequence(), list, assets) == feed(list, list, assets),
        ({
            let all = feed(state.in_sequence(), list, assets);
            let counts = state::counted(list, state::all_phases());
            let shown = if list.len() < MAX_HOST_ROWS {
                list.len()
            } else {
                MAX_HOST_ROWS as nat
            };
            &&& all.len() == 2 + counts.len() + shown
            &&& forall|k: int|
                0 <= k < shown ==> #[trigger] all[2 + counts.len() + k] == host_component(list[k])
            &&& forall|k: int|
                0 <= k < counts.len() ==> #[trigger] all[2 + k] == phase_component(counts[k])
                    && counts[k].1 == state::count_in(list, counts[k].0) && counts[k].1 > 0
            &&& forall|phase: Phase| #[trigger]
                state::count_in(list, phase) > 0 ==> exists|k: int|
                    0 <= k < counts.len() && (#[trigger] counts[k]).0 == phase
        }),
{
    state::law_counts_are_those_of_the_snapshot(state, list);
    state::law_phase_counts_summarise_the_snapshot(state, list);
    let all = feed(state.in_sequence(), list, assets);
    let counts = state::counted(list, state::all_phases());
    assert forall|k: int| 0 <= k < rows(list).len() implies #[trigger] all[2 + counts.len() + k]
        == host_component(list[k]) by {
        assert(rows(list)[k] == list[k]);
    }
    assert forall|k: int| 0 <= k < counts.len() implies #[trigger] all[2 + k] == phase_component(
        counts[k],
    ) && counts[k].1 == state::count_in(list, counts[k].0) && counts[k].1 > 0 by {
        assert(all[2 + k] == phase_component(counts[k]));
    }
    assert(system_component(state.in_sequence(), assets) =~= system_component(list, assets));
}

/// Whether one of the hosts has failed.
pub open spec fn one_failed(hosts: Seq<HostStateView>) -> bool {
    exists|i: int| 0 <= i < hosts.len() && (#[trigger] hosts[i]).phase is Failed
}

proof fn lemma_failed(hosts: Seq<HostStateView>)
    ensures
        state::count_in(hosts, Phase::Failed) > 0 <==> one_failed(hosts),
    decreases hosts.len(),
{
    if hosts.len() > 0 {
        let rest = hosts.drop_last();
        lemma_failed(rest);
        if hosts.last().phase == Phase::Failed {
            assert(hosts[hosts.len() - 1].phase is Failed);
        }
        if one_failed(rest) {
            let i = choose|i: int| 0 <= i < rest.len() && (#[trigger] rest[i]).phase is Failed;
            assert(hosts[i].phase is Failed);
        }
        if one_failed(hosts) {
            let i = choose|i: int| 0 <= i < hosts.len() && (#[trigger] hosts[i]).phase is Failed;
            if i < rest.len() {
                assert(rest[i].phase is Failed);
            }
        }
    }
}

/// The service is in error where it has nothing to serve, warns where a host has failed,
/// and is well otherwise; it says what it serves, how many hosts it knows and how many
/// of them failed.
pub proof fn law_the_system_answers_for_its_hosts(
    hosts: Seq<HostStateView>,
    list: Seq<HostStateView>,
    assets: AssetStatusView,
)
    ensures
        ({
            let system = feed(hosts, list, assets)[0];
            let pallet = feed(hosts, list, assets)[1];
            &&& system.health is Error <==> !assets.ready
            &&& system.health is Warn <==> assets.ready && one_failed(hosts)
            &&& system.health is Good <==> assets.ready && !one_failed(hosts)
            &&& !assets.ready ==> system.detail == "not serving: "@ + assets.detail
            &&& assets.ready && !one_failed(hosts) ==> system.detail == "serving "@ + assets.detail
            &&& assets.ready && one_failed(hosts) ==> ("serving "@
                + assets.detail).is_prefix_of(system.detail)
            &&& system.metrics.len() == 2
            &&& system.metrics[0].label == "hosts"@ && text::digits_value(system.metrics[0].value)
                == hosts.len()
            &&& system.metrics[1].label == "failed"@ && text::digits_value(system.metrics[1].value)
                == state::count_in(hosts, Phase::Failed)
            &&& system.metrics[1].tone == Some(
                if one_failed(hosts) {
                    "error"@
                } else {
                    "muted"@
                },
            )
            &&& pallet.id == "assets:boot"@
            &&& pallet.health is Good <==> assets.ready
            &&& pallet.health is Error <==> !assets.ready
            &&& pallet.detail == assets.detail
        }),
{
    lemma_failed(hosts);
    let failed = state::count_in(hosts, Phase::Failed);
    text::law_decimals_read_back(hosts.len(), hosts.len());
    text::law_decimals_read_back(failed, failed);
    let system = feed(hosts, list, assets)[0];
    let start = "serving "@ + assets.detail;
    if assets.ready && one_failed(hosts) {
        assert(system.detail.subrange(0, start.len() as int) =~= start);
    }
}

/// The pallet row opens with the version and closes with the signature: verified, and
/// marked as well, exactly where it was. A digest stands between them where it is known.
pub proof fn law_the_pallet_row_tells_the_signature(assets: AssetStatusView)
    ensures
        ({
            let m = asset_component(assets).metrics;
            &&& m.len() == if assets.digest is Some {
                3int
            } else {
                2
            }
            &&& m[0].label == "version"@
            &&& assets.version is Some ==> m[0].value == assets.version->0
            &&& assets.version is None ==> m[0].value == "-"@
            &&& assets.digest is Some ==> m[1].label == "digest"@ && m[1].value == short(
                assets.digest->0,
            )
            &&& m.last().label == "signature"@
            &&& assets.signature_verified ==> m.last().value == "verified"@ && m.last().tone
                == Some("ok"@)
            &&& !assets.signature_verified ==> m.last().value == "unverified"@ && m.last().tone
                == Some("warn"@)
        }),
{
}

/// A host's row is its own: the label reads back as its address, it is well once it runs,
/// in error where it failed and idle before, it says what the host said or else its phase,
/// and it hangs on the row of that phase.
pub proof fn law_a_row_is_its_hosts_own(host: HostStateView)
    requires
        host.mac.valid(),
    ensures
        ({
            let row = host_component(host);
            &&& row.kind == "host"@
            &&& mac::parsed(row.label) == Ok::<mac::Mac, mac::MacParseError>(host.mac)
            &&& row.id == "host:"@ + row.label
            &&& row.health is Error <==> host.phase is Failed
            &&& row.health is Good <==> host.phase is Running || host.phase is Assimilating
                || host.phase is Local
            &&& row.health is Idle <==> host.phase is ScriptFetched || host.phase is AssetsFetched
                || host.phase is RootAttached
            &&& host.detail is Some ==> row.detail == host.detail->0
            &&& host.detail is None ==> row.detail == label_of(host.phase)
            &&& row.metrics[0].label == "phase"@ && row.metrics[0].value == label_of(host.phase)
            &&& host.pallet_version is Some ==> row.metrics.len() == 2 && row.metrics[1].label
                == "pallet"@ && row.metrics[1].value == host.pallet_version->0
            &&& host.pallet_version is None ==> row.metrics.len() == 1
            &&& row.relations.len() == 1 && row.relations[0].targets == seq![
                "phase:"@ + host.phase.word(),
            ]
        }),
{
    mac::law_text_reads_back(host.mac);
}

/// A phase's row counts the hosts in it.
pub proof fn law_a_phase_row_counts_its_hosts(phase: Phase, n: usize)
    ensures
        ({
            let row = phase_component((phase, n));
            &&& row.id == "phase:"@ + phase.word()
            &&& row.metrics.len() == 1 && row.metrics[0].label == "hosts"@ && text::digits_value(
                row.metrics[0].value,
            ) == n
            &&& row.detail == row.metrics[0].value + " host(s)"@
            &&& row.health is Error <==> phase is Failed
        }),
{
    text::law_decimals_read_back(n as nat, n as nat);
}

/// What a phase is called is its slug in words, but for the one in which a host is still
/// fetching.
pub proof fn law_a_phase_is_called_by_its_slug(phase: Phase)
    ensures
        phase is AssetsFetched ==> label_of(phase) == "fetching assets"@,
        !(phase is AssetsFetched) ==> label_of(phase) == text::replace(phase.word(), '-', ' '),
{
    reveal_strlit("script-fetched");
    reveal_strlit("script fetched");
    reveal_strlit("root-attached");
    reveal_strlit("root attached");
    reveal_strlit("running");
    reveal_strlit("assimilating");
    reveal_strlit("local");
    reveal_strlit("failed");
    assert(text::replace("script-fetched"@, '-', ' ') =~= "script fetched"@);
    assert(text::replace("root-attached"@, '-', ' ') =~= "root attached"@);
    assert(text::replace("running"@, '-', ' ') =~= "running"@);
    assert(text::replace("assimilating"@, '-', ' ') =~= "assimilating"@);
    assert(text::replace("local"@, '-', ' ') =~= "local"@);
    assert(text::replace("failed"@, '-', ' ') =~= "failed"@);
}

/// A digest is shown by its first twelve digits, with or without the algorithm in front
/// of them.
pub proof fn law_a_digest_is_shown_by_its_start(hex: Seq<char>)
    requires
        text::free_of(hex, ':'),
    ensures
        short(hex).is_prefix_of(hex),
        short(hex).len() == if hex.len() < 12 {
            hex.len()
        } else {
            12
        },
        short("sha256:"@ + hex) == short(hex),
{
    reveal_strlit("sha256:");
    let prefix = "sha256:"@;
    if text::starts_with(hex, prefix) {
        assert(hex.take(7)[6] == hex[6]);
        assert(hex[6] == ':');
    }
    assert((prefix + hex).take(7) =~= prefix);
    assert((prefix + hex).skip(7) =~= hex);
    assert(short(hex) =~= hex.subrange(0, short(hex).len() as int));
}

} // verus!
