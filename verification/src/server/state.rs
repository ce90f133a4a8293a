//! Boot state tracking.
//!
//! What a machine is doing right now is the question an operator actually asks
//! during a fleet install, and the gap between "powered on" and "assimilated" is
//! the boot server's to report.
//!
//! State is in memory and bounded. It is observational: losing it on restart
//! costs a console panel its history, never a boot.

use crate::server::mac::Mac;
use crate::server::mac_map;
use crate::server::mac_map::MacMap;
use crate::strings;
use crate::text;
use vstd::prelude::*;

verus! {

/// Where a host is in the sequence, in the order it happens.
#[derive(Debug, Clone, Copy, PartialEq, Eq, Structural, PartialOrd, Ord, Hash)]
pub enum Phase {
    /// Asked for its boot script: firmware is alive and talking.
    ScriptFetched,
    /// Pulling kernel and initramfs.
    AssetsFetched,
    /// Reported that it attached its root over NVMe/TCP.
    RootAttached,
    /// Reported a successful switch_root.
    Running,
    /// Flow-over to local disk is in progress.
    Assimilating,
    /// Mirror broken, booting locally. The network source is no longer needed.
    Local,
    /// Something went wrong; `detail` says what.
    Failed,
}

impl Phase {
    /// Where the phase stands in the sequence.
    pub open spec fn rank(self) -> nat {
        match self {
            Phase::ScriptFetched => 0,
            Phase::AssetsFetched => 1,
            Phase::RootAttached => 2,
            Phase::Running => 3,
            Phase::Assimilating => 4,
            Phase::Local => 5,
            Phase::Failed => 6,
        }
    }

    /// Whether `other` stands no later in the sequence.
    pub fn reaches(self, other: Phase) -> (r: bool)
        ensures
            r == (self.rank() >= other.rank()),
    {
        self.number() >= other.number()
    }

    fn number(self) -> (r: u8)
        ensures
            r == self.rank(),
    {
        match self {
            Phase::ScriptFetched => 0,
            Phase::AssetsFetched => 1,
            Phase::RootAttached => 2,
            Phase::Running => 3,
            Phase::Assimilating => 4,
            Phase::Local => 5,
            Phase::Failed => 6,
        }
    }

    pub open spec fn terminal(self) -> bool {
        self == Phase::Local || self == Phase::Failed
    }

    /// Whether this phase means the host no longer needs the boot server.
    pub fn is_terminal(self) -> (r: bool)
        ensures
            r == self.terminal(),
    {
        self == Phase::Local || self == Phase::Failed
    }

    pub open spec fn word(self) -> Seq<char> {
        match self {
            Phase::ScriptFetched => "script-fetched"@,
            Phase::AssetsFetched => "assets-fetched"@,
            Phase::RootAttached => "root-attached"@,
            Phase::Running => "running"@,
            Phase::Assimilating => "assimilating"@,
            Phase::Local => "local"@,
            Phase::Failed => "failed"@,
        }
    }

    /// The wire spelling, shared by the JSON feed, the metric label and the
    /// `BootHost` status: one host in one phase must not read three ways
    /// depending on where an operator looked.
    pub fn slug(self) -> (r: &'static str)
        ensures
            r@ == self.word(),
    {
        match self {
            Phase::ScriptFetched => "script-fetched",
            Phase::AssetsFetched => "assets-fetched",
            Phase::RootAttached => "root-attached",
            Phase::Running => "running",
            Phase::Assimilating => "assimilating",
            Phase::Local => "local",
            Phase::Failed => "failed",
        }
    }
}

/// Hardware as the running node described itself.
///
/// This is what removes the inspection boot: the machine is already running the
/// OS it will keep, and reporting its own inventory is a file read.
#[derive(Debug, PartialEq, Eq)]
pub struct Inventory {
    pub cpus: u32,
    pub memory_kb: u64,
    pub product: Option<String>,
    pub serial: Option<String>,
    pub disks: Vec<String>,
}

#[verifier::ext_equal]
pub struct InventoryView {
    pub cpus: u32,
    pub memory_kb: u64,
    pub product: Option<Seq<char>>,
    pub serial: Option<Seq<char>>,
    pub disks: Seq<Seq<char>>,
}

impl View for Inventory {
    type V = InventoryView;

    open spec fn view(&self) -> InventoryView {
        InventoryView {
            cpus: self.cpus,
            memory_kb: self.memory_kb,
            product: text::opt_text(self.product),
            serial: text::opt_text(self.serial),
            disks: text::texts(self.disks@),
        }
    }
}

impl Clone for Inventory {
    fn clone(&self) -> (r: Self)
        ensures
            r@ == self@,
    {
        Inventory {
            cpus: self.cpus,
            memory_kb: self.memory_kb,
            product: strings::clone_opt(&self.product),
            serial: strings::clone_opt(&self.serial),
            disks: strings::clone_texts(&self.disks),
        }
    }
}

impl Default for Inventory {
    fn default() -> (r: Self)
        ensures
            r@ == (InventoryView {
                cpus: 0,
                memory_kb: 0,
                product: None,
                serial: None,
                disks: Seq::empty(),
            }),
    {
        let r = Inventory { cpus: 0, memory_kb: 0, product: None, serial: None, disks: Vec::new() };
        assert(r@.disks =~= Seq::<Seq<char>>::empty());
        r
    }
}

pub open spec fn opt_inventory(o: Option<Inventory>) -> Option<InventoryView> {
    match o {
        Some(i) => Some(i@),
        None => None,
    }
}

#[derive(Debug)]
pub struct HostState {
    pub mac: Mac,
    pub phase: Phase,
    /// Free-text detail for the current phase, e.g. a failure reason or the
    /// percentage of extents migrated.
    pub detail: Option<String>,
    /// Boot pallet version this host was served, so a console can show which
    /// hosts are on which version mid-rollout.
    pub pallet_version: Option<String>,
    /// What the node said it is made of, once it was up to say so.
    pub hardware: Option<Inventory>,
    pub first_seen_unix: u64,
    pub updated_unix: u64,
}

#[verifier::ext_equal]
pub struct HostStateView {
    pub mac: Mac,
    pub phase: Phase,
    pub detail: Option<Seq<char>>,
    pub pallet_version: Option<Seq<char>>,
    pub hardware: Option<InventoryView>,
    pub first_seen_unix: u64,
    pub updated_unix: u64,
}

impl View for HostState {
    type V = HostStateView;

    open spec fn view(&self) -> HostStateView {
        HostStateView {
            mac: self.mac,
            phase: self.phase,
            detail: text::opt_text(self.detail),
            pallet_version: text::opt_text(self.pallet_version),
            hardware: opt_inventory(self.hardware),
            first_seen_unix: self.first_seen_unix,
            updated_unix: self.updated_unix,
        }
    }
}

impl Clone for HostState {
    fn clone(&self) -> (r: Self)
        ensures
            r@ == self@,
    {
        HostState {
            mac: self.mac,
            phase: self.phase,
            detail: strings::clone_opt(&self.detail),
            pallet_version: strings::clone_opt(&self.pallet_version),
            hardware: match &self.hardware {
                Some(i) => Some(i.clone()),
                None => None,
            },
            first_seen_unix: self.first_seen_unix,
            updated_unix: self.updated_unix,
        }
    }
}

/// Seconds since the Unix epoch, from `SystemTime::elapsed` on `UNIX_EPOCH`; zero
/// on a clock that stands before it. What the clock says is not stated.
#[verifier::external_body]
fn now_unix() -> u64 {
    match std::time::UNIX_EPOCH.elapsed() {
        Ok(d) => d.as_secs(),
        Err(_) => 0,
    }
}

/// Upper bound on tracked hosts.
///
/// A fleet install is exactly when memory must not grow without limit, so the
/// map is capped and evicts hosts that have finished.
pub const MAX_TRACKED: usize = 20_000;

// ---------------------------------------------------------------------------
// What each report does to the tracked hosts

/// The hosts that still need the boot server.
pub open spec fn unfinished(hosts: Map<Mac, HostStateView>) -> Map<Mac, HostStateView> {
    hosts.restrict(Set::new(|m: Mac| hosts.contains_key(m) && !hosts[m].phase.terminal()))
}

/// Whether no host of `hosts` was updated before `m`.
pub open spec fn stalest(hosts: Map<Mac, HostStateView>, m: Mac) -> bool {
    hosts.contains_key(m) && forall|o: Mac| #[trigger]
        hosts.contains_key(o) ==> hosts[m].updated_unix <= hosts[o].updated_unix
}

/// `after` is what is left of `before` when room has to be made: the hosts that
/// have not finished, and when those alone fill the map, all of them but one
/// that was updated least recently.
pub open spec fn evicted(before: Map<Mac, HostStateView>, after: Map<Mac, HostStateView>) -> bool {
    if unfinished(before).dom().len() >= MAX_TRACKED {
        exists|m: Mac| #[trigger]
            stalest(unfinished(before), m) && after == unfinished(before).remove(m)
    } else {
        after == unfinished(before)
    }
}

/// `after` is `before` with room for a report on `mac`.
pub open spec fn made_room(
    before: Map<Mac, HostStateView>,
    mac: Mac,
    after: Map<Mac, HostStateView>,
) -> bool {
    if before.dom().len() >= MAX_TRACKED && !before.contains_key(mac) {
        evicted(before, after)
    } else {
        after == before
    }
}

/// What a phase report makes of the host it is about. Phases only move forward,
/// so a late duplicate of an earlier fetch cannot drag a running host back.
/// Failure is the exception: it can arrive at any time.
pub open spec fn after_phase(
    known: Option<HostStateView>,
    mac: Mac,
    phase: Phase,
    detail: Option<Seq<char>>,
    now: u64,
) -> HostStateView {
    match known {
        Some(h) => if phase.rank() >= h.phase.rank() || phase == Phase::Failed {
            HostStateView { phase, detail, updated_unix: now, ..h }
        } else {
            h
        },
        None => HostStateView {
            mac,
            phase,
            detail,
            pallet_version: None,
            hardware: None,
            first_seen_unix: now,
            updated_unix: now,
        },
    }
}

/// What an inventory report makes of the host it is about.
pub open spec fn after_inventory(
    known: Option<HostStateView>,
    mac: Mac,
    hardware: InventoryView,
    now: u64,
) -> HostStateView {
    match known {
        Some(h) => HostStateView { hardware: Some(hardware), updated_unix: now, ..h },
        None => HostStateView {
            mac,
            phase: Phase::Running,
            detail: None,
            pallet_version: None,
            hardware: Some(hardware),
            first_seen_unix: now,
            updated_unix: now,
        },
    }
}

pub open spec fn known(hosts: Map<Mac, HostStateView>, mac: Mac) -> Option<HostStateView> {
    if hosts.contains_key(mac) {
        Some(hosts[mac])
    } else {
        None
    }
}

/// What a phase report at `now` makes of the tracked hosts.
pub open spec fn observed(
    before: Map<Mac, HostStateView>,
    mac: Mac,
    phase: Phase,
    detail: Option<Seq<char>>,
    now: u64,
    after: Map<Mac, HostStateView>,
) -> bool {
    exists|room: Map<Mac, HostStateView>| #[trigger]
        made_room(before, mac, room) && after == room.insert(
            mac,
            after_phase(known(before, mac), mac, phase, detail, now),
        )
}

/// What an inventory report at `now` makes of the tracked hosts.
pub open spec fn described(
    before: Map<Mac, HostStateView>,
    mac: Mac,
    hardware: InventoryView,
    now: u64,
    after: Map<Mac, HostStateView>,
) -> bool {
    exists|room: Map<Mac, HostStateView>| #[trigger]
        made_room(before, mac, room) && after == room.insert(
            mac,
            after_inventory(known(before, mac), mac, hardware, now),
        )
}

/// How many of `hosts` are in `phase`.
pub open spec fn count_in(hosts: Seq<HostStateView>, phase: Phase) -> nat
    decreases hosts.len(),
{
    if hosts.len() == 0 {
        0
    } else {
        count_in(hosts.drop_last(), phase) + if hosts.last().phase == phase {
            1nat
        } else {
            0
        }
    }
}

pub open spec fn all_phases() -> Seq<Phase> {
    seq![
        Phase::ScriptFetched,
        Phase::AssetsFetched,
        Phase::RootAttached,
        Phase::Running,
        Phase::Assimilating,
        Phase::Local,
        Phase::Failed,
    ]
}

/// The phases among `phases` that some host is in, each with how many are.
pub open spec fn counted(hosts: Seq<HostStateView>, phases: Seq<Phase>) -> Seq<(Phase, usize)>
    decreases phases.len(),
{
    if phases.len() == 0 {
        Seq::empty()
    } else {
        let before = counted(hosts, phases.drop_last());
        let n = count_in(hosts, phases.last());
        if n > 0 {
            before.push((phases.last(), n as usize))
        } else {
            before
        }
    }
}

/// Whether a snapshot lists `a` in front of `b`: most recently updated first,
/// and by address among those updated in the same second.
pub open spec fn listed_before(a: HostStateView, b: HostStateView) -> bool {
    a.updated_unix > b.updated_unix || (a.updated_unix == b.updated_unix && a.mac.rank()
        < b.mac.rank())
}

/// `list` is what a snapshot of `hosts` shows: each host once, in that order.
pub open spec fn snapshot_of(hosts: Map<Mac, HostStateView>, list: Seq<HostStateView>) -> bool {
    &&& list.len() == hosts.dom().len()
    &&& forall|i: int|
        0 <= i < list.len() ==> hosts.contains_key((#[trigger] list[i]).mac)
            && hosts[list[i].mac] == list[i]
    &&& forall|i: int, j: int|
        0 <= i < j < list.len() ==> listed_before(#[trigger] list[i], #[trigger] list[j])
}

pub open spec fn views(v: Seq<HostState>) -> Seq<HostStateView> {
    v.map_values(|h: HostState| h@)
}

// ---------------------------------------------------------------------------
// The tracked hosts

pub struct BootState {
    hosts: MacMap<HostState>,
}

impl View for BootState {
    type V = Map<Mac, HostStateView>;

    closed spec fn view(&self) -> Map<Mac, HostStateView> {
        self.hosts@.map_values(|h: HostState| h@)
    }
}

impl BootState {
    /// Each host is filed under its own address, which holds six octets, and there are
    /// at most `MAX_TRACKED` of them.
    pub closed spec fn wf(&self) -> bool {
        &&& self.hosts.wf()
        &&& self.hosts.in_sequence().len() <= MAX_TRACKED
        &&& forall|m: Mac| #[trigger]
            self.hosts@.contains_key(m) ==> self.hosts@[m].mac == m && m.valid()
    }

    /// The tracked hosts in the order of their addresses.
    pub closed spec fn in_sequence(&self) -> Seq<HostStateView> {
        self.hosts.in_sequence().map_values(|e: (Mac, HostState)| e.1@)
    }

    /// Record a phase transition, creating the entry if this is the first we
    /// have heard of the host.
    pub fn observe(&mut self, mac: Mac, phase: Phase, detail: Option<String>)
        requires
            old(self).wf(),
        ensures
            final(self).wf(),
            exists|now: u64| #[trigger]
                observed(old(self)@, mac, phase, text::opt_text(detail), now, final(self)@),
    {
        let now: u64 = now_unix();
        self.observe_at(mac, phase, detail, now);
    }

    /// `observe`, for a report that arrived at `now`.
    pub fn observe_at(&mut self, mac: Mac, phase: Phase, detail: Option<String>, now: u64)
        requires
            old(self).wf(),
        ensures
            final(self).wf(),
            observed(old(self)@, mac, phase, text::opt_text(detail), now, final(self)@),
    {
        let ghost before = self@;
        let ghost said = text::opt_text(detail);
        proof {
            use_type_invariant(&mac);
        }
        self.make_room(&mac);
        let ghost room = self@;
        let next = match self.hosts.remove(&mac) {
            Some(mut state) => {
                if phase.reaches(state.phase) || phase == Phase::Failed {
                    state.phase = phase;
                    state.detail = detail;
                    state.updated_unix = now;
                }
                state
            },
            None => HostState {
                mac,
                phase,
                detail,
                pallet_version: None,
                hardware: None,
                first_seen_unix: now,
                updated_unix: now,
            },
        };
        assert(next@ == after_phase(known(before, mac), mac, phase, said, now));
        self.hosts.insert(mac, next);
        assert(self@ =~= room.insert(mac, next@));
        assert(made_room(before, mac, room));
    }

    /// Note which boot pallet version a host was served.
    pub fn set_pallet_version(&mut self, mac: &Mac, version: &str)
        requires
            old(self).wf(),
        ensures
            final(self).wf(),
            final(self)@ == if old(self)@.contains_key(*mac) {
                old(self)@.insert(
                    *mac,
                    (HostStateView { pallet_version: Some(version@), ..old(self)@[*mac] }),
                )
            } else {
                old(self)@
            },
    {
        match self.hosts.remove(mac) {
            Some(mut state) => {
                state.pallet_version = Some(version.to_owned());
                self.hosts.insert(*mac, state);
                assert(self@ =~= old(self)@.insert(
                    *mac,
                    (HostStateView { pallet_version: Some(version@), ..old(self)@[*mac] }),
                ));
            },
            None => {
                assert(self@ =~= old(self)@);
            },
        }
    }

    /// Record the inventory a running node reported about itself.
    ///
    /// A node can report inventory before its `running` report lands, so this
    /// creates the entry if it has to, at the phase that a machine able to
    /// describe itself is necessarily in.
    pub fn set_inventory(&mut self, mac: &Mac, hardware: Inventory)
        requires
            old(self).wf(),
        ensures
            final(self).wf(),
            exists|now: u64| #[trigger]
                described(old(self)@, *mac, hardware@, now, final(self)@),
    {
        let now: u64 = now_unix();
        self.set_inventory_at(mac, hardware, now);
    }

    /// `set_inventory`, for a report that arrived at `now`.
    pub fn set_inventory_at(&mut self, mac: &Mac, hardware: Inventory, now: u64)
        requires
            old(self).wf(),
        ensures
            final(self).wf(),
            described(old(self)@, *mac, hardware@, now, final(self)@),
    {
        let ghost before = self@;
        proof {
            use_type_invariant(mac);
        }
        self.make_room(mac);
        let ghost room = self@;
        let next = match self.hosts.remove(mac) {
            Some(mut state) => {
                state.hardware = Some(hardware);
                state.updated_unix = now;
                state
            },
            None => HostState {
                mac: *mac,
                phase: Phase::Running,
                detail: None,
                pallet_version: None,
                hardware: Some(hardware),
                first_seen_unix: now,
                updated_unix: now,
            },
        };
        assert(next@ == after_inventory(known(before, *mac), *mac, hardware@, now));
        self.hosts.insert(*mac, next);
        assert(self@ =~= room.insert(*mac, next@));
        assert(made_room(before, *mac, room));
    }

    /// One host, for the status writer.
    pub fn get(&self, mac: &Mac) -> (r: Option<HostState>)
        requires
            self.wf(),
        ensures
            match r {
                Some(h) => known(self@, *mac) == Some(h@),
                None => known(self@, *mac) is None,
            },
    {
        match self.hosts.get(mac) {
            Some(h) => Some(h.clone()),
            None => None,
        }
    }

    /// Evicts hosts when the map is full and `mac` would be one more.
    fn make_room(&mut self, mac: &Mac)
        requires
            old(self).wf(),
        ensures
            final(self).wf(),
            made_room(old(self)@, *mac, final(self)@),
            final(self).hosts.in_sequence().len() < MAX_TRACKED || final(self)@.contains_key(*mac),
            known(final(self)@, *mac) == known(old(self)@, *mac),
    {
        proof {
            self.hosts.lemma_in_sequence();
            assert(self@.dom() =~= self.hosts@.dom());
        }
        if self.hosts.len() >= MAX_TRACKED && !self.hosts.contains(mac) {
            self.evict_finished();
        }
    }

    fn evict_finished(&mut self)
        requires
            old(self).wf(),
        ensures
            final(self).wf(),
            evicted(old(self)@, final(self)@),
            final(self).hosts.in_sequence().len() < MAX_TRACKED,
            forall|m: Mac| #[trigger] final(self)@.contains_key(m) ==> old(self)@.contains_key(m),
    {
        let ghost before = self@;
        let mut taken: MacMap<HostState> = MacMap::new();
        std::mem::swap(&mut taken, &mut self.hosts);
        let ghost full = taken@;
        let mut kept = keep_unfinished(taken);
        let ghost left = kept@.map_values(|h: HostState| h@);
        assert(left =~= unfinished(before));
        proof {
            kept.lemma_in_sequence();
            assert(left.dom() =~= kept@.dom());
        }
        // Still full of in-flight hosts: drop the least recently updated so the
        // map stays bounded even in the pathological case.
        if kept.len() >= MAX_TRACKED {
            let oldest = stalest_of(&kept);
            assert(stalest(left, oldest)) by {
                assert forall|o: Mac| #[trigger] left.contains_key(o) implies left[oldest].updated_unix
                    <= left[o].updated_unix by {
                    assert(kept@.contains_key(o));
                }
            }
            kept.remove(&oldest);
            assert(kept@.map_values(|h: HostState| h@) =~= left.remove(oldest));
        }
        self.hosts = kept;
    }

    pub fn snapshot(&self) -> (r: Vec<HostState>)
        requires
            self.wf(),
        ensures
            snapshot_of(self@, views(r@)),
    {
        let order = self.listing();
        let mut all: Vec<HostState> = Vec::new();
        let ghost entries = self.hosts.in_sequence();
        let mut i: usize = 0;
        while i < order.len()
            invariant
                i <= order@.len(),
                entries == self.hosts.in_sequence(),
                forall|k: int| 0 <= k < order@.len() ==> #[trigger] order@[k] < entries.len(),
                all@.len() == i,
                forall|k: int|
                    0 <= k < i ==> (#[trigger] all@[k])@ == entries[order@[k] as int].1@,
            decreases order@.len() - i,
        {
            let e = self.hosts.at(order[i]);
            all.push(e.1.clone());
            i = i + 1;
        }
        proof {
            self.hosts.lemma_in_sequence();
            assert(self@.dom() =~= self.hosts@.dom());
            let list = views(all@);
            assert forall|k: int| 0 <= k < list.len() implies self@.contains_key(
                (#[trigger] list[k]).mac,
            ) && self@[list[k].mac] == list[k] by {
                let e = entries[order@[k] as int];
                assert(all@[k]@ == e.1@);
                mac_map::lemma_place(entries, order@[k] as int);
                assert(self.hosts@.contains_key(e.0));
            }
            assert forall|k: int, j: int| 0 <= k < j < list.len() implies listed_before(
                #[trigger] list[k],
                #[trigger] list[j],
            ) by {
                assert(all@[k]@ == entries[order@[k] as int].1@);
                assert(all@[j]@ == entries[order@[j] as int].1@);
            }
        }
        all
    }

    /// The places of the hosts in `in_sequence`, in the order a snapshot lists
    /// them.
    fn listing(&self) -> (order: Vec<usize>)
        requires
            self.wf(),
        ensures
            order@.len() == self.hosts.in_sequence().len(),
            forall|k: int|
                0 <= k < order@.len() ==> #[trigger] order@[k] < self.hosts.in_sequence().len(),
            listed(self.hosts.in_sequence(), order@),
    {
        let ghost s = self.hosts.in_sequence();
        proof {
            self.hosts.lemma_in_sequence();
            assert forall|k: int| 0 <= k < s.len() implies (#[trigger] s[k]).1.mac == s[k].0 by {
                mac_map::lemma_place(s, k);
            }
        }
        let mut order: Vec<usize> = Vec::new();
        let mut i: usize = 0;
        while i < self.hosts.len()
            invariant
                i <= s.len(),
                s == self.hosts.in_sequence(),
                mac_map::in_order(s),
                forall|k: int| 0 <= k < s.len() ==> (#[trigger] s[k]).1.mac == s[k].0,
                order@.len() == i,
                forall|k: int| 0 <= k < order@.len() ==> #[trigger] order@[k] < i,
                listed(s, order@),
            decreases s.len() - i,
        {
            let new = self.hosts.at(i).1;
            let mut low: usize = 0;
            let mut high: usize = order.len();
            while low < high
                invariant
                    low <= high <= order@.len(),
                    i < s.len(),
                    s == self.hosts.in_sequence(),
                    mac_map::in_order(s),
                    forall|k: int| 0 <= k < s.len() ==> (#[trigger] s[k]).1.mac == s[k].0,
                    *new == s[i as int].1,
                    forall|k: int| 0 <= k < order@.len() ==> #[trigger] order@[k] < i,
                    listed(s, order@),
                    forall|k: int|
                        0 <= k < low ==> listed_before(s[(#[trigger] order@[k]) as int].1@, new@),
                    forall|k: int|
                        high <= k < order@.len() ==> listed_before(
                            new@,
                            s[(#[trigger] order@[k]) as int].1@,
                        ),
                decreases high - low,
            {
                let mid: usize = low + (high - low) / 2;
                let there = self.hosts.at(order[mid]).1;
                assert(s[order@[mid as int] as int].0.rank() < s[i as int].0.rank());
                assert(listed_before(s[order@[mid as int] as int].1@, new@) || listed_before(
                    new@,
                    s[order@[mid as int] as int].1@,
                ));
                if there.updated_unix > new.updated_unix || (there.updated_unix == new.updated_unix
                    && there.mac.before(&new.mac)) {
                    low = mid + 1;
                } else {
                    high = mid;
                }
            }
            let ghost was = order@;
            order.insert(low, i);
            proof {
                let now = order@;
                assert forall|k: int, j: int| 0 <= k < j < now.len() implies listed_before(
                    s[(#[trigger] now[k]) as int].1@,
                    s[(#[trigger] now[j]) as int].1@,
                ) by {
                    let a = if k < low {
                        k
                    } else {
                        k - 1
                    };
                    let b = if j < low {
                        j
                    } else {
                        j - 1
                    };
                    if k == low {
                        assert(now[j] == was[b]);
                    } else if j == low {
                        assert(now[k] == was[a]);
                    } else {
                        assert(now[k] == was[a] && now[j] == was[b]);
                    }
                }
                assert forall|k: int| 0 <= k < now.len() implies #[trigger] now[k] < i + 1 by {
                    if k != low {
                        let a = if k < low {
                            k
                        } else {
                            k - 1
                        };
                        assert(now[k] == was[a]);
                    }
                }
            }
            i = i + 1;
        }
        order
    }

    /// How many hosts are tracked.
    pub fn len(&self) -> (n: usize)
        ensures
            n == self.in_sequence().len(),
    {
        self.hosts.len()
    }

    /// How many hosts are in `phase`.
    pub fn count(&self, phase: Phase) -> (n: usize)
        ensures
            n == count_in(self.in_sequence(), phase),
            n <= self.in_sequence().len(),
    {
        let ghost hosts = self.in_sequence();
        let mut n: usize = 0;
        let mut i: usize = 0;
        while i < self.hosts.len()
            invariant
                hosts == self.in_sequence(),
                hosts.len() == self.hosts.in_sequence().len(),
                n <= i <= hosts.len(),
                n == count_in(hosts.take(i as int), phase),
            decreases hosts.len() - i,
        {
            assert(hosts.take(i + 1).drop_last() == hosts.take(i as int));
            assert(hosts[i as int] == self.hosts.in_sequence()[i as int].1@);
            if self.hosts.at(i).1.phase == phase {
                n = n + 1;
            }
            i = i + 1;
        }
        assert(hosts.take(i as int) == hosts);
        n
    }

    /// Count of hosts in each phase, for the console summary and metrics.
    pub fn phase_counts(&self) -> (r: Vec<(Phase, usize)>)
        ensures
            r@ == counted(self.in_sequence(), all_phases()),
    {
        let phases = [
            Phase::ScriptFetched,
            Phase::AssetsFetched,
            Phase::RootAttached,
            Phase::Running,
            Phase::Assimilating,
            Phase::Local,
            Phase::Failed,
        ];
        assert(phases@ == all_phases());
        let mut out: Vec<(Phase, usize)> = Vec::new();
        let mut i: usize = 0;
        while i < 7
            invariant
                i <= 7,
                phases@.len() == 7,
                out@ == counted(self.in_sequence(), phases@.take(i as int)),
            decreases 7 - i,
        {
            let ghost next = phases@.take(i + 1);
            assert(next.drop_last() == phases@.take(i as int));
            assert(next.last() == phases@[i as int]);
            let n: usize = self.count(phases[i]);
            if n > 0 {
                out.push((phases[i], n));
            }
            i = i + 1;
        }
        assert(phases@.take(7) == phases@);
        out
    }
}

impl Default for BootState {
    fn default() -> (r: Self)
        ensures
            r.wf(),
            r@ == Map::<Mac, HostStateView>::empty(),
    {
        let r = BootState { hosts: MacMap::new() };
        assert(r@ =~= Map::<Mac, HostStateView>::empty());
        r
    }
}

/// The hosts at the places `order` are listed as a snapshot lists them.
spec fn listed(s: Seq<(Mac, HostState)>, order: Seq<usize>) -> bool {
    forall|k: int, j: int|
        0 <= k < j < order.len() ==> listed_before(
            s[(#[trigger] order[k]) as int].1@,
            s[(#[trigger] order[j]) as int].1@,
        )
}

/// The hosts that have not finished.
fn keep_unfinished(hosts: MacMap<HostState>) -> (kept: MacMap<HostState>)
    requires
        hosts.wf(),
    ensures
        kept.wf(),
        kept.in_sequence().len() <= hosts.in_sequence().len(),
        forall|m: Mac| #[trigger]
            kept@.contains_key(m) <==> hosts@.contains_key(m) && !hosts@[m].phase.terminal(),
        forall|m: Mac| kept@.contains_key(m) ==> #[trigger] kept@[m] == hosts@[m],
{
    let ghost all = hosts@;
    proof {
        hosts.lemma_in_sequence();
    }
    let entries = hosts.into_entries();
    let ghost s = entries@;
    let mut kept: MacMap<HostState> = MacMap::new();
    for e in it: entries
        invariant
            it.seq() == s,
            mac_map::in_order(s),
            kept.wf(),
            kept.in_sequence().len() <= it.index(),
            forall|m: Mac| #[trigger]
                kept@.contains_key(m) ==> exists|j: int|
                    0 <= j < it.index() && (#[trigger] s[j]).0 == m && !s[j].1.phase.terminal()
                        && kept@[m] == s[j].1,
            forall|j: int|
                0 <= j < it.index() && !(#[trigger] s[j]).1.phase.terminal()
                    ==> kept@.contains_key(s[j].0),
    {
        let ghost n = it.index();
        let ghost was = kept@;
        assert(s[n] == e);
        let (mac, state) = e;
        if !state.phase.is_terminal() {
            kept.insert(mac, state);
        }
        assert forall|m: Mac| #[trigger] kept@.contains_key(m) implies exists|j: int|
            0 <= j < n + 1 && (#[trigger] s[j]).0 == m && !s[j].1.phase.terminal() && kept@[m]
                == s[j].1 by {
            if m == mac && !state.phase.terminal() {
                assert(s[n].0 == m);
            } else {
                assert(was.contains_key(m));
            }
        }
    }
    assert forall|m: Mac| #[trigger] kept@.contains_key(m) <==> all.contains_key(m)
        && !all[m].phase.terminal() by {
        if kept@.contains_key(m) {
            let j = choose|j: int|
                0 <= j < s.len() && (#[trigger] s[j]).0 == m && !s[j].1.phase.terminal() && kept@[m]
                    == s[j].1;
            mac_map::lemma_place(s, j);
        }
        if all.contains_key(m) && !all[m].phase.terminal() {
            let j = mac_map::place(s, m);
            assert(s[j].0 == m);
        }
    }
    assert forall|m: Mac| kept@.contains_key(m) implies #[trigger] kept@[m] == all[m] by {
        let j = choose|j: int|
            0 <= j < s.len() && (#[trigger] s[j]).0 == m && !s[j].1.phase.terminal() && kept@[m]
                == s[j].1;
        mac_map::lemma_place(s, j);
    }
    kept
}

/// A host that was updated no later than any other.
fn stalest_of(hosts: &MacMap<HostState>) -> (oldest: Mac)
    requires
        hosts.wf(),
        hosts.in_sequence().len() > 0,
    ensures
        hosts@.contains_key(oldest),
        forall|o: Mac| #[trigger]
            hosts@.contains_key(o) ==> hosts@[oldest].updated_unix <= hosts@[o].updated_unix,
{
    let ghost s = hosts.in_sequence();
    let mut best: usize = 0;
    let mut i: usize = 1;
    while i < hosts.len()
        invariant
            s == hosts.in_sequence(),
            best < i <= s.len(),
            forall|j: int|
                0 <= j < i ==> s[best as int].1.updated_unix <= (#[trigger] s[j]).1.updated_unix,
        decreases s.len() - i,
    {
        if hosts.at(i).1.updated_unix < hosts.at(best).1.updated_unix {
            best = i;
        }
        i = i + 1;
    }
    proof {
        hosts.lemma_in_sequence();
        mac_map::lemma_place(s, best as int);
        assert forall|o: Mac| #[trigger] hosts@.contains_key(o) implies s[best as int].1.updated_unix
            <= hosts@[o].updated_unix by {
            let j = mac_map::place(s, o);
            assert(s[j].0 == o);
        }
    }
    *hosts.at(best).0
}

// ---------------------------------------------------------------------------
// Laws

/// A report never moves a host back, unless it is a failure.
pub proof fn law_phases_only_move_forward(
    before: Map<Mac, HostStateView>,
    mac: Mac,
    phase: Phase,
    detail: Option<Seq<char>>,
    now: u64,
    after: Map<Mac, HostStateView>,
)
    requires
        observed(before, mac, phase, detail, now, after),
        before.contains_key(mac),
    ensures
        after.contains_key(mac),
        after[mac].phase.rank() >= before[mac].phase.rank(),
        after[mac].phase == before[mac].phase || after[mac].phase == phase,
{
}

/// A failure is recorded whatever the host was doing, with what was said of it.
pub proof fn law_failure_can_arrive_at_any_time(
    before: Map<Mac, HostStateView>,
    mac: Mac,
    detail: Option<Seq<char>>,
    now: u64,
    after: Map<Mac, HostStateView>,
)
    requires
        observed(before, mac, Phase::Failed, detail, now, after),
    ensures
        after.contains_key(mac),
        after[mac].phase == Phase::Failed,
        after[mac].detail == detail,
        after[mac].updated_unix == now,
{
}

/// A report says nothing of any other host: each that is still tracked stands as
/// it stood, and none is dropped while there is room.
pub proof fn law_reports_leave_other_hosts_alone(
    before: Map<Mac, HostStateView>,
    mac: Mac,
    phase: Phase,
    detail: Option<Seq<char>>,
    now: u64,
    after: Map<Mac, HostStateView>,
    other: Mac,
)
    requires
        observed(before, mac, phase, detail, now, after),
        other != mac,
    ensures
        after.contains_key(other) ==> before.contains_key(other) && after[other] == before[other],
        before.dom().len() < MAX_TRACKED ==> (after.contains_key(other) <==> before.contains_key(
            other,
        )),
{
}

/// An inventory leaves the phase of a host that moved on as it is, and puts one
/// that nobody had heard of in `Running`.
pub proof fn law_inventory_does_not_disturb_the_phase(
    before: Map<Mac, HostStateView>,
    mac: Mac,
    hardware: InventoryView,
    now: u64,
    after: Map<Mac, HostStateView>,
)
    requires
        described(before, mac, hardware, now, after),
    ensures
        after.contains_key(mac),
        after[mac].hardware == Some(hardware),
        before.contains_key(mac) ==> after[mac].phase == before[mac].phase,
        !before.contains_key(mac) ==> after[mac].phase == Phase::Running,
{
}

/// However many machines report, the map stays bounded.
pub proof fn law_tracked_hosts_are_bounded(state: &BootState)
    requires
        state.wf(),
    ensures
        state@.dom().finite(),
        state@.dom().len() <= MAX_TRACKED,
        state@.dom().len() == state.in_sequence().len(),
{
    state.hosts.lemma_in_sequence();
    assert(state@.dom() =~= state.hosts@.dom());
}

/// The hosts in sequence are the tracked ones: each of them once, in the order of their
/// addresses, and no other.
pub proof fn law_the_sequence_lists_the_tracked_hosts(state: &BootState)
    requires
        state.wf(),
    ensures
        state.in_sequence().len() == state@.dom().len(),
        forall|i: int|
            0 <= i < state.in_sequence().len() ==> {
                let h = #[trigger] state.in_sequence()[i];
                state@.contains_key(h.mac) && state@[h.mac] == h && h.mac.valid()
            },
        forall|i: int, j: int|
            0 <= i < j < state.in_sequence().len() ==> (#[trigger] state.in_sequence()[i]).mac.rank()
                < (#[trigger] state.in_sequence()[j]).mac.rank(),
        forall|m: Mac| #[trigger]
            state@.contains_key(m) ==> state.in_sequence().contains(state@[m]) && state@[m].mac == m
                && m.valid(),
{
    let entries = state.hosts.in_sequence();
    let hosts = state.in_sequence();
    state.hosts.lemma_in_sequence();
    law_tracked_hosts_are_bounded(state);
    assert forall|i: int| 0 <= i < entries.len() implies {
        let e = #[trigger] entries[i];
        state.hosts@.contains_key(e.0) && state.hosts@[e.0] == e.1
    } by {
        mac_map::lemma_place(entries, i);
        assert(mac_map::holds(entries, entries[i].0));
    }
    assert forall|i: int| 0 <= i < hosts.len() implies {
        let h = #[trigger] hosts[i];
        state@.contains_key(h.mac) && state@[h.mac] == h && h.mac.valid() && h.mac == entries[i].0
    } by {
        let e = entries[i];
        assert(state.hosts@.contains_key(e.0));
        assert(hosts[i] == e.1@);
    }
    assert forall|i: int, j: int| 0 <= i < j < hosts.len() implies (
    #[trigger] hosts[i]).mac.rank() < (#[trigger] hosts[j]).mac.rank() by {
        assert(entries[i].0.rank() < entries[j].0.rank());
    }
    assert forall|m: Mac| #[trigger] state@.contains_key(m) implies hosts.contains(state@[m])
        && state@[m].mac == m && m.valid() by {
        assert(state.hosts@.contains_key(m));
        let at = mac_map::place(entries, m);
        assert(mac_map::holds(entries, m));
        assert(entries[at].0 == m);
        assert(hosts[at] == state@[m]);
    }
}

/// That no host is listed twice.
spec fn each_once(list: Seq<HostStateView>) -> bool {
    forall|i: int, j: int|
        0 <= i < j < list.len() ==> (#[trigger] list[i]).mac != (#[trigger] list[j]).mac
}

/// The hosts that are counted are those a snapshot lists: each count is how many of its
/// hosts are in that phase.
pub proof fn law_counts_are_those_of_the_snapshot(state: &BootState, list: Seq<HostStateView>)
    requires
        state.wf(),
        snapshot_of(state@, list),
    ensures
        list.len() == state.in_sequence().len(),
        forall|phase: Phase| #[trigger]
            count_in(state.in_sequence(), phase) == count_in(list, phase),
        counted(state.in_sequence(), all_phases()) == counted(list, all_phases()),
{
    let hosts = state.in_sequence();
    law_tracked_hosts_are_bounded(state);
    law_the_sequence_lists_the_tracked_hosts(state);
    assert(each_once(hosts));
    assert(each_once(list));
    lemma_listed_all(state@, list);
    assert forall|h: HostStateView| #[trigger] hosts.contains(h) implies list.contains(h) by {
        let i = choose|i: int| 0 <= i < hosts.len() && hosts[i] == h;
        assert(state@.contains_key(hosts[i].mac));
        assert(list.contains(state@[h.mac]));
    }
    assert forall|h: HostStateView| #[trigger] list.contains(h) implies hosts.contains(h) by {
        let i = choose|i: int| 0 <= i < list.len() && list[i] == h;
        assert(state@.contains_key(list[i].mac));
    }
    assert forall|phase: Phase| #[trigger] count_in(hosts, phase) == count_in(list, phase) by {
        lemma_same_counts(hosts, list, phase);
    }
    lemma_same_counted(hosts, list, all_phases());
}

/// A snapshot lists every tracked host.
proof fn lemma_listed_all(hosts: Map<Mac, HostStateView>, list: Seq<HostStateView>)
    requires
        hosts.dom().finite(),
        snapshot_of(hosts, list),
        each_once(list),
    ensures
        forall|m: Mac| #[trigger] hosts.contains_key(m) ==> list.contains(hosts[m]),
{
    let macs = list.map_values(|h: HostStateView| h.mac);
    assert(macs.no_duplicates()) by {
        assert forall|i: int, j: int| 0 <= i < macs.len() && 0 <= j < macs.len() && i != j implies macs[i]
            != macs[j] by {
            if i < j {
                assert(list[i].mac != list[j].mac);
            } else {
                assert(list[j].mac != list[i].mac);
            }
        }
    }
    macs.unique_seq_to_set();
    let set = macs.to_set();
    assert(set.subset_of(hosts.dom())) by {
        assert forall|m: Mac| set.contains(m) implies hosts.dom().contains(m) by {
            let i = choose|i: int| 0 <= i < macs.len() && macs[i] == m;
            assert(list[i].mac == m);
        }
    }
    vstd::set_lib::lemma_subset_equality(set, hosts.dom());
    assert forall|m: Mac| #[trigger] hosts.contains_key(m) implies list.contains(hosts[m]) by {
        assert(set.contains(m));
        let i = choose|i: int| 0 <= i < macs.len() && macs[i] == m;
        assert(list[i].mac == m);
        assert(list[i] == hosts[m]);
    }
}

proof fn lemma_count_removed(list: Seq<HostStateView>, i: int, phase: Phase)
    requires
        0 <= i < list.len(),
    ensures
        count_in(list, phase) == count_in(list.remove(i), phase) + if list[i].phase == phase {
            1nat
        } else {
            0
        },
    decreases list.len(),
{
    if i < list.len() - 1 {
        lemma_count_removed(list.drop_last(), i, phase);
        assert(list.drop_last().remove(i) =~= list.remove(i).drop_last());
        assert(list.remove(i).last() == list.last());
    } else {
        assert(list.remove(i) =~= list.drop_last());
    }
}

/// Lists of the same hosts, each once, count the same.
proof fn lemma_same_counts(a: Seq<HostStateView>, b: Seq<HostStateView>, phase: Phase)
    requires
        each_once(a),
        each_once(b),
        forall|h: HostStateView| #[trigger] a.contains(h) ==> b.contains(h),
        forall|h: HostStateView| #[trigger] b.contains(h) ==> a.contains(h),
    ensures
        count_in(a, phase) == count_in(b, phase),
    decreases a.len(),
{
    if a.len() == 0 {
        if b.len() > 0 {
            assert(b.contains(b[0]));
        }
    } else {
        let h = a.last();
        assert(a.contains(h));
        let i = choose|i: int| 0 <= i < b.len() && b[i] == h;
        let x = a.drop_last();
        let y = b.remove(i);
        assert forall|k: HostStateView| #[trigger] x.contains(k) implies y.contains(k) by {
            let n = choose|n: int| 0 <= n < x.len() && x[n] == k;
            assert(a[n] == k && k.mac != h.mac);
            assert(a.contains(k));
            let m = choose|m: int| 0 <= m < b.len() && b[m] == k;
            if m < i {
                assert(y[m] == k);
            } else {
                assert(y[m - 1] == k);
            }
        }
        assert forall|k: HostStateView| #[trigger] y.contains(k) implies x.contains(k) by {
            let n = choose|n: int| 0 <= n < y.len() && y[n] == k;
            let m = if n < i {
                n
            } else {
                n + 1
            };
            assert(b[m] == k);
            if m < i {
                assert(b[m].mac != b[i].mac);
            } else {
                assert(b[i].mac != b[m].mac);
            }
            assert(b.contains(k));
            let p = choose|p: int| 0 <= p < a.len() && a[p] == k;
            assert(x[p] == k);
        }
        assert(each_once(y)) by {
            assert forall|n: int, m: int| 0 <= n < m < y.len() implies (#[trigger] y[n]).mac != (
            #[trigger] y[m]).mac by {
                let p = if n < i {
                    n
                } else {
                    n + 1
                };
                let q = if m < i {
                    m
                } else {
                    m + 1
                };
                assert(b[p].mac != b[q].mac);
            }
        }
        assert(each_once(x));
        lemma_same_counts(x, y, phase);
        lemma_count_removed(b, i, phase);
    }
}

proof fn lemma_same_counted(a: Seq<HostStateView>, b: Seq<HostStateView>, phases: Seq<Phase>)
    requires
        forall|phase: Phase| #[trigger] count_in(a, phase) == count_in(b, phase),
    ensures
        counted(a, phases) == counted(b, phases),
    decreases phases.len(),
{
    if phases.len() > 0 {
        lemma_same_counted(a, b, phases.drop_last());
    }
}

/// The counts of a state name each phase at most once, in the order of the phases, and
/// exactly those that some host of the snapshot is in, each with how many are; together
/// they are all of them.
pub proof fn law_phase_counts_summarise_the_snapshot(state: &BootState, list: Seq<HostStateView>)
    requires
        state.wf(),
        snapshot_of(state@, list),
    ensures
        ({
            let counts = counted(state.in_sequence(), all_phases());
            &&& forall|i: int, j: int|
                0 <= i < j < counts.len() ==> (#[trigger] counts[i]).0.rank() < (
                #[trigger] counts[j]).0.rank()
            &&& forall|i: int|
                0 <= i < counts.len() ==> (#[trigger] counts[i]).1 > 0 && counts[i].1 == count_in(
                    list,
                    counts[i].0,
                )
            &&& forall|phase: Phase| #[trigger]
                count_in(list, phase) > 0 ==> exists|i: int|
                    0 <= i < counts.len() && (#[trigger] counts[i]).0 == phase
            &&& total(counts) == list.len()
        }),
{
    let hosts = state.in_sequence();
    law_counts_are_those_of_the_snapshot(state, list);
    law_tracked_hosts_are_bounded(state);
    let phases = all_phases();
    assert forall|i: int, j: int| 0 <= i < j < phases.len() implies (#[trigger] phases[i]).rank() < (
    #[trigger] phases[j]).rank() by {}
    lemma_counted_entries(list, phases);
    assert forall|phase: Phase| #[trigger] count_in(list, phase) > 0 implies exists|i: int|
        0 <= i < counted(list, phases).len() && (#[trigger] counted(list, phases)[i]).0 == phase by {
        let p = phase.rank() as int;
        assert(phases[p] == phase);
        lemma_counted_holds(list, phases, p);
    }
    law_every_host_is_counted_once(list);
    let f = phases;
    assert(f.drop_last() =~= f.take(6));
    assert(f.take(6).drop_last() =~= f.take(5));
    assert(f.take(5).drop_last() =~= f.take(4));
    assert(f.take(4).drop_last() =~= f.take(3));
    assert(f.take(3).drop_last() =~= f.take(2));
    assert(f.take(2).drop_last() =~= f.take(1));
    assert(f.take(1).drop_last() =~= f.take(0));
    lemma_total_step(list, f);
    lemma_total_step(list, f.take(6));
    lemma_total_step(list, f.take(5));
    lemma_total_step(list, f.take(4));
    lemma_total_step(list, f.take(3));
    lemma_total_step(list, f.take(2));
    lemma_total_step(list, f.take(1));
}

/// What the counts add up to.
pub open spec fn total(counts: Seq<(Phase, usize)>) -> nat
    decreases counts.len(),
{
    if counts.len() == 0 {
        0
    } else {
        total(counts.drop_last()) + counts.last().1 as nat
    }
}

proof fn lemma_count_is_bounded(list: Seq<HostStateView>, phase: Phase)
    ensures
        count_in(list, phase) <= list.len(),
    decreases list.len(),
{
    if list.len() > 0 {
        lemma_count_is_bounded(list.drop_last(), phase);
    }
}

proof fn lemma_total_step(list: Seq<HostStateView>, phases: Seq<Phase>)
    requires
        phases.len() > 0,
        list.len() <= MAX_TRACKED,
    ensures
        total(counted(list, phases)) == total(counted(list, phases.drop_last())) + count_in(
            list,
            phases.last(),
        ),
{
    lemma_count_is_bounded(list, phases.last());
    let before = counted(list, phases.drop_last());
    let n = count_in(list, phases.last());
    if n > 0 {
        let now = before.push((phases.last(), n as usize));
        assert(now.drop_last() =~= before);
    }
}

proof fn lemma_counted_entries(list: Seq<HostStateView>, phases: Seq<Phase>)
    requires
        list.len() <= MAX_TRACKED,
        forall|i: int, j: int|
            0 <= i < j < phases.len() ==> (#[trigger] phases[i]).rank() < (
            #[trigger] phases[j]).rank(),
    ensures
        forall|i: int, j: int|
            0 <= i < j < counted(list, phases).len() ==> (
            #[trigger] counted(list, phases)[i]).0.rank() < (
            #[trigger] counted(list, phases)[j]).0.rank(),
        forall|i: int|
            0 <= i < counted(list, phases).len() ==> {
                let c = #[trigger] counted(list, phases)[i];
                c.1 > 0 && c.1 == count_in(list, c.0) && phases.contains(c.0)
            },
    decreases phases.len(),
{
    if phases.len() > 0 {
        let fewer = phases.drop_last();
        let before = counted(list, fewer);
        let now = counted(list, phases);
        lemma_counted_entries(list, fewer);
        lemma_count_is_bounded(list, phases.last());
        assert(phases.contains(phases.last())) by {
            assert(phases[phases.len() - 1] == phases.last());
        }
        assert forall|i: int| 0 <= i < before.len() implies {
            let c = #[trigger] before[i];
            phases.contains(c.0) && c.0.rank() < phases.last().rank()
        } by {
            let k = choose|k: int| 0 <= k < fewer.len() && fewer[k] == before[i].0;
            assert(phases[k] == before[i].0);
            assert(phases[k].rank() < phases[phases.len() - 1].rank());
        }
        assert forall|i: int| 0 <= i < now.len() implies {
            let c = #[trigger] now[i];
            c.1 > 0 && c.1 == count_in(list, c.0) && phases.contains(c.0)
        } by {
            if i < before.len() {
                assert(now[i] == before[i]);
            }
        }
        assert forall|i: int, j: int| 0 <= i < j < now.len() implies (#[trigger] now[i]).0.rank() < (
        #[trigger] now[j]).0.rank() by {
            assert(now[i] == before[i]);
            if j < before.len() {
                assert(now[j] == before[j]);
            }
        }
    }
}

/// Every host a snapshot lists is a tracked one, and its phase is counted.
pub proof fn law_listed_hosts_are_counted(state: &BootState, list: Seq<HostStateView>, i: int)
    requires
        state.wf(),
        snapshot_of(state@, list),
        0 <= i < list.len(),
    ensures
        count_in(state.in_sequence(), list[i].phase) > 0,
        exists|j: int|
            0 <= j < counted(state.in_sequence(), all_phases()).len() && (
            #[trigger] counted(state.in_sequence(), all_phases())[j]).0 == list[i].phase,
{
    let hosts = state.in_sequence();
    let entries = state.hosts.in_sequence();
    let m = list[i].mac;
    state.hosts.lemma_in_sequence();
    assert(state.hosts@.contains_key(m));
    let at = mac_map::place(entries, m);
    assert(entries[at].0 == m);
    assert(hosts[at] == list[i]);
    lemma_counted_somewhere(hosts, at);
    let p = list[i].phase.rank() as int;
    assert(all_phases()[p] == list[i].phase);
    lemma_counted_holds(hosts, all_phases(), p);
}

proof fn lemma_counted_somewhere(hosts: Seq<HostStateView>, i: int)
    requires
        0 <= i < hosts.len(),
    ensures
        count_in(hosts, hosts[i].phase) > 0,
    decreases hosts.len(),
{
    if i < hosts.len() - 1 {
        lemma_counted_somewhere(hosts.drop_last(), i);
    }
}

proof fn lemma_counted_holds(hosts: Seq<HostStateView>, phases: Seq<Phase>, i: int)
    requires
        0 <= i < phases.len(),
        count_in(hosts, phases[i]) > 0,
    ensures
        exists|j: int|
            0 <= j < counted(hosts, phases).len() && (#[trigger] counted(hosts, phases)[j]).0
                == phases[i],
    decreases phases.len(),
{
    let now = counted(hosts, phases);
    let before = counted(hosts, phases.drop_last());
    if i < phases.len() - 1 {
        lemma_counted_holds(hosts, phases.drop_last(), i);
        let j = choose|j: int| 0 <= j < before.len() && (#[trigger] before[j]).0 == phases[i];
        assert(now[j].0 == phases[i]);
    } else {
        assert(now[now.len() - 1].0 == phases[i]);
    }
}

/// Every phase has a spelling of its own.
pub proof fn law_every_phase_has_a_distinct_slug(a: Phase, b: Phase)
    ensures
        a.word() == b.word() <==> a == b,
{
    reveal_strlit("script-fetched");
    reveal_strlit("assets-fetched");
    reveal_strlit("root-attached");
    reveal_strlit("running");
    reveal_strlit("assimilating");
    reveal_strlit("local");
    reveal_strlit("failed");
    if a != b && a.word() == b.word() {
        assert(a.word()[0] == b.word()[0]);
        assert(a.word()[1] == b.word()[1]);
        assert(a.word()[3] == b.word()[3]);
    }
}

/// Every tracked host is counted in exactly one phase.
pub proof fn law_every_host_is_counted_once(hosts: Seq<HostStateView>)
    ensures
        count_in(hosts, Phase::ScriptFetched) + count_in(hosts, Phase::AssetsFetched) + count_in(
            hosts,
            Phase::RootAttached,
        ) + count_in(hosts, Phase::Running) + count_in(hosts, Phase::Assimilating) + count_in(
            hosts,
            Phase::Local,
        ) + count_in(hosts, Phase::Failed) == hosts.len(),
    decreases hosts.len(),
{
    if hosts.len() > 0 {
        law_every_host_is_counted_once(hosts.drop_last());
    }
}

/// The phases follow one another as a boot goes: the script, the assets, the root,
/// running, assimilating, local. Failure outranks them all. A host is done with the
/// boot server exactly when it is local or failed.
pub proof fn law_a_boot_goes_through_its_phases(phase: Phase)
    ensures
        Phase::ScriptFetched.rank() < Phase::AssetsFetched.rank() < Phase::RootAttached.rank()
            < Phase::Running.rank() < Phase::Assimilating.rank() < Phase::Local.rank()
            < Phase::Failed.rank(),
        phase.terminal() <==> phase is Local || phase is Failed,
{
}

/// A first report makes a host known from that moment, in the phase it reports and
/// with what it says, and with nothing else known of it.
pub proof fn law_a_first_report_makes_a_host_known(
    before: Map<Mac, HostStateView>,
    mac: Mac,
    phase: Phase,
    detail: Option<Seq<char>>,
    now: u64,
    after: Map<Mac, HostStateView>,
)
    requires
        observed(before, mac, phase, detail, now, after),
        !before.contains_key(mac),
    ensures
        after.contains_key(mac),
        after[mac].mac == mac,
        after[mac].phase == phase,
        after[mac].detail == detail,
        after[mac].first_seen_unix == now,
        after[mac].updated_unix == now,
        after[mac].pallet_version is None,
        after[mac].hardware is None,
{
}

/// A report that takes a host further, or says more of the phase it is in, is what is
/// known of it from then on; since when it is known, what it was served and what it is
/// made of stay. One that comes late changes nothing at all.
pub proof fn law_a_later_report_is_what_is_known(
    before: Map<Mac, HostStateView>,
    mac: Mac,
    phase: Phase,
    detail: Option<Seq<char>>,
    now: u64,
    after: Map<Mac, HostStateView>,
)
    requires
        observed(before, mac, phase, detail, now, after),
        before.contains_key(mac),
    ensures
        after.contains_key(mac),
        phase.rank() >= before[mac].phase.rank() ==> after[mac].phase == phase && after[mac].detail
            == detail && after[mac].updated_unix == now,
        phase.rank() < before[mac].phase.rank() ==> after[mac] == before[mac],
        after[mac].mac == before[mac].mac,
        after[mac].first_seen_unix == before[mac].first_seen_unix,
        after[mac].pallet_version == before[mac].pallet_version,
        after[mac].hardware == before[mac].hardware,
{
}

/// The same report again only says that the host is still there.
pub proof fn law_a_repeated_report_says_nothing_new(
    before: Map<Mac, HostStateView>,
    mac: Mac,
    phase: Phase,
    detail: Option<Seq<char>>,
    now: u64,
    once: Map<Mac, HostStateView>,
    later: u64,
    twice: Map<Mac, HostStateView>,
)
    requires
        observed(before, mac, phase, detail, now, once),
        observed(once, mac, phase, detail, later, twice),
    ensures
        twice.contains_key(mac),
        twice[mac].phase == once[mac].phase,
        twice[mac].detail == once[mac].detail,
        twice[mac].first_seen_unix == once[mac].first_seen_unix,
        twice.dom() == once.dom(),
        forall|other: Mac|
            other != mac && #[trigger] once.contains_key(other) ==> twice[other] == once[other],
{
    assert(twice.dom() =~= once.dom());
}

/// An inventory is kept with the host it describes, and marks when it came. Everything
/// else that is known of that host stays, and so do the other hosts; one that nobody had
/// heard of is known from that moment.
pub proof fn law_an_inventory_is_kept(
    before: Map<Mac, HostStateView>,
    mac: Mac,
    hardware: InventoryView,
    now: u64,
    after: Map<Mac, HostStateView>,
    other: Mac,
)
    requires
        described(before, mac, hardware, now, after),
    ensures
        after.contains_key(mac),
        after[mac].hardware == Some(hardware),
        after[mac].updated_unix == now,
        before.contains_key(mac) ==> after[mac].detail == before[mac].detail && after[mac].mac
            == before[mac].mac && after[mac].pallet_version == before[mac].pallet_version
            && after[mac].first_seen_unix == before[mac].first_seen_unix,
        !before.contains_key(mac) ==> after[mac].mac == mac && after[mac].detail is None
            && after[mac].pallet_version is None && after[mac].first_seen_unix == now,
        other != mac && after.contains_key(other) ==> before.contains_key(other) && after[other]
            == before[other],
        other != mac && before.contains_key(other) && before.dom().len() < 20_000
            ==> after.contains_key(other),
{
}

/// A full map makes room by letting go of the hosts that are done. A host that still
/// boots is dropped only where all of the tracked ones do, and then it is one that no
/// other was updated before.
pub proof fn law_hosts_that_still_boot_are_kept(
    before: Map<Mac, HostStateView>,
    mac: Mac,
    phase: Phase,
    detail: Option<Seq<char>>,
    now: u64,
    after: Map<Mac, HostStateView>,
    other: Mac,
)
    requires
        observed(before, mac, phase, detail, now, after),
        before.dom().finite(),
        before.dom().len() == 20_000,
        !before.contains_key(mac),
        before.contains_key(other),
    ensures
        before[other].phase is Local || before[other].phase is Failed ==> !after.contains_key(other),
        !(before[other].phase is Local) && !(before[other].phase is Failed) && !after.contains_key(
            other,
        ) ==> forall|m: Mac| #[trigger]
            before.contains_key(m) ==> !before[m].phase.terminal() && before[other].updated_unix
                <= before[m].updated_unix,
        after.dom().len() <= 20_000,
{
    let left = unfinished(before);
    assert(left.dom().subset_of(before.dom()));
    vstd::set_lib::lemma_len_subset(left.dom(), before.dom());
    let room = choose|room: Map<Mac, HostStateView>| #[trigger]
        made_room(before, mac, room) && after == room.insert(
            mac,
            after_phase(known(before, mac), mac, phase, detail, now),
        );
    if left.dom().len() >= MAX_TRACKED {
        vstd::set_lib::lemma_subset_equality(left.dom(), before.dom());
        assert forall|m: Mac| #[trigger] before.contains_key(m) implies !before[m].phase.terminal()
            && left.contains_key(m) by {
            assert(left.dom().contains(m));
        }
        let gone = choose|m: Mac| #[trigger] stalest(left, m) && room == left.remove(m);
        assert(left.dom().contains(gone));
        assert(room.dom() =~= left.dom().remove(gone));
        assert(after.dom() =~= room.dom().insert(mac));
        if other == gone {
            assert forall|m: Mac| #[trigger] before.contains_key(m) implies
                before[other].updated_unix <= before[m].updated_unix by {
                assert(left.contains_key(m));
            }
        }
    } else {
        assert(after.dom() =~= left.dom().insert(mac));
    }
}

} // verus!
