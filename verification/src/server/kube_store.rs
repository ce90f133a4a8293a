//! `BootHost` resources as the host record source.
//!
//! Two halves, both level-triggered. A watch keeps the cluster layer of the host
//! store current, replacing the whole set on every relist so a delete missed
//! during a disconnect heals itself. A status writer walks what we know and
//! patches the objects whose status no longer matches, so it converges instead of
//! replaying.
//!
//! Neither half is on the boot path. A cluster that is unreachable costs the fleet
//! its `kubectl get bh` view and nothing else.

use crate::server::boothost;
use crate::server::boothost::{
    desired_status, BootHost, BootHostStatus, BootHostStatusView,
};
use crate::server::hosts;
use crate::server::hosts::{HostRecord, HostStore, HostStoreView, ObjectRef};
use crate::server::http;
use crate::server::http::AppState;
use crate::server::mac::Mac;
use crate::server::mac_map;
use crate::server::mac_map::MacMap;
use crate::server::metrics::Metrics;
use crate::server::state;
use vstd::prelude::*;

verus! {

/// How many status patches one pass may write.
///
/// Ten thousand machines racked at once is the design point, and the first pass
/// after a restart would otherwise be ten thousand writes in a burst against the
/// apiserver that the whole appliance cluster depends on.
pub const MAX_PATCHES_PER_PASS: usize = 200;

/// The objects the watch has seen, by normalised MAC.
///
/// Kept alongside the host store because the status writer needs the object, and
/// the host store knows only about boot.
pub struct BootHostIndex {
    objects: MacMap<BootHost>,
}

impl View for BootHostIndex {
    type V = Map<Mac, BootHost>;

    closed spec fn view(&self) -> Map<Mac, BootHost> {
        self.objects@
    }
}

/// Whether an object describes the host at that address.
pub open spec fn names(object: BootHost, mac: Mac) -> bool {
    match object.record() {
        Some(r) => r.mac == mac,
        None => false,
    }
}

/// The records of the objects that describe one.
pub open spec fn records_of(objects: Seq<BootHost>) -> Seq<HostRecord>
    decreases objects.len(),
{
    if objects.len() == 0 {
        Seq::empty()
    } else {
        match objects.last().record() {
            Some(r) => records_of(objects.drop_last()).push(r),
            None => records_of(objects.drop_last()),
        }
    }
}

/// The objects that describe a host, by its address. Where two name the same, the
/// later one stands.
pub open spec fn indexed(objects: Seq<BootHost>) -> Map<Mac, BootHost>
    decreases objects.len(),
{
    if objects.len() == 0 {
        Map::empty()
    } else {
        match objects.last().record() {
            Some(r) => indexed(objects.drop_last()).insert(r.mac, objects.last()),
            None => indexed(objects.drop_last()),
        }
    }
}

/// The index and the cluster layer of the host store speak of the same objects.
pub open spec fn in_step(index: Map<Mac, BootHost>, kube: Map<Mac, HostRecord>) -> bool {
    &&& forall|m: Mac| #[trigger] index.contains_key(m) <==> kube.contains_key(m)
    &&& forall|m: Mac| #[trigger] index.contains_key(m) ==> index[m].record() == Some(kube[m])
}

impl BootHostIndex {
    /// Each object stands under the address it names.
    pub closed spec fn wf(&self) -> bool {
        &&& self.objects.wf()
        &&& forall|m: Mac| #[trigger]
            self.objects@.contains_key(m) ==> names(self.objects@[m], m)
    }

    /// Replace everything, from a completed relist.
    pub fn reset(&mut self, objects: Vec<BootHost>, store: &mut HostStore)
        requires
            old(store).wf(),
        ensures
            final(self).wf(),
            final(store).wf(),
            final(self)@ == indexed(objects@),
            final(store)@ == (HostStoreView {
                kube: hosts::filed(records_of(objects@)),
                synced: true,
                ..old(store)@
            }),
            in_step(final(self)@, final(store)@.kube),
    {
        let ghost list = objects@;
        let mut entries: MacMap<BootHost> = MacMap::new();
        let mut records: Vec<HostRecord> = Vec::new();
        for object in it: objects
            invariant
                it.seq() == list,
                entries.wf(),
                entries@ == indexed(list.take(it.index())),
                records@ == records_of(list.take(it.index())),
                forall|m: Mac| #[trigger]
                    entries@.contains_key(m) ==> names(entries@[m], m),
        {
            proof {
                let n = it.index();
                assert(list[n] == object);
                assert(list.take(n + 1).drop_last() == list.take(n));
            }
            if let Some(record) = object.to_record() {
                let mac = record.mac;
                records.push(record);
                entries.insert(mac, object);
            }
        }
        proof {
            assert(list.take(list.len() as int) == list);
            law_index_and_store_list_the_same(list);
        }
        self.objects = entries;
        store.set_kube_records(records);
    }

    /// Apply one object. Tells whether another object claimed the same address.
    pub fn apply(&mut self, object: BootHost, store: &mut HostStore) -> (contested: bool)
        requires
            old(self).wf(),
            old(store).wf(),
        ensures
            final(self).wf(),
            final(store).wf(),
            match object.record() {
                None => final(self)@ == old(self)@ && final(store)@ == old(store)@ && !contested,
                Some(r) => {
                    &&& final(self)@ == old(self)@.insert(r.mac, object)
                    &&& final(store)@ == (HostStoreView {
                        kube: old(store)@.kube.insert(r.mac, r),
                        ..old(store)@
                    })
                    &&& contested == (old(store)@.kube.contains_key(r.mac) && !hosts::same_object(
                        old(store)@.kube[r.mac].object,
                        r.object,
                    ))
                },
            },
            in_step(old(self)@, old(store)@.kube) ==> in_step(final(self)@, final(store)@.kube),
    {
        match object.to_record() {
            None => false,
            Some(record) => {
                self.objects.insert(record.mac, object);
                store.apply_kube_record(record)
            },
        }
    }

    /// Forget one object.
    pub fn delete(&mut self, object: &BootHost, store: &mut HostStore)
        requires
            old(self).wf(),
            old(store).wf(),
        ensures
            final(self).wf(),
            final(store).wf(),
            match object.record() {
                None => final(self)@ == old(self)@ && final(store)@ == old(store)@,
                Some(r) => final(self)@ == old(self)@.remove(r.mac) && final(store)@ == (
                HostStoreView { kube: old(store)@.kube.remove(r.mac), ..old(store)@ }),
            },
            in_step(old(self)@, old(store)@.kube) ==> in_step(final(self)@, final(store)@.kube),
    {
        if let Some(record) = object.to_record() {
            let _ = self.objects.remove(&record.mac);
            store.remove_kube_record(&record.mac);
        }
    }

    /// Remember a status we just wrote, so the next pass does not rewrite it in
    /// the window before the watch delivers our own update back to us.
    pub fn note_status(&mut self, mac: &Mac, status: BootHostStatus)
        requires
            old(self).wf(),
        ensures
            final(self).wf(),
            final(self)@ == noted(old(self)@, *mac, status),
    {
        match self.objects.remove(mac) {
            Some(object) => {
                let current = BootHost {
                    metadata: object.metadata,
                    spec: object.spec,
                    status: Some(status),
                };
                assert(current.record() == object.record());
                self.objects.insert(*mac, current);
                assert(self@ =~= old(self)@.insert(
                    *mac,
                    (BootHost { status: Some(status), ..old(self)@[*mac] }),
                ));
            },
            None => {
                assert(self@ =~= old(self)@);
            },
        }
    }

    /// The status noted for a host.
    pub fn status(&self, mac: &Mac) -> (r: Option<&BootHostStatus>)
        requires
            self.wf(),
        ensures
            match r {
                Some(s) => self@.contains_key(*mac) && self@[*mac].status == Some(*s),
                None => !self@.contains_key(*mac) || self@[*mac].status is None,
            },
    {
        match self.objects.get(mac) {
            Some(object) => object.status.as_ref(),
            None => None,
        }
    }

    pub fn contains(&self, mac: &Mac) -> (r: bool)
        requires
            self.wf(),
        ensures
            r == self@.contains_key(*mac),
    {
        self.objects.contains(mac)
    }

    pub fn len(&self) -> (n: usize)
        requires
            self.wf(),
        ensures
            n == self@.dom().len(),
    {
        proof {
            self.objects.lemma_in_sequence();
        }
        self.objects.len()
    }
}

impl Default for BootHostIndex {
    fn default() -> (r: Self)
        ensures
            r.wf(),
            r@ == Map::<Mac, BootHost>::empty(),
    {
        BootHostIndex { objects: MacMap::new() }
    }
}

// ---------------------------------------------------------------------------
// The watch

/// What the watch delivered.
pub enum WatchEvent {
    /// A relist begins.
    Init,
    /// One object of the relist.
    InitApply(BootHost),
    /// The relist is complete.
    InitDone,
    Apply(BootHost),
    Delete(BootHost),
    Failed,
}

/// Two objects that claim one address. The later one is served.
pub struct Contest {
    pub mac: Mac,
    pub previous: Option<ObjectRef>,
    pub now: Option<ObjectRef>,
}

/// The relist under way.
pub struct Watch {
    pub relisting: Vec<BootHost>,
}

impl Watch {
    pub fn new() -> (r: Self)
        ensures
            r.relisting@ == Seq::<BootHost>::empty(),
    {
        Watch { relisting: Vec::new() }
    }

    /// One event. On a failure the records at hand stay: a boot tier that stopped
    /// answering because the apiserver hiccuped would be the worse failure. Says
    /// which two objects claim one address, where an applied object took it over.
    pub fn on_event(
        &mut self,
        event: WatchEvent,
        index: &mut BootHostIndex,
        state: &mut AppState,
    ) -> (r: Option<Contest>)
        requires
            old(index).wf(),
            old(state).wf(),
        ensures
            final(index).wf(),
            final(state).wf(),
            final(state).cfg == old(state).cfg,
            final(state).boot == old(state).boot,
            final(state).assets == old(state).assets,
            final(state).claim_client == old(state).claim_client,
            final(state).claims == old(state).claims,
            final(state).metrics == (match event {
                WatchEvent::Failed => Metrics {
                    watch_errors: http::bumped(old(state).metrics.watch_errors),
                    ..old(state).metrics
                },
                _ => old(state).metrics,
            }),
            watched(
                old(self).relisting@,
                old(index)@,
                old(state).hosts@,
                event,
                final(self).relisting@,
                final(index)@,
                final(state).hosts@,
            ),
            in_step(old(index)@, old(state).hosts@.kube) ==> in_step(
                final(index)@,
                final(state).hosts@.kube,
            ),
            r == contest(old(state).hosts@.kube, event),
    {
        match event {
            WatchEvent::Init => {
                self.relisting = Vec::new();
                None
            },
            WatchEvent::InitApply(object) => {
                self.relisting.push(object);
                None
            },
            WatchEvent::InitDone => {
                let mut list: Vec<BootHost> = Vec::new();
                std::mem::swap(&mut list, &mut self.relisting);
                index.reset(list, &mut state.hosts);
                None
            },
            WatchEvent::Apply(object) => {
                let taken = match object.to_record() {
                    Some(record) => match state.hosts.lookup(&record.mac) {
                        Some(before) => Some(
                            Contest { mac: record.mac, previous: before.object, now: record.object },
                        ),
                        None => None,
                    },
                    None => None,
                };
                if index.apply(object, &mut state.hosts) {
                    taken
                } else {
                    None
                }
            },
            WatchEvent::Delete(object) => {
                index.delete(&object, &mut state.hosts);
                None
            },
            WatchEvent::Failed => {
                Metrics::incr(&mut state.metrics.watch_errors);
                None
            },
        }
    }
}

/// Which two objects an event shows to claim one address.
pub open spec fn contest(kube: Map<Mac, HostRecord>, event: WatchEvent) -> Option<Contest> {
    match event {
        WatchEvent::Apply(object) => match object.record() {
            Some(r) => if kube.contains_key(r.mac) && !hosts::same_object(
                kube[r.mac].object,
                r.object,
            ) {
                Some(Contest { mac: r.mac, previous: kube[r.mac].object, now: r.object })
            } else {
                None
            },
            None => None,
        },
        _ => None,
    }
}

/// What an event does to the relist under way, the index and the host store.
pub open spec fn watched(
    relisting: Seq<BootHost>,
    index: Map<Mac, BootHost>,
    store: HostStoreView,
    event: WatchEvent,
    relisting_after: Seq<BootHost>,
    index_after: Map<Mac, BootHost>,
    store_after: HostStoreView,
) -> bool {
    match event {
        WatchEvent::Init => relisting_after == Seq::<BootHost>::empty() && index_after == index
            && store_after == store,
        WatchEvent::InitApply(object) => relisting_after == relisting.push(object) && index_after
            == index && store_after == store,
        WatchEvent::InitDone => relisting_after == Seq::<BootHost>::empty() && index_after
            == indexed(relisting) && store_after == (HostStoreView {
            kube: hosts::filed(records_of(relisting)),
            synced: true,
            ..store
        }),
        WatchEvent::Apply(object) => relisting_after == relisting && match object.record() {
            None => index_after == index && store_after == store,
            Some(r) => index_after == index.insert(r.mac, object) && store_after == (HostStoreView {
                kube: store.kube.insert(r.mac, r),
                ..store
            }),
        },
        WatchEvent::Delete(object) => relisting_after == relisting && match object.record() {
            None => index_after == index && store_after == store,
            Some(r) => index_after == index.remove(r.mac) && store_after == (HostStoreView {
                kube: store.kube.remove(r.mac),
                ..store
            }),
        },
        WatchEvent::Failed => relisting_after == relisting && index_after == index && store_after
            == store,
    }
}

// ---------------------------------------------------------------------------
// The status writer

/// One status to write.
pub struct StatusPatch {
    pub mac: Mac,
    pub namespace: String,
    pub name: String,
    pub status: BootHostStatus,
}

/// The status an object should have.
pub open spec fn wanted(state: AppState, mac: Mac, object: BootHost, now: Seq<char>) ->
    BootHostStatusView {
    boothost::status_for(
        state::known(state.boot@, mac),
        object.spec.online,
        if state.claims@.contains_key(mac) {
            Some(state.claims@[mac].id@)
        } else {
            None
        },
        match object.metadata.generation {
            Some(g) => g,
            None => 0,
        },
        match object.status {
            Some(s) => Some(s@),
            None => None,
        },
        now,
    )
}

/// Whether an object's status has to be written: it has a name to write it to,
/// and its status is not the one it should have.
pub open spec fn stale(state: AppState, mac: Mac, object: BootHost, now: Seq<char>) -> bool {
    &&& object.metadata.namespace is Some
    &&& object.metadata.name is Some
    &&& (match object.status {
        Some(s) => s@ != wanted(state, mac, object, now),
        None => true,
    })
}

/// Whether an address stands behind the last one looked at.
pub open spec fn behind(last: Option<Mac>, mac: Mac) -> bool {
    match last {
        Some(l) => l.rank() < mac.rank(),
        None => true,
    }
}

/// Whether an object's status is to be written once `last` was looked at.
pub open spec fn due(
    state: AppState,
    index: Map<Mac, BootHost>,
    last: Option<Mac>,
    mac: Mac,
    now: Seq<char>,
) -> bool {
    &&& index.contains_key(mac)
    &&& behind(last, mac)
    &&& stale(state, mac, index[mac], now)
}

/// The index once a status was written.
pub open spec fn noted(index: Map<Mac, BootHost>, mac: Mac, status: BootHostStatus) -> Map<
    Mac,
    BootHost,
> {
    if index.contains_key(mac) {
        index.insert(mac, BootHost { status: Some(status), ..index[mac] })
    } else {
        index
    }
}

/// One pass over the objects, in the order of their addresses.
///
/// It remembers the address it stands at, not a place in the index: what the
/// watch puts in or takes out while a patch is on its way moves no other object
/// past it.
pub struct StatusPass {
    pub now: String,
    /// The object whose status was asked for last.
    pub last: Option<Mac>,
    pub written: usize,
}

impl StatusPass {
    pub fn new(now: String) -> (r: Self)
        ensures
            r.now == now,
            r.last == None::<Mac>,
            r.written == 0,
    {
        StatusPass { now, last: None, written: 0 }
    }

    /// The next status to write, if the pass may write another one.
    pub fn advance(&mut self, index: &BootHostIndex, state: &AppState) -> (r: Option<StatusPatch>)
        requires
            index.wf(),
            state.wf(),
        ensures
            final(self).now == old(self).now,
            final(self).written == old(self).written,
            match r {
                Some(p) => {
                    &&& old(self).written < MAX_PATCHES_PER_PASS
                    &&& final(self).last == Some(p.mac)
                    &&& due(*state, index@, old(self).last, p.mac, old(self).now@)
                    &&& index@[p.mac].metadata.namespace == Some(p.namespace)
                    &&& index@[p.mac].metadata.name == Some(p.name)
                    &&& p.status@ == wanted(*state, p.mac, index@[p.mac], old(self).now@)
                    &&& forall|m: Mac| #[trigger]
                        due(*state, index@, old(self).last, m, old(self).now@) ==> p.mac.rank()
                            <= m.rank()
                },
                None => {
                    &&& final(self).last == old(self).last
                    &&& old(self).written >= MAX_PATCHES_PER_PASS || forall|m: Mac|
                        !#[trigger] due(*state, index@, old(self).last, m, old(self).now@)
                },
            },
    {
        if self.written >= MAX_PATCHES_PER_PASS {
            return None;
        }
        let ghost all = index.objects.in_sequence();
        let start: usize = match &self.last {
            Some(last) => index.objects.behind(last),
            None => 0,
        };
        proof {
            index.objects.lemma_in_sequence();
        }
        let mut next: usize = start;
        while next < index.objects.len()
            invariant
                index.wf(),
                state.wf(),
                all == index.objects.in_sequence(),
                mac_map::in_order(all),
                index@ == mac_map::as_map(all),
                start <= next <= all.len(),
                *self == *old(self),
                self.written < MAX_PATCHES_PER_PASS,
                forall|j: int|
                    0 <= j < all.len() ==> (behind(self.last, (#[trigger] all[j]).0) <==> start <= j),
                forall|j: int|
                    start <= j < next ==> !stale(
                        *state,
                        (#[trigger] all[j]).0,
                        all[j].1,
                        self.now@,
                    ),
            decreases all.len() - next,
        {
            let (mac, object) = index.objects.at(next);
            proof {
                mac_map::lemma_place(all, next as int);
            }
            let desired = desired_for(state, mac, object, self.now.as_str());
            let current = match &object.status {
                Some(s) => s.same(&desired),
                None => false,
            };
            match (&object.metadata.namespace, &object.metadata.name) {
                (Some(namespace), Some(name)) => {
                    if !current {
                        proof {
                            assert(stale(*state, *mac, *object, self.now@));
                            lemma_earlier_are_current(
                                *state,
                                all,
                                self.last,
                                start as int,
                                next as int,
                                self.now@,
                            );
                        }
                        self.last = Some(*mac);
                        return Some(
                            StatusPatch {
                                mac: *mac,
                                namespace: namespace.clone(),
                                name: name.clone(),
                                status: desired,
                            },
                        );
                    }
                },
                _ => {},
            }
            assert(!stale(*state, *mac, *object, self.now@));
            next = next + 1;
        }
        proof {
            lemma_earlier_are_current(
                *state,
                all,
                self.last,
                start as int,
                next as int,
                self.now@,
            );
        }
        None
    }

    /// What came of a patch.
    pub fn settle(
        &mut self,
        patch: StatusPatch,
        accepted: bool,
        index: &mut BootHostIndex,
        metrics: &mut Metrics,
    )
        requires
            old(index).wf(),
            old(self).written < MAX_PATCHES_PER_PASS,
        ensures
            final(index).wf(),
            final(self).now == old(self).now,
            final(self).last == old(self).last,
            final(self).written <= MAX_PATCHES_PER_PASS,
            if accepted {
                &&& final(self).written == old(self).written + 1
                &&& *final(metrics) == (Metrics {
                    status_writes: http::bumped(old(metrics).status_writes),
                    ..*old(metrics)
                })
                &&& final(index)@ == noted(old(index)@, patch.mac, patch.status)
            } else {
                &&& final(self).written == old(self).written
                &&& *final(metrics) == (Metrics {
                    status_write_failures: http::bumped(old(metrics).status_write_failures),
                    ..*old(metrics)
                })
                &&& final(index)@ == old(index)@
            },
    {
        if accepted {
            Metrics::incr(&mut metrics.status_writes);
            index.note_status(&patch.mac, patch.status);
            self.written = self.written + 1;
        } else {
            Metrics::incr(&mut metrics.status_write_failures);
        }
    }
}

fn desired_for(state: &AppState, mac: &Mac, object: &BootHost, now: &str) -> (r: BootHostStatus)
    requires
        state.wf(),
    ensures
        r@ == wanted(*state, *mac, *object, now@),
{
    let observed = state.boot.get(mac);
    desired_status(
        observed.as_ref(),
        object.spec.online,
        state.claim_id(mac),
        match object.metadata.generation {
            Some(g) => g,
            None => 0,
        },
        object.status.as_ref(),
        now,
    )
}

/// Where nothing before `next` is stale, whatever is due stands at `next` or
/// behind it.
proof fn lemma_earlier_are_current(
    state: AppState,
    all: Seq<(Mac, BootHost)>,
    last: Option<Mac>,
    start: int,
    next: int,
    now: Seq<char>,
)
    requires
        mac_map::in_order(all),
        0 <= start <= next <= all.len(),
        forall|j: int| 0 <= j < all.len() ==> (behind(last, (#[trigger] all[j]).0) <==> start <= j),
        forall|j: int|
            start <= j < next ==> !stale(state, (#[trigger] all[j]).0, all[j].1, now),
    ensures
        forall|m: Mac| #[trigger]
            due(state, mac_map::as_map(all), last, m, now) ==> next < all.len()
                && all[next].0.rank() <= m.rank(),
{
    assert forall|m: Mac| #[trigger]
        due(state, mac_map::as_map(all), last, m, now) implies next < all.len()
        && all[next].0.rank() <= m.rank() by {
        let i = mac_map::place(all, m);
        assert(all[i].0 == m);
        mac_map::lemma_place(all, i);
        if next < i {
            assert(all[next].0.rank() < all[i].0.rank());
        }
    }
}

// ---------------------------------------------------------------------------
// Laws

/// What a relist puts in the index and in the host store is the same set of hosts.
pub proof fn law_index_and_store_list_the_same(objects: Seq<BootHost>)
    ensures
        in_step(indexed(objects), hosts::filed(records_of(objects))),
    decreases objects.len(),
{
    if objects.len() > 0 {
        law_index_and_store_list_the_same(objects.drop_last());
        match objects.last().record() {
            Some(r) => {
                let before = records_of(objects.drop_last());
                assert(before.push(r).drop_last() == before);
            },
            None => {},
        }
    }
}

/// An object whose address cannot be read never enters the index.
pub proof fn law_unusable_objects_are_left_out(objects: Seq<BootHost>, mac: Mac)
    ensures
        indexed(objects).contains_key(mac) ==> indexed(objects)[mac].record() is Some,
    decreases objects.len(),
{
    if objects.len() > 0 {
        law_unusable_objects_are_left_out(objects.drop_last(), mac);
    }
}

/// A status that was just written is not stale, whatever the time of the next
/// pass: the writer converges instead of rewriting.
pub proof fn law_a_written_status_is_not_rewritten(
    state: AppState,
    mac: Mac,
    object: BootHost,
    status: BootHostStatus,
    now: Seq<char>,
    later: Seq<char>,
)
    requires
        status@ == wanted(state, mac, object, now),
    ensures
        !stale(state, mac, BootHost { status: Some(status), ..object }, later),
{
    boothost::law_status_is_level_triggered(
        state::known(state.boot@, mac),
        object.spec.online,
        if state.claims@.contains_key(mac) {
            Some(state.claims@[mac].id@)
        } else {
            None
        },
        match object.metadata.generation {
            Some(g) => g,
            None => 0,
        },
        match object.status {
            Some(s) => Some(s@),
            None => None,
        },
        now,
        later,
    );
}

/// A second pass converges: once a status was written, no later pass asks for that
/// object again while the object and what we know of its host stay as they were,
/// whatever came of the others meanwhile.
pub proof fn law_a_second_pass_writes_nothing_twice(
    state: AppState,
    index: Map<Mac, BootHost>,
    mac: Mac,
    status: BootHostStatus,
    now: Seq<char>,
    later_state: AppState,
    later_index: Map<Mac, BootHost>,
    last: Option<Mac>,
    later: Seq<char>,
)
    requires
        index.contains_key(mac),
        status@ == wanted(state, mac, index[mac], now),
        state::known(later_state.boot@, mac) == state::known(state.boot@, mac),
        http::held(later_state.claims@, Some(mac)) == http::held(state.claims@, Some(mac)),
        later_index.contains_key(mac) ==> later_index[mac] == noted(index, mac, status)[mac],
    ensures
        !due(later_state, later_index, last, mac, later),
{
    law_a_written_status_is_not_rewritten(later_state, mac, index[mac], status, now, later);
}

/// Writing one status makes no other one due, nor settles another.
pub proof fn law_a_status_is_its_own(
    state: AppState,
    index: Map<Mac, BootHost>,
    mac: Mac,
    status: BootHostStatus,
    last: Option<Mac>,
    other: Mac,
    now: Seq<char>,
)
    requires
        other != mac,
    ensures
        due(state, noted(index, mac, status), last, other, now) <==> due(
            state,
            index,
            last,
            other,
            now,
        ),
{
}

/// A pass goes forward only: what it asked for it does not ask for again, and
/// what it asks for next stands behind it.
pub proof fn law_a_pass_goes_forward(
    state: AppState,
    index: Map<Mac, BootHost>,
    asked: Mac,
    next: Mac,
    now: Seq<char>,
)
    requires
        due(state, index, Some(asked), next, now),
    ensures
        asked.rank() < next.rank(),
        asked != next,
{
}

/// No object is skipped for what the watch did meanwhile: an object behind the
/// one asked for last is due in the changed index exactly when it is stale there.
pub proof fn law_a_change_skips_no_object(
    state: AppState,
    index: Map<Mac, BootHost>,
    gone: Mac,
    asked: Mac,
    mac: Mac,
    now: Seq<char>,
)
    requires
        index.contains_key(mac),
        mac != gone,
        asked.rank() < mac.rank(),
    ensures
        due(state, index.remove(gone), Some(asked), mac, now) <==> stale(
            state,
            mac,
            index[mac],
            now,
        ),
{
}

/// An object that is applied is what the cluster says of its host from then on, and
/// changes nothing else: no other host, not the file, not a relist under way.
pub proof fn law_an_applied_object_is_what_the_cluster_says(
    relisting: Seq<BootHost>,
    index: Map<Mac, BootHost>,
    store: HostStoreView,
    object: BootHost,
    relisting_after: Seq<BootHost>,
    index_after: Map<Mac, BootHost>,
    store_after: HostStoreView,
    other: Mac,
)
    requires
        watched(
            relisting,
            index,
            store,
            WatchEvent::Apply(object),
            relisting_after,
            index_after,
            store_after,
        ),
    ensures
        relisting_after == relisting,
        object.record() is None ==> index_after == index && store_after == store,
        object.record() matches Some(r) ==> {
            &&& store_after.records().contains_key(r.mac) && store_after.records()[r.mac] == r
            &&& index_after.contains_key(r.mac) && index_after[r.mac] == object
            &&& other != r.mac ==> (store_after.kube.contains_key(other)
                <==> store.kube.contains_key(other)) && (index_after.contains_key(other)
                <==> index.contains_key(other))
            &&& other != r.mac && store.kube.contains_key(other) ==> store_after.kube[other]
                == store.kube[other]
            &&& other != r.mac && index.contains_key(other) ==> index_after[other] == index[other]
            &&& store_after.file == store.file && store_after.mtime == store.mtime
                && store_after.synced == store.synced && store_after.path == store.path
        },
{
}

/// An object that is deleted is no longer what the cluster says: its host is the file's
/// again, where the file knows it, and unknown otherwise. No other host changes.
pub proof fn law_a_deleted_object_is_forgotten(
    relisting: Seq<BootHost>,
    index: Map<Mac, BootHost>,
    store: HostStoreView,
    object: BootHost,
    relisting_after: Seq<BootHost>,
    index_after: Map<Mac, BootHost>,
    store_after: HostStoreView,
    other: Mac,
)
    requires
        watched(
            relisting,
            index,
            store,
            WatchEvent::Delete(object),
            relisting_after,
            index_after,
            store_after,
        ),
        object.record() is Some,
    ensures
        ({
            let mac = object.record()->0.mac;
            &&& relisting_after == relisting
            &&& !store_after.kube.contains_key(mac) && !index_after.contains_key(mac)
            &&& store_after.records().contains_key(mac) <==> store.file.contains_key(mac)
            &&& store.file.contains_key(mac) ==> store_after.records()[mac] == store.file[mac]
            &&& other != mac ==> (store_after.records().contains_key(other)
                <==> store.records().contains_key(other))
            &&& other != mac && store.records().contains_key(other)
                ==> store_after.records()[other] == store.records()[other]
            &&& store_after.synced == store.synced
        }),
{
}

/// A relist changes nothing until it is done. Then the cluster holds exactly the hosts
/// that its objects name, each as the last object of that address has it, and is known to
/// have been listed.
pub proof fn law_a_relist_takes_effect_when_it_is_done(
    relisting: Seq<BootHost>,
    index: Map<Mac, BootHost>,
    store: HostStoreView,
    event: WatchEvent,
    relisting_after: Seq<BootHost>,
    index_after: Map<Mac, BootHost>,
    store_after: HostStoreView,
    mac: Mac,
)
    requires
        watched(relisting, index, store, event, relisting_after, index_after, store_after),
    ensures
        event is Init ==> relisting_after.len() == 0 && index_after == index && store_after
            == store,
        event matches WatchEvent::InitApply(object) ==> relisting_after.len() == relisting.len()
            + 1 && relisting_after.last() == object && relisting_after.drop_last() == relisting
            && index_after == index && store_after == store,
        event is InitDone ==> relisting_after.len() == 0 && store_after.synced && store_after.file
            == store.file && (index_after.contains_key(mac) <==> exists|i: int|
            0 <= i < relisting.len() && names(#[trigger] relisting[i], mac)) && (
        index_after.contains_key(mac) <==> store_after.kube.contains_key(mac)) && (
        index_after.contains_key(mac) ==> index_after[mac].record() == Some(store_after.kube[mac])),
        event is Failed ==> relisting_after == relisting && index_after == index && store_after
            == store,
{
    if event is InitDone {
        law_index_and_store_list_the_same(relisting);
        lemma_indexed_names(relisting, mac);
    }
}

proof fn lemma_indexed_names(objects: Seq<BootHost>, mac: Mac)
    ensures
        indexed(objects).contains_key(mac) <==> exists|i: int|
            0 <= i < objects.len() && names(#[trigger] objects[i], mac),
    decreases objects.len(),
{
    if objects.len() > 0 {
        let rest = objects.drop_last();
        lemma_indexed_names(rest, mac);
        if names(objects.last(), mac) {
            assert(names(objects[objects.len() - 1], mac));
        }
        if exists|i: int| 0 <= i < rest.len() && names(#[trigger] rest[i], mac) {
            let i = choose|i: int| 0 <= i < rest.len() && names(#[trigger] rest[i], mac);
            assert(names(objects[i], mac));
        }
        if exists|i: int| 0 <= i < objects.len() && names(#[trigger] objects[i], mac) {
            let i = choose|i: int| 0 <= i < objects.len() && names(#[trigger] objects[i], mac);
            if i < rest.len() {
                assert(names(rest[i], mac));
            }
        }
    }
}

/// Where two objects of a list name one host, the later one stands.
pub proof fn law_the_later_object_stands(objects: Seq<BootHost>, i: int, mac: Mac)
    requires
        0 <= i < objects.len(),
        names(objects[i], mac),
        forall|j: int| i < j < objects.len() ==> !names(#[trigger] objects[j], mac),
    ensures
        indexed(objects).contains_key(mac),
        indexed(objects)[mac] == objects[i],
    decreases objects.len(),
{
    if i < objects.len() - 1 {
        let rest = objects.drop_last();
        assert forall|j: int| i < j < rest.len() implies !names(#[trigger] rest[j], mac) by {
            assert(!names(objects[j], mac));
        }
        law_the_later_object_stands(rest, i, mac);
        assert(!names(objects[objects.len() - 1], mac));
    }
}

/// Two objects contest an address only where one is applied for a host that the cluster
/// already has from another object: an edit of the same one is no contest.
pub proof fn law_an_edit_is_no_contest(kube: Map<Mac, HostRecord>, object: BootHost, r: HostRecord)
    requires
        object.record() == Some(r),
    ensures
        contest(kube, WatchEvent::Apply(object)) is Some <==> kube.contains_key(r.mac) && (
        (kube[r.mac].object is Some) != (r.object is Some) || (r.object is Some && (
        kube[r.mac].object->0.namespace@ != r.object->0.namespace@
            || kube[r.mac].object->0.name@ != r.object->0.name@))),
        contest(kube, WatchEvent::Apply(object)) is Some ==> contest(
            kube,
            WatchEvent::Apply(object),
        )->0.mac == r.mac && contest(kube, WatchEvent::Apply(object))->0.previous
            == kube[r.mac].object && contest(kube, WatchEvent::Apply(object))->0.now == r.object,
        contest(kube, WatchEvent::Delete(object)) is None,
        contest(kube, WatchEvent::InitApply(object)) is None,
{
}

/// The status an object should have is its own host's: the phase the host is known to be
/// in, the claim it holds, and the generation that the object is at.
pub proof fn law_a_wanted_status_is_the_hosts_own(
    state: AppState,
    mac: Mac,
    object: BootHost,
    now: Seq<char>,
    i: int,
)
    requires
        0 <= i < 3,
    ensures
        ({
            let s = wanted(state, mac, object, now);
            &&& state.boot@.contains_key(mac) ==> s.phase == Some(state.boot@[mac].phase.word())
                && s.hardware == state.boot@[mac].hardware && s.pallet_version
                == state.boot@[mac].pallet_version
            &&& !state.boot@.contains_key(mac) ==> s.phase is None && s.hardware is None
            &&& state.claims@.contains_key(mac) ==> s.claim_id == Some(state.claims@[mac].id@)
            &&& !state.claims@.contains_key(mac) ==> s.claim_id is None
            &&& s.conditions[i].observed_generation == object.metadata.generation.unwrap_or(0)
        }),
{
}

/// A status is written where it is not the wanted one, and only to an object that can be
/// named. Whether it is written is not a matter of when.
pub proof fn law_a_status_is_written_where_it_is_wrong(
    state: AppState,
    index: Map<Mac, BootHost>,
    mac: Mac,
    now: Seq<char>,
)
    requires
        index.contains_key(mac),
    ensures
        due(state, index, None, mac, now) <==> index[mac].metadata.namespace is Some
            && index[mac].metadata.name is Some && (index[mac].status is None
            || (index[mac].status->0)@ != wanted(state, mac, index[mac], now)),
        !due(state, index, Some(mac), mac, now),
        !due(state, index.remove(mac), None, mac, now),
{
}

/// A status that was written stands with its object, which says all else that it said; no
/// other object changes, and none comes or goes.
pub proof fn law_a_written_status_stands_with_its_object(
    index: Map<Mac, BootHost>,
    mac: Mac,
    status: BootHostStatus,
    other: Mac,
)
    requires
        index.contains_key(mac),
    ensures
        noted(index, mac, status).dom() == index.dom(),
        noted(index, mac, status)[mac].status == Some(status),
        noted(index, mac, status)[mac].spec == index[mac].spec,
        noted(index, mac, status)[mac].metadata == index[mac].metadata,
        other != mac && index.contains_key(other) ==> noted(index, mac, status)[other]
            == index[other],
{
    assert(noted(index, mac, status).dom() =~= index.dom());
}

} // verus!
