//! Host records: who a booting machine is, and what it should boot.
//!
//! Identity is pinned here at PXE time, which is what makes day 2 a profile
//! change rather than a reprovision: the name and role a node carries for the
//! rest of its life are decided before it has an OS to decide them with.
//!
//! Records come from two layers. A `BootHost` resource in the cluster is the
//! source of truth; a file is the bootstrap layer beneath it, consulted only for
//! MACs the cluster says nothing about. That order is what lets an appliance
//! boot the machines that will become its cluster, and then keep serving from
//! the cluster once one exists, without a cutover and without a file quietly
//! overriding what an operator changed.

use crate::server::mac::Mac;
use crate::server::mac_map;
use crate::server::mac_map::MacMap;
use crate::strings;
use crate::text;
use vstd::prelude::*;
use vstd::string::StringExecFns;

verus! {

/// The Kubernetes object a record was read from.
///
/// Carried on the record so status can be written back to the right object
/// without a second lookup, and so the status can name the generation of the
/// spec it observed.
#[derive(Debug, PartialEq, Eq)]
pub struct ObjectRef {
    pub namespace: String,
    pub name: String,
    pub generation: i64,
}

impl Clone for ObjectRef {
    fn clone(&self) -> (r: Self)
        ensures
            r == *self,
    {
        ObjectRef {
            namespace: self.namespace.clone(),
            name: self.name.clone(),
            generation: self.generation,
        }
    }
}

impl ObjectRef {
    /// `namespace/name`.
    pub open spec fn path(self) -> Seq<char> {
        self.namespace@ + "/"@ + self.name@
    }

    pub fn to_text(&self) -> (r: String)
        ensures
            r@ == self.path(),
    {
        let mut out = self.namespace.clone();
        out.append("/");
        out.append(self.name.as_str());
        out
    }

    /// Whether `other` is the same object, at whatever generation: an edit makes no
    /// second object of it.
    pub open spec fn same_as(self, other: ObjectRef) -> bool {
        self.namespace@ == other.namespace@ && self.name@ == other.name@
    }

    pub fn same(&self, other: &ObjectRef) -> (r: bool)
        ensures
            r == self.same_as(*other),
    {
        self.namespace == other.namespace && self.name == other.name
    }
}

/// What a specific machine should boot, and as whom.
#[derive(Debug, PartialEq, Eq)]
pub struct HostRecord {
    pub mac: Mac,
    /// Hostname this machine takes. Pinned now; used for the rest of its life.
    pub name: String,
    /// Role the node will play once it joins: the day-2 profile to apply.
    pub role: Option<String>,
    /// Stack (loadout) to boot, e.g. `stormcos:10.20`. Falls back to the server
    /// default when unset.
    pub stack: Option<String>,
    /// NVMe/TCP portal override, for a host that should attach to a nearer
    /// appliance than the server's default.
    pub portal: Option<String>,
    /// Extra kernel command line for this host alone.
    pub extra_cmdline: Option<String>,
    /// Whether this machine is allowed to boot at all. Setting it false is how a
    /// host is parked without deleting the identity it has been given.
    pub online: bool,
    /// The `BootHost` this record came from, when it came from one.
    pub object: Option<ObjectRef>,
}

impl Clone for HostRecord {
    fn clone(&self) -> (r: Self)
        ensures
            r == *self,
    {
        HostRecord {
            mac: self.mac,
            name: self.name.clone(),
            role: strings::clone_opt(&self.role),
            stack: strings::clone_opt(&self.stack),
            portal: strings::clone_opt(&self.portal),
            extra_cmdline: strings::clone_opt(&self.extra_cmdline),
            online: self.online,
            object: match &self.object {
                Some(o) => Some(o.clone()),
                None => None,
            },
        }
    }
}

/// What to do when a machine we have no record for asks to boot.
#[derive(Debug, Clone, Copy, PartialEq, Eq, Structural)]
pub enum UnknownHostPolicy {
    /// Serve it the defaults. This is how a fleet is discovered: on a
    /// provisioning network every machine is unknown the first time.
    Allow,
    /// Refuse. For sites where the boot network is not trusted to contain only
    /// machines that belong there.
    Deny,
}

impl UnknownHostPolicy {
    pub fn from_str(s: &str) -> (r: Result<Self, String>)
        ensures
            match r {
                Ok(UnknownHostPolicy::Allow) => text::to_lower(s@) == "allow"@,
                Ok(UnknownHostPolicy::Deny) => text::to_lower(s@) == "deny"@,
                Err(said) => text::to_lower(s@) != "allow"@ && text::to_lower(s@) != "deny"@
                    && said@ == "expected 'allow' or 'deny', found "@ + strings::debug_text(
                    text::to_lower(s@),
                ),
            },
    {
        let word = strings::to_lower(s);
        if strings::eq(word.as_str(), "allow") {
            Ok(UnknownHostPolicy::Allow)
        } else if strings::eq(word.as_str(), "deny") {
            Ok(UnknownHostPolicy::Deny)
        } else {
            let mut said = "expected 'allow' or 'deny', found ".to_owned();
            said.append(strings::debug(word.as_str()).as_str());
            Err(said)
        }
    }
}

/// When a file was last changed.
#[derive(Debug, Clone, Copy, PartialEq, Eq, Structural)]
pub struct Mtime {
    pub secs: i64,
    pub nanos: u32,
}

/// What reading the record file came to.
#[derive(Debug)]
pub enum FileRead {
    /// The file's records, in the order it lists them.
    Records(Vec<HostRecord>),
    /// There is no such file. A site may run entirely on defaults, and the file
    /// may appear later.
    Missing,
    /// The file is there and could not be read or understood.
    Failed(String),
}

/// How many records each layer holds.
#[derive(Debug, Clone, Copy, PartialEq, Eq, Structural)]
pub struct HostCounts {
    pub file: usize,
    pub kube: usize,
    /// Distinct hosts across both layers.
    pub total: usize,
    pub kube_synced: bool,
}

/// A list of records filed by address. Where two claim one address, the later
/// one stands.
pub open spec fn filed(records: Seq<HostRecord>) -> Map<Mac, HostRecord>
    decreases records.len(),
{
    if records.len() == 0 {
        Map::empty()
    } else {
        filed(records.drop_last()).insert(records.last().mac, records.last())
    }
}

/// The cluster layer answers first; the file is only consulted for addresses the
/// cluster has nothing to say about.
pub open spec fn resolved(
    file: Map<Mac, HostRecord>,
    kube: Map<Mac, HostRecord>,
) -> Map<Mac, HostRecord> {
    file.union_prefer_right(kube)
}

/// `n`, or as much of it as a `usize` holds.
pub open spec fn capped(n: nat) -> usize {
    if n <= usize::MAX {
        n as usize
    } else {
        usize::MAX
    }
}

/// The records with their addresses.
pub open spec fn by_mac(records: Seq<HostRecord>) -> Seq<(Mac, HostRecord)> {
    records.map_values(|r: HostRecord| (r.mac, r))
}

fn file_by_mac(records: Vec<HostRecord>) -> (r: MacMap<HostRecord>)
    ensures
        r.wf(),
        r@ == filed(records@),
        r.in_sequence().len() <= records@.len(),
{
    let ghost list = records@;
    let mut out: MacMap<HostRecord> = MacMap::new();
    for record in it: records
        invariant
            it.seq() == list,
            out.wf(),
            out@ == filed(list.take(it.index())),
            out.in_sequence().len() <= it.index(),
    {
        proof {
            let n = it.index();
            assert(list[n] == record);
            assert(list.take(n + 1).drop_last() == list.take(n));
        }
        let mac = record.mac;
        out.insert(mac, record);
    }
    assert(list.take(list.len() as int) == list);
    out
}

/// Host record store.
pub struct HostStore {
    path: Option<String>,
    /// The bootstrap layer.
    file: MacMap<HostRecord>,
    /// Modification time of the file these came from, so a reload is a no-op
    /// when nothing changed.
    mtime: Option<Mtime>,
    /// The authoritative layer: `BootHost` objects, as the watch last saw them.
    kube: MacMap<HostRecord>,
    /// Whether the watch has completed an initial list. Until it has, the
    /// cluster layer being empty means "not known yet", not "no hosts".
    synced: bool,
}

/// What a store holds.
#[verifier::ext_equal]
pub struct HostStoreView {
    pub path: Option<Seq<char>>,
    pub file: Map<Mac, HostRecord>,
    pub mtime: Option<Mtime>,
    pub kube: Map<Mac, HostRecord>,
    pub synced: bool,
}

impl HostStoreView {
    pub open spec fn records(self) -> Map<Mac, HostRecord> {
        resolved(self.file, self.kube)
    }

    /// How many records each layer holds, as far as a `usize` reaches.
    pub open spec fn tally(self) -> HostCounts {
        HostCounts {
            file: capped(self.file.dom().len()),
            kube: capped(self.kube.dom().len()),
            total: capped(self.records().dom().len()),
            kube_synced: self.synced,
        }
    }

    /// Whether a file last changed at `mtime` is the one already loaded.
    pub open spec fn current(self, mtime: Option<Mtime>) -> bool {
        mtime is Some && self.mtime == mtime
    }
}

impl View for HostStore {
    type V = HostStoreView;

    closed spec fn view(&self) -> HostStoreView {
        HostStoreView {
            path: text::opt_text(self.path),
            file: self.file@,
            mtime: self.mtime,
            kube: self.kube@,
            synced: self.synced,
        }
    }
}

impl HostStore {
    /// Each record is filed under its own address.
    pub closed spec fn wf(&self) -> bool {
        &&& self.file.wf()
        &&& self.kube.wf()
        &&& forall|m: Mac| #[trigger] self.file@.contains_key(m) ==> self.file@[m].mac == m
        &&& forall|m: Mac| #[trigger] self.kube@.contains_key(m) ==> self.kube@[m].mac == m
    }

    /// A store with no records: every host is unknown.
    pub fn empty() -> (r: Self)
        ensures
            r.wf(),
            r@ == (HostStoreView {
                path: None,
                file: Map::empty(),
                mtime: None,
                kube: Map::empty(),
                synced: false,
            }),
    {
        HostStore {
            path: None,
            file: MacMap::new(),
            mtime: None,
            kube: MacMap::new(),
            synced: false,
        }
    }

    /// A store backed by a file, with nothing loaded from it yet.
    pub fn from_file(path: String) -> (r: Self)
        ensures
            r.wf(),
            r@ == (HostStoreView {
                path: Some(path@),
                file: Map::empty(),
                mtime: None,
                kube: Map::empty(),
                synced: false,
            }),
    {
        HostStore {
            path: Some(path),
            file: MacMap::new(),
            mtime: None,
            kube: MacMap::new(),
            synced: false,
        }
    }

    /// The file behind the store.
    pub fn path(&self) -> (r: Option<String>)
        ensures
            text::opt_text(r) == self@.path,
    {
        strings::clone_opt(&self.path)
    }

    /// Whether a file last changed at `mtime` need not be read again.
    pub fn is_current(&self, mtime: Option<Mtime>) -> (r: bool)
        ensures
            r == self@.current(mtime),
    {
        match (mtime, self.mtime) {
            (Some(a), Some(b)) => a == b,
            _ => false,
        }
    }

    /// Take over what the backing file holds if it changed. Returns the number of
    /// records.
    pub fn reload(&mut self, mtime: Option<Mtime>, read: FileRead) -> (r: Result<usize, String>)
        requires
            old(self).wf(),
        ensures
            final(self).wf(),
            if old(self)@.path is None {
                r == Ok::<usize, String>(0) && final(self)@ == old(self)@
            } else if old(self)@.current(mtime) {
                r is Ok && r->Ok_0 == old(self)@.file.dom().len() && final(self)@ == old(self)@
            } else {
                match read {
                    FileRead::Missing => r == Ok::<usize, String>(0) && final(self)@ == old(self)@,
                    FileRead::Failed(why) => r == Err::<usize, String>(why) && final(self)@ == old(
                        self,
                    )@,
                    FileRead::Records(list) => r == Ok::<usize, String>(list@.len() as usize)
                        && final(self)@ == (HostStoreView {
                        file: filed(list@),
                        mtime: mtime,
                        ..old(self)@
                    }),
                }
            },
    {
        if self.path.is_none() {
            return Ok(0);
        }
        if self.is_current(mtime) {
            proof {
                self.file.lemma_in_sequence();
            }
            return Ok(self.file.len());
        }
        match read {
            FileRead::Missing => Ok(0),
            FileRead::Failed(why) => Err(why),
            FileRead::Records(list) => {
                let count: usize = list.len();
                proof {
                    lemma_filed_under_own(list@);
                }
                self.file = file_by_mac(list);
                self.mtime = mtime;
                Ok(count)
            },
        }
    }

    /// Replace the whole cluster layer.
    ///
    /// A watch that restarts relists everything, and applying that list as a set
    /// is what makes a delete missed during a disconnect heal itself on the next
    /// relist.
    pub fn set_kube_records(&mut self, records: Vec<HostRecord>)
        requires
            old(self).wf(),
        ensures
            final(self).wf(),
            final(self)@ == (HostStoreView { kube: filed(records@), synced: true, ..old(self)@ }),
    {
        proof {
            lemma_filed_under_own(records@);
        }
        self.kube = file_by_mac(records);
        self.synced = true;
    }

    /// Apply one `BootHost`. Tells whether another object claimed the same
    /// address: whichever was applied last wins, but an operator has to be told,
    /// because the loser's identity silently stops being served.
    pub fn apply_kube_record(&mut self, record: HostRecord) -> (contested: bool)
        requires
            old(self).wf(),
        ensures
            final(self).wf(),
            final(self)@ == (HostStoreView {
                kube: old(self)@.kube.insert(record.mac, record),
                ..old(self)@
            }),
            contested == (old(self)@.kube.contains_key(record.mac) && !same_object(
                old(self)@.kube[record.mac].object,
                record.object,
            )),
    {
        let contested = match self.kube.get(&record.mac) {
            Some(previous) => match (&previous.object, &record.object) {
                (Some(a), Some(b)) => !a.same(b),
                (None, None) => false,
                _ => true,
            },
            None => false,
        };
        let mac = record.mac;
        self.kube.insert(mac, record);
        contested
    }

    /// Forget one `BootHost`. The file layer, if it has this MAC, takes over.
    pub fn remove_kube_record(&mut self, mac: &Mac)
        requires
            old(self).wf(),
        ensures
            final(self).wf(),
            final(self)@ == (HostStoreView { kube: old(self)@.kube.remove(*mac), ..old(self)@ }),
    {
        let _ = self.kube.remove(mac);
    }

    /// Whether the watch has listed the cluster at least once.
    pub fn kube_synced(&self) -> (r: bool)
        ensures
            r == self@.synced,
    {
        self.synced
    }

    /// The cluster layer answers first; the file is only consulted for MACs the
    /// cluster has nothing to say about.
    pub fn lookup(&self, mac: &Mac) -> (r: Option<HostRecord>)
        requires
            self.wf(),
        ensures
            r == if self@.records().contains_key(*mac) {
                Some(self@.records()[*mac])
            } else {
                None
            },
    {
        match self.kube.get(mac) {
            Some(record) => Some(record.clone()),
            None => match self.file.get(mac) {
                Some(record) => Some(record.clone()),
                None => None,
            },
        }
    }

    /// Every record, resolved the same way `lookup` resolves one, in the order of
    /// the addresses.
    pub fn records(&self) -> (r: Vec<HostRecord>)
        requires
            self.wf(),
        ensures
            mac_map::in_order(by_mac(r@)),
            mac_map::as_map(by_mac(r@)) == self@.records(),
    {
        let ghost f = self.file.in_sequence();
        let ghost k = self.kube.in_sequence();
        let ghost want = self@.records();
        proof {
            self.file.lemma_in_sequence();
            self.kube.lemma_in_sequence();
            lemma_entries_filed_under_own(f);
            lemma_entries_filed_under_own(k);
        }
        let mut out: Vec<HostRecord> = Vec::new();
        let mut i: usize = 0;
        let mut j: usize = 0;
        while i < self.file.len() || j < self.kube.len()
            invariant
                f == self.file.in_sequence(),
                k == self.kube.in_sequence(),
                want == resolved(mac_map::as_map(f), mac_map::as_map(k)),
                mac_map::in_order(f),
                mac_map::in_order(k),
                forall|a: int| 0 <= a < f.len() ==> (#[trigger] f[a]).1.mac == f[a].0,
                forall|b: int| 0 <= b < k.len() ==> (#[trigger] k[b]).1.mac == k[b].0,
                i <= f.len(),
                j <= k.len(),
                i < f.len() ==> forall|b: int|
                    0 <= b < j ==> (#[trigger] k[b]).0.rank() < f[i as int].0.rank(),
                j < k.len() ==> forall|a: int|
                    0 <= a < i ==> (#[trigger] f[a]).0.rank() < k[j as int].0.rank(),
                merged(f, k, i as int, j as int, want, out@),
            decreases f.len() - i + k.len() - j,
        {
            let ghost was = out@;
            if j == self.kube.len() || (i < self.file.len() && self.file.at(i).0.before(
                self.kube.at(j).0,
            )) {
                let record = self.file.at(i).1.clone();
                proof {
                    mac_map::lemma_place(f, i as int);
                    if mac_map::holds(k, record.mac) {
                        let b = mac_map::place(k, record.mac);
                        assert(k[b].0 == record.mac);
                        if b > j {
                            assert(k[j as int].0.rank() < k[b].0.rank());
                        }
                    }
                    lemma_merged_one(was, record);
                }
                out.push(record);
                i = i + 1;
            } else if i < self.file.len() && *self.file.at(i).0 == *self.kube.at(j).0 {
                let record = self.kube.at(j).1.clone();
                proof {
                    mac_map::lemma_place(k, j as int);
                    lemma_merged_one(was, record);
                }
                out.push(record);
                i = i + 1;
                j = j + 1;
            } else {
                let record = self.kube.at(j).1.clone();
                proof {
                    mac_map::lemma_place(k, j as int);
                    if i < f.len() {
                        crate::server::mac::law_rank_is_identity(f[i as int].0, k[j as int].0);
                    }
                    lemma_merged_one(was, record);
                }
                out.push(record);
                j = j + 1;
            }
            proof {
                let now = by_mac(out@);
                assert(now.drop_last() == by_mac(was));
            }
        }
        proof {
            let pairs = by_mac(out@);
            assert forall|m: Mac| mac_map::as_map(pairs).contains_key(m) == want.contains_key(m) && (
            want.contains_key(m) ==> mac_map::as_map(pairs)[m] == want[m]) by {
                if mac_map::holds(pairs, m) {
                    let n = mac_map::place(pairs, m);
                    assert(pairs[n].0 == m);
                    assert(out@[n].mac == m);
                    mac_map::lemma_place(pairs, n);
                }
                if mac_map::holds(f, m) {
                    let a = mac_map::place(f, m);
                    assert(f[a].0 == m);
                }
                if mac_map::holds(k, m) {
                    let b = mac_map::place(k, m);
                    assert(k[b].0 == m);
                }
            }
            assert(mac_map::as_map(pairs) =~= want);
        }
        out
    }

    /// The number of bootstrap records the cluster has nothing to say about.
    fn extra(&self) -> (n: usize)
        requires
            self.wf(),
        ensures
            n == beyond(self.file.in_sequence(), self.kube@),
    {
        let ghost f = self.file.in_sequence();
        let mut n: usize = 0;
        let mut i: usize = 0;
        while i < self.file.len()
            invariant
                f == self.file.in_sequence(),
                self.kube.wf(),
                n <= i <= f.len(),
                n == beyond(f.take(i as int), self.kube@),
            decreases f.len() - i,
        {
            assert(f.take(i + 1).drop_last() == f.take(i as int));
            if !self.kube.contains(self.file.at(i).0) {
                n = n + 1;
            }
            i = i + 1;
        }
        assert(f.take(i as int) == f);
        n
    }

    pub fn counts(&self) -> (r: HostCounts)
        requires
            self.wf(),
        ensures
            r.file == self@.file.dom().len(),
            r.kube == self@.kube.dom().len(),
            r == self@.tally(),
    {
        proof {
            self.file.lemma_in_sequence();
            self.kube.lemma_in_sequence();
            lemma_beyond(self.file.in_sequence(), self.kube@);
        }
        HostCounts {
            file: self.file.len(),
            kube: self.kube.len(),
            total: self.kube.len().saturating_add(self.extra()),
            kube_synced: self.synced,
        }
    }

    pub fn len(&self) -> (n: usize)
        requires
            self.wf(),
        ensures
            n == capped(self@.records().dom().len()),
    {
        self.counts().total
    }

    pub fn is_empty(&self) -> (r: bool)
        requires
            self.wf(),
        ensures
            r == (self@.records() == Map::<Mac, HostRecord>::empty()),
    {
        proof {
            self.file.lemma_in_sequence();
            self.kube.lemma_in_sequence();
            lemma_beyond(self.file.in_sequence(), self.kube@);
            if self@.records().dom().len() == 0 {
                assert(self@.records() =~= Map::<Mac, HostRecord>::empty());
            }
        }
        self.len() == 0
    }
}

/// How many entries are for addresses that `kube` does not hold.
spec fn beyond(f: Seq<(Mac, HostRecord)>, kube: Map<Mac, HostRecord>) -> nat
    decreases f.len(),
{
    if f.len() == 0 {
        0
    } else {
        beyond(f.drop_last(), kube) + if kube.contains_key(f.last().0) {
            0nat
        } else {
            1
        }
    }
}

proof fn lemma_beyond(f: Seq<(Mac, HostRecord)>, kube: Map<Mac, HostRecord>)
    requires
        mac_map::in_order(f),
        kube.dom().finite(),
    ensures
        resolved(mac_map::as_map(f), kube).dom().finite(),
        resolved(mac_map::as_map(f), kube).dom().len() == kube.dom().len() + beyond(f, kube),
    decreases f.len(),
{
    let all = resolved(mac_map::as_map(f), kube).dom();
    if f.len() == 0 {
        assert(all =~= kube.dom());
    } else {
        let rest = f.drop_last();
        let last = f.last().0;
        assert(mac_map::in_order(rest));
        lemma_beyond(rest, kube);
        let before = resolved(mac_map::as_map(rest), kube).dom();
        assert forall|m: Mac| mac_map::holds(f, m) == (mac_map::holds(rest, m) || m == last) by {
            if mac_map::holds(rest, m) {
                let i = mac_map::place(rest, m);
                assert(rest[i].0 == m);
                assert(f[i].0 == m);
            }
            if m == last {
                assert(f[f.len() - 1].0 == m);
            }
            if mac_map::holds(f, m) && m != last {
                let i = mac_map::place(f, m);
                assert(f[i].0 == m);
                assert(rest[i].0 == m);
            }
        }
        assert(!mac_map::holds(rest, last)) by {
            if mac_map::holds(rest, last) {
                let i = mac_map::place(rest, last);
                assert(rest[i].0 == last);
                assert(f[i].0.rank() < f[f.len() - 1].0.rank());
            }
        }
        assert(all =~= before.insert(last));
    }
}

/// `out` is the merge of the first `i` entries of `f` and the first `j` of `k`.
spec fn merged(
    f: Seq<(Mac, HostRecord)>,
    k: Seq<(Mac, HostRecord)>,
    i: int,
    j: int,
    want: Map<Mac, HostRecord>,
    out: Seq<HostRecord>,
) -> bool {
    &&& mac_map::in_order(by_mac(out))
    &&& forall|n: int|
        0 <= n < out.len() ==> want.contains_key((#[trigger] out[n]).mac) && want[out[n].mac]
            == out[n]
    &&& i < f.len() ==> forall|n: int|
        0 <= n < out.len() ==> (#[trigger] out[n]).mac.rank() < f[i].0.rank()
    &&& j < k.len() ==> forall|n: int|
        0 <= n < out.len() ==> (#[trigger] out[n]).mac.rank() < k[j].0.rank()
    &&& forall|a: int| 0 <= a < i ==> mac_map::holds(by_mac(out), (#[trigger] f[a]).0)
    &&& forall|b: int| 0 <= b < j ==> mac_map::holds(by_mac(out), (#[trigger] k[b]).0)
}

proof fn lemma_merged_one(was: Seq<HostRecord>, record: HostRecord)
    requires
        mac_map::in_order(by_mac(was)),
        forall|n: int| 0 <= n < was.len() ==> (#[trigger] was[n]).mac.rank() < record.mac.rank(),
    ensures
        mac_map::in_order(by_mac(was.push(record))),
        mac_map::holds(by_mac(was.push(record)), record.mac),
        forall|m: Mac|
            mac_map::holds(by_mac(was), m) ==> #[trigger] mac_map::holds(
                by_mac(was.push(record)),
                m,
            ),
{
    let old_pairs = by_mac(was);
    let pairs = by_mac(was.push(record));
    assert(pairs[was.len() as int].0 == record.mac);
    assert forall|m: Mac| mac_map::holds(old_pairs, m) implies #[trigger] mac_map::holds(pairs, m) by {
        let n = mac_map::place(old_pairs, m);
        assert(old_pairs[n].0 == m);
        assert(pairs[n].0 == m);
    }
    assert forall|a: int, b: int| 0 <= a < b < pairs.len() implies (#[trigger] pairs[a]).0.rank() < (
    #[trigger] pairs[b]).0.rank() by {
        assert(pairs[a] == old_pairs[a]);
        assert(old_pairs[a] == (was[a].mac, was[a]));
        if b < was.len() {
            assert(pairs[b] == old_pairs[b]);
        }
    }
}

proof fn lemma_entries_filed_under_own(s: Seq<(Mac, HostRecord)>)
    requires
        mac_map::in_order(s),
        forall|m: Mac| #[trigger]
            mac_map::as_map(s).contains_key(m) ==> mac_map::as_map(s)[m].mac == m,
    ensures
        forall|a: int| 0 <= a < s.len() ==> (#[trigger] s[a]).1.mac == s[a].0,
{
    assert forall|a: int| 0 <= a < s.len() implies (#[trigger] s[a]).1.mac == s[a].0 by {
        mac_map::lemma_place(s, a);
    }
}

/// Whether two records name the same object, or both none.
pub open spec fn same_object(a: Option<ObjectRef>, b: Option<ObjectRef>) -> bool {
    match (a, b) {
        (Some(x), Some(y)) => x.same_as(y),
        (None, None) => true,
        _ => false,
    }
}

/// Records are filed under their own addresses.
pub proof fn lemma_filed_under_own(records: Seq<HostRecord>)
    ensures
        forall|m: Mac| #[trigger]
            filed(records).contains_key(m) ==> filed(records)[m].mac == m,
    decreases records.len(),
{
    if records.len() > 0 {
        lemma_filed_under_own(records.drop_last());
    }
}

// ---------------------------------------------------------------------------
// Laws

/// Whatever the file says of a machine, the cluster's record is the one served;
/// and for a machine the cluster does not know, the file's.
pub proof fn law_the_cluster_answers_first(store: HostStoreView, mac: Mac)
    ensures
        store.kube.contains_key(mac) ==> store.records().contains_key(mac) && store.records()[mac]
            == store.kube[mac],
        !store.kube.contains_key(mac) && store.file.contains_key(mac)
            ==> store.records().contains_key(mac) && store.records()[mac] == store.file[mac],
        store.records().contains_key(mac) <==> store.kube.contains_key(mac)
            || store.file.contains_key(mac),
{
}

/// A relist says everything: an address it does not name is no longer in the
/// cluster layer, however it came there.
pub proof fn law_a_relist_forgets_what_it_does_not_name(records: Seq<HostRecord>, mac: Mac)
    ensures
        filed(records).contains_key(mac) <==> exists|i: int|
            0 <= i < records.len() && (#[trigger] records[i]).mac == mac,
    decreases records.len(),
{
    if records.len() > 0 {
        let rest = records.drop_last();
        law_a_relist_forgets_what_it_does_not_name(rest, mac);
        if records.last().mac == mac {
            assert(records[records.len() - 1].mac == mac);
        }
        if exists|i: int| 0 <= i < rest.len() && (#[trigger] rest[i]).mac == mac {
            let i = choose|i: int| 0 <= i < rest.len() && (#[trigger] rest[i]).mac == mac;
            assert(records[i].mac == mac);
        }
        if exists|i: int| 0 <= i < records.len() && (#[trigger] records[i]).mac == mac {
            let i = choose|i: int| 0 <= i < records.len() && (#[trigger] records[i]).mac == mac;
            if i < rest.len() {
                assert(rest[i].mac == mac);
            }
        }
    }
}

/// Where two records are for one machine, the later one stands.
pub proof fn law_the_later_record_stands(records: Seq<HostRecord>, i: int)
    requires
        0 <= i < records.len(),
        forall|j: int| i < j < records.len() ==> (#[trigger] records[j]).mac != records[i].mac,
    ensures
        filed(records).contains_key(records[i].mac),
        filed(records)[records[i].mac] == records[i],
    decreases records.len(),
{
    if i < records.len() - 1 {
        let rest = records.drop_last();
        assert forall|j: int| i < j < rest.len() implies (#[trigger] rest[j]).mac != rest[i].mac by {
            assert(records[j].mac != records[i].mac);
        }
        law_the_later_record_stands(rest, i);
        assert(records[records.len() - 1].mac != records[i].mac);
    }
}

/// Every host is counted once, however many layers know it: the total is what the
/// cluster holds and what only the file does.
pub proof fn law_a_host_in_both_layers_counts_once(store: HostStoreView)
    requires
        store.file.dom().finite(),
        store.kube.dom().finite(),
        store.file.dom().len() + store.kube.dom().len() <= usize::MAX,
    ensures
        store.tally().file == store.file.dom().len(),
        store.tally().kube == store.kube.dom().len(),
        store.tally().total == store.kube.dom().len() + store.file.dom().difference(
            store.kube.dom(),
        ).len(),
        store.tally().kube_synced == store.synced,
{
    let only = store.file.dom().difference(store.kube.dom());
    assert(store.records().dom() =~= store.kube.dom().union(only));
    assert(store.kube.dom().disjoint(only));
    vstd::set_lib::lemma_set_disjoint_lens(store.kube.dom(), only);
    vstd::set_lib::lemma_len_subset(only, store.file.dom());
}

/// A file is read again unless it is known when it changed and that is when the loaded
/// one did.
pub proof fn law_a_changed_file_is_read_again(store: HostStoreView, mtime: Mtime)
    ensures
        store.current(Some(mtime)) <==> store.mtime == Some(mtime),
        !store.current(None),
{
}

} // verus!
