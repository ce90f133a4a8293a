//! The `BootHost` resource.
//!
//! Shaped after Metal3's `BareMetalHost` so an OpenShift operator recognises it,
//! but scoped to the boot chain: this resource carries only what is needed to
//! answer a PXE request and to say afterwards what happened.
//!
//! Status follows the Kubernetes conventions: `Available`, `Progressing` and
//! `Degraded`, each with a reason, a message, a transition time that only moves
//! when the status does, and the generation it was computed from.

use crate::server::hosts::{HostRecord, ObjectRef};
use crate::server::mac;
use crate::server::mac::Mac;
use crate::server::state::{HostState, HostStateView, Inventory, InventoryView, Phase};
use crate::strings;
use crate::text;
use vstd::prelude::*;

verus! {

/// What a machine should boot, and as whom.
#[derive(Debug, PartialEq, Eq)]
pub struct BootHostSpec {
    /// MAC that PXE boots. The host's identity.
    pub boot_mac_address: String,
    /// Name this machine takes, for the rest of its life. Defaults to the
    /// object's own name, which is the spelling an operator already typed.
    pub hostname: Option<String>,
    /// Day-2 profile to apply when it joins a cluster.
    pub role: Option<String>,
    /// Loadout to boot, e.g. `stormcos:10.20`. Defaults to the server's golden
    /// when unset.
    pub stack: Option<String>,
    /// NVMe/TCP portal override, to steer this host at a nearer appliance replica
    /// than the default.
    pub portal: Option<String>,
    /// Extra kernel command line for this host alone.
    pub extra_cmdline: Option<String>,
    /// Whether this host is allowed to boot.
    pub online: bool,
}

/// What Kubernetes keeps of an object besides its spec.
#[derive(Debug, PartialEq, Eq)]
pub struct Metadata {
    pub namespace: Option<String>,
    pub name: Option<String>,
    pub generation: Option<i64>,
}

#[derive(Debug, PartialEq, Eq)]
pub struct BootHost {
    pub metadata: Metadata,
    pub spec: BootHostSpec,
    pub status: Option<BootHostStatus>,
}

/// Hardware as the running node described itself.
#[derive(Debug, PartialEq, Eq)]
pub struct HardwareStatus {
    pub cpus: u32,
    pub memory_kb: u64,
    pub product: Option<String>,
    pub serial: Option<String>,
    pub disks: Vec<String>,
}

impl View for HardwareStatus {
    type V = InventoryView;

    open spec fn view(&self) -> InventoryView {
        InventoryView {
            cpus: self.cpus,
            memory_kb: self.memory_kb,
            product: text::opt_text(self.product),
            serial: text::opt_text(self.serial),
            disks: text::texts(self.disks@),
        }
    }
}

impl HardwareStatus {
    /// The inventory, as the status carries it.
    pub fn of(inv: &Inventory) -> (r: Self)
        ensures
            r@ == inv@,
    {
        HardwareStatus {
            cpus: inv.cpus,
            memory_kb: inv.memory_kb,
            product: strings::clone_opt(&inv.product),
            serial: strings::clone_opt(&inv.serial),
            disks: strings::clone_texts(&inv.disks),
        }
    }
}

impl Clone for HardwareStatus {
    fn clone(&self) -> (r: Self)
        ensures
            r@ == self@,
    {
        HardwareStatus {
            cpus: self.cpus,
            memory_kb: self.memory_kb,
            product: strings::clone_opt(&self.product),
            serial: strings::clone_opt(&self.serial),
            disks: strings::clone_texts(&self.disks),
        }
    }
}

/// A standard Kubernetes condition.
#[derive(Debug, PartialEq, Eq)]
pub struct Condition {
    pub type_: String,
    /// `"True"`, `"False"` or `"Unknown"`, as strings, as the convention has it.
    pub status: String,
    pub reason: String,
    pub message: String,
    /// Moves only when `status` moves. An operator reading "3 hours" here has to
    /// be reading how long the host has been stuck, not how long ago the
    /// controller last woke up.
    pub last_transition_time: String,
    pub observed_generation: i64,
}

#[verifier::ext_equal]
pub struct ConditionView {
    pub type_: Seq<char>,
    pub status: Seq<char>,
    pub reason: Seq<char>,
    pub message: Seq<char>,
    pub last_transition_time: Seq<char>,
    pub observed_generation: i64,
}

impl View for Condition {
    type V = ConditionView;

    open spec fn view(&self) -> ConditionView {
        ConditionView {
            type_: self.type_@,
            status: self.status@,
            reason: self.reason@,
            message: self.message@,
            last_transition_time: self.last_transition_time@,
            observed_generation: self.observed_generation,
        }
    }
}

impl Clone for Condition {
    fn clone(&self) -> (r: Self)
        ensures
            r == *self,
    {
        Condition {
            type_: self.type_.clone(),
            status: self.status.clone(),
            reason: self.reason.clone(),
            message: self.message.clone(),
            last_transition_time: self.last_transition_time.clone(),
            observed_generation: self.observed_generation,
        }
    }
}

#[derive(Debug, PartialEq, Eq)]
pub struct BootHostStatus {
    /// Where the host is, in the same spelling the feed and the metrics use.
    pub phase: Option<String>,
    pub pallet_version: Option<String>,
    /// sbregistry clone claimed for this host's root.
    pub claim_id: Option<String>,
    /// Inventory reported by the running node. There is no inspection boot; the
    /// machine describes itself once it is up.
    pub hardware: Option<HardwareStatus>,
    pub conditions: Vec<Condition>,
}

#[verifier::ext_equal]
pub struct BootHostStatusView {
    pub phase: Option<Seq<char>>,
    pub pallet_version: Option<Seq<char>>,
    pub claim_id: Option<Seq<char>>,
    pub hardware: Option<InventoryView>,
    pub conditions: Seq<ConditionView>,
}

pub open spec fn opt_hardware(o: Option<HardwareStatus>) -> Option<InventoryView> {
    match o {
        Some(h) => Some(h@),
        None => None,
    }
}

pub open spec fn conditions(v: Seq<Condition>) -> Seq<ConditionView> {
    v.map_values(|c: Condition| c@)
}

impl View for BootHostStatus {
    type V = BootHostStatusView;

    open spec fn view(&self) -> BootHostStatusView {
        BootHostStatusView {
            phase: text::opt_text(self.phase),
            pallet_version: text::opt_text(self.pallet_version),
            claim_id: text::opt_text(self.claim_id),
            hardware: opt_hardware(self.hardware),
            conditions: conditions(self.conditions@),
        }
    }
}

impl Default for BootHostStatus {
    fn default() -> (r: Self)
        ensures
            r@ == (BootHostStatusView {
                phase: None,
                pallet_version: None,
                claim_id: None,
                hardware: None,
                conditions: Seq::empty(),
            }),
    {
        let r = BootHostStatus {
            phase: None,
            pallet_version: None,
            claim_id: None,
            hardware: None,
            conditions: Vec::new(),
        };
        assert(r@.conditions =~= Seq::<ConditionView>::empty());
        r
    }
}

impl Clone for BootHostStatus {
    fn clone(&self) -> (r: Self)
        ensures
            r@ == self@,
    {
        let mut copies: Vec<Condition> = Vec::new();
        let mut i: usize = 0;
        while i < self.conditions.len()
            invariant
                i <= self.conditions@.len(),
                copies@ == self.conditions@.take(i as int),
            decreases self.conditions@.len() - i,
        {
            copies.push(self.conditions[i].clone());
            i = i + 1;
            assert(self.conditions@.take(i as int) == self.conditions@.take(i - 1).push(
                self.conditions@[i - 1],
            ));
        }
        assert(self.conditions@.take(i as int) == self.conditions@);
        BootHostStatus {
            phase: strings::clone_opt(&self.phase),
            pallet_version: strings::clone_opt(&self.pallet_version),
            claim_id: strings::clone_opt(&self.claim_id),
            hardware: match &self.hardware {
                Some(h) => Some(h.clone()),
                None => None,
            },
            conditions: copies,
        }
    }
}

impl HardwareStatus {
    pub fn same(&self, other: &HardwareStatus) -> (r: bool)
        ensures
            r == (self@ == other@),
    {
        let r = self.cpus == other.cpus && self.memory_kb == other.memory_kb && strings::opt_eq(
            &self.product,
            &other.product,
        ) && strings::opt_eq(&self.serial, &other.serial) && strings::texts_eq(
            &self.disks,
            &other.disks,
        );
        assert(r ==> self@ =~= other@);
        r
    }
}

impl Condition {
    pub fn same(&self, other: &Condition) -> (r: bool)
        ensures
            r == (self@ == other@),
    {
        let r = strings::eq(self.type_.as_str(), other.type_.as_str()) && strings::eq(
            self.status.as_str(),
            other.status.as_str(),
        ) && strings::eq(self.reason.as_str(), other.reason.as_str()) && strings::eq(
            self.message.as_str(),
            other.message.as_str(),
        ) && strings::eq(
            self.last_transition_time.as_str(),
            other.last_transition_time.as_str(),
        ) && self.observed_generation == other.observed_generation;
        assert(r ==> self@ =~= other@);
        r
    }
}

fn same_conditions(a: &Vec<Condition>, b: &Vec<Condition>) -> (r: bool)
    ensures
        r == (conditions(a@) == conditions(b@)),
{
    let ghost x = conditions(a@);
    let ghost y = conditions(b@);
    if a.len() != b.len() {
        assert(x.len() != y.len());
        return false;
    }
    let mut i: usize = 0;
    while i < a.len()
        invariant
            i <= a@.len() == b@.len(),
            x == conditions(a@),
            y == conditions(b@),
            forall|j: int| 0 <= j < i ==> #[trigger] x[j] == y[j],
        decreases a@.len() - i,
    {
        if !a[i].same(&b[i]) {
            assert(x[i as int] != y[i as int]);
            return false;
        }
        i = i + 1;
    }
    assert(x =~= y);
    true
}

impl BootHostStatus {
    pub fn same(&self, other: &BootHostStatus) -> (r: bool)
        ensures
            r == (self@ == other@),
    {
        let hardware = match (&self.hardware, &other.hardware) {
            (Some(a), Some(b)) => a.same(b),
            (None, None) => true,
            _ => false,
        };
        let r = hardware && strings::opt_eq(&self.phase, &other.phase) && strings::opt_eq(
            &self.pallet_version,
            &other.pallet_version,
        ) && strings::opt_eq(&self.claim_id, &other.claim_id) && same_conditions(
            &self.conditions,
            &other.conditions,
        );
        assert(r ==> self@ =~= other@);
        r
    }
}

// ---------------------------------------------------------------------------
// The object

impl Metadata {
    pub open spec fn reference(self) -> Option<ObjectRef> {
        match (self.namespace, self.name) {
            (Some(namespace), Some(name)) => Some(
                ObjectRef {
                    namespace,
                    name,
                    generation: match self.generation {
                        Some(g) => g,
                        None => 0,
                    },
                },
            ),
            _ => None,
        }
    }
}

impl BootHost {
    pub fn new(name: &str, spec: BootHostSpec) -> (r: Self)
        ensures
            text::opt_text(r.metadata.name) == Some(name@),
            r.metadata.namespace is None,
            r.metadata.generation is None,
            r.spec == spec,
            r.status is None,
    {
        BootHost {
            metadata: Metadata { namespace: None, name: Some(name.to_owned()), generation: None },
            spec,
            status: None,
        }
    }

    /// The name the machine takes: the one in the spec, or else the object's own.
    pub open spec fn host_name(self) -> Option<String> {
        match self.spec.hostname {
            Some(h) => Some(h),
            None => self.metadata.name,
        }
    }

    pub open spec fn record(self) -> Option<HostRecord> {
        match (mac::parsed(self.spec.boot_mac_address@), self.host_name()) {
            (Ok(mac), Some(name)) => Some(
                HostRecord {
                    mac,
                    name,
                    role: self.spec.role,
                    stack: self.spec.stack,
                    portal: self.spec.portal,
                    extra_cmdline: self.spec.extra_cmdline,
                    online: self.spec.online,
                    object: self.metadata.reference(),
                },
            ),
            _ => None,
        }
    }

    /// The host record this object describes.
    ///
    /// `None` when the MAC will not parse: serving defaults to an unidentified
    /// machine because a record was malformed is worse than not serving it.
    pub fn to_record(&self) -> (r: Option<HostRecord>)
        ensures
            r == self.record(),
    {
        let mac = match Mac::parse(self.spec.boot_mac_address.as_str()) {
            Ok(mac) => mac,
            Err(_) => return None,
        };
        let named = match &self.spec.hostname {
            Some(h) => Some(h.clone()),
            None => strings::clone_opt(&self.metadata.name),
        };
        match named {
            Some(name) => Some(
                HostRecord {
                    mac,
                    name,
                    role: strings::clone_opt(&self.spec.role),
                    stack: strings::clone_opt(&self.spec.stack),
                    portal: strings::clone_opt(&self.spec.portal),
                    extra_cmdline: strings::clone_opt(&self.spec.extra_cmdline),
                    online: self.spec.online,
                    object: self.object_ref(),
                },
            ),
            None => None,
        }
    }

    pub fn object_ref(&self) -> (r: Option<ObjectRef>)
        ensures
            r == self.metadata.reference(),
    {
        match (&self.metadata.namespace, &self.metadata.name) {
            (Some(namespace), Some(name)) => Some(
                ObjectRef {
                    namespace: namespace.clone(),
                    name: name.clone(),
                    generation: match self.metadata.generation {
                        Some(g) => g,
                        None => 0,
                    },
                },
            ),
            _ => None,
        }
    }

    /// How to name the object to an operator.
    pub fn object_ref_or_unnamed(&self) -> (r: String)
        ensures
            r@ == match self.metadata.reference() {
                Some(o) => o.path(),
                None => "<unnamed>"@,
            },
    {
        match self.object_ref() {
            Some(o) => o.to_text(),
            None => "<unnamed>".to_owned(),
        }
    }
}

// ---------------------------------------------------------------------------
// Status

/// A condition before its transition time is resolved against the previous
/// status.
#[verifier::ext_equal]
pub struct Verdict {
    pub type_: Seq<char>,
    pub holds: bool,
    pub reason: Seq<char>,
    pub message: Seq<char>,
}

/// Why a host that has not been heard of is not booting.
pub open spec fn unseen(online: bool) -> (Seq<char>, Seq<char>) {
    if online {
        ("NotSeen"@, "the boot server has not been asked to boot this machine"@)
    } else {
        ("Offline"@, "spec.online is false; the boot server will refuse this machine"@)
    }
}

/// What is said of a host: its own detail, or `otherwise`.
pub open spec fn said(h: HostStateView, otherwise: Seq<char>) -> Seq<char> {
    match h.detail {
        Some(d) => d,
        None => otherwise,
    }
}

/// Whether the machine is up: running, assimilating, or booting locally.
pub open spec fn available(observed: Option<HostStateView>, online: bool) -> Verdict {
    let (holds, reason, message) = match observed {
        None => (false, unseen(online).0, unseen(online).1),
        Some(h) => match h.phase {
            Phase::Failed => (false, "BootFailed"@, said(h, "boot failed"@)),
            Phase::Local => (true, "BootedLocally"@, "assimilated; booting from local disk"@),
            Phase::Running | Phase::Assimilating => (true, "Running"@, said(h, h.phase.word())),
            _ => (false, "Booting"@, said(h, h.phase.word())),
        },
    };
    Verdict { type_: "Available"@, holds, reason, message }
}

/// Whether the boot is still under way.
pub open spec fn progressing(observed: Option<HostStateView>, online: bool) -> Verdict {
    let (holds, reason, message) = match observed {
        None => (false, unseen(online).0, unseen(online).1),
        Some(h) => match h.phase {
            Phase::Failed => (false, "BootFailed"@, said(h, "boot failed"@)),
            Phase::Local => (false, "BootedLocally"@, "nothing left to do"@),
            _ => (true, "Booting"@, said(h, h.phase.word())),
        },
    };
    Verdict { type_: "Progressing"@, holds, reason, message }
}

/// Whether the boot failed.
pub open spec fn degraded(observed: Option<HostStateView>, online: bool) -> Verdict {
    let (holds, reason, message) = match observed {
        None => (false, unseen(online).0, Seq::empty()),
        Some(h) => match h.phase {
            Phase::Failed => (true, "BootFailed"@, said(h, "boot failed"@)),
            Phase::Local => (false, "BootedLocally"@, Seq::empty()),
            _ => (false, "Booting"@, Seq::empty()),
        },
    };
    Verdict { type_: "Degraded"@, holds, reason, message }
}

pub open spec fn truth(holds: bool) -> Seq<char> {
    if holds {
        "True"@
    } else {
        "False"@
    }
}

/// The first condition of that type.
pub open spec fn find_condition(conditions: Seq<ConditionView>, type_: Seq<char>) -> Option<
    ConditionView,
>
    decreases conditions.len(),
{
    if conditions.len() == 0 {
        None
    } else if conditions[0].type_ == type_ {
        Some(conditions[0])
    } else {
        find_condition(conditions.skip(1), type_)
    }
}

/// When the condition came to be what it is: the time the previous status gives
/// while the status has not moved, and otherwise now.
pub open spec fn since(
    type_: Seq<char>,
    status: Seq<char>,
    previous: Option<BootHostStatusView>,
    now: Seq<char>,
) -> Seq<char> {
    match previous {
        None => now,
        Some(p) => match find_condition(p.conditions, type_) {
            Some(c) => if c.status == status {
                c.last_transition_time
            } else {
                now
            },
            None => now,
        },
    }
}

pub open spec fn settled(
    v: Verdict,
    generation: i64,
    previous: Option<BootHostStatusView>,
    now: Seq<char>,
) -> ConditionView {
    ConditionView {
        type_: v.type_,
        status: truth(v.holds),
        reason: v.reason,
        message: v.message,
        last_transition_time: since(v.type_, truth(v.holds), previous, now),
        observed_generation: generation,
    }
}

/// The status a host should have.
pub open spec fn status_for(
    observed: Option<HostStateView>,
    online: bool,
    claim_id: Option<Seq<char>>,
    generation: i64,
    previous: Option<BootHostStatusView>,
    now: Seq<char>,
) -> BootHostStatusView {
    BootHostStatusView {
        phase: match observed {
            Some(h) => Some(h.phase.word()),
            None => None,
        },
        pallet_version: match observed {
            Some(h) => h.pallet_version,
            None => None,
        },
        claim_id,
        hardware: match observed {
            Some(h) => h.hardware,
            None => None,
        },
        conditions: seq![
            settled(available(observed, online), generation, previous, now),
            settled(progressing(observed, online), generation, previous, now),
            settled(degraded(observed, online), generation, previous, now),
        ],
    }
}

pub open spec fn opt_status(o: Option<&BootHostStatus>) -> Option<BootHostStatusView> {
    match o {
        Some(s) => Some(s@),
        None => None,
    }
}

pub open spec fn opt_host(o: Option<&HostState>) -> Option<HostStateView> {
    match o {
        Some(h) => Some(h@),
        None => None,
    }
}

fn find_index(conditions: &Vec<Condition>, type_: &str) -> (r: Option<usize>)
    ensures
        match r {
            Some(i) => i < conditions@.len() && find_condition(
                self::conditions(conditions@),
                type_@,
            ) == Some(conditions@[i as int]@),
            None => find_condition(self::conditions(conditions@), type_@) is None,
        },
{
    let ghost all = self::conditions(conditions@);
    let mut i: usize = 0;
    assert(all.skip(0) == all);
    while i < conditions.len()
        invariant
            i <= conditions@.len(),
            all == self::conditions(conditions@),
            find_condition(all, type_@) == find_condition(all.skip(i as int), type_@),
        decreases conditions@.len() - i,
    {
        assert(all.skip(i as int)[0] == conditions@[i as int]@);
        if strings::eq(conditions[i].type_.as_str(), type_) {
            return Some(i);
        }
        assert(all.skip(i as int).skip(1) == all.skip(i + 1));
        i = i + 1;
    }
    None
}

/// One condition, with its transition time resolved against the previous status.
fn condition(
    type_: &str,
    holds: bool,
    reason: &str,
    message: String,
    generation: i64,
    previous: Option<&BootHostStatus>,
    now: &str,
) -> (r: Condition)
    ensures
        r@ == settled(
            (Verdict { type_: type_@, holds, reason: reason@, message: message@ }),
            generation,
            opt_status(previous),
            now@,
        ),
{
    let status = if holds {
        "True"
    } else {
        "False"
    };
    // The transition time belongs to the status, not to this pass: carry the old
    // one forward whenever the status has not moved.
    let last_transition_time = match previous {
        Some(p) => match find_index(&p.conditions, type_) {
            Some(i) => if strings::eq(p.conditions[i].status.as_str(), status) {
                p.conditions[i].last_transition_time.clone()
            } else {
                now.to_owned()
            },
            None => now.to_owned(),
        },
        None => now.to_owned(),
    };
    Condition {
        type_: type_.to_owned(),
        status: status.to_owned(),
        reason: reason.to_owned(),
        message,
        last_transition_time,
        observed_generation: generation,
    }
}

fn detail_or(h: &HostState, otherwise: &str) -> (r: String)
    ensures
        r@ == said(h@, otherwise@),
{
    match &h.detail {
        Some(d) => d.clone(),
        None => otherwise.to_owned(),
    }
}

/// The status this host should have, given what we have observed.
///
/// Level-triggered: the same observation produces the same status, so the writer
/// can compare and skip, and a restart re-derives rather than remembering.
pub fn desired_status(
    observed: Option<&HostState>,
    online: bool,
    claim_id: Option<String>,
    generation: i64,
    previous: Option<&BootHostStatus>,
    now: &str,
) -> (r: BootHostStatus)
    ensures
        r@ == status_for(
            opt_host(observed),
            online,
            text::opt_text(claim_id),
            generation,
            opt_status(previous),
            now@,
        ),
{
    let (up, up_reason, up_message, going, going_reason, going_message, down, down_reason, down_message) =
        match observed {
        None => {
            let (reason, message) = if online {
                ("NotSeen", "the boot server has not been asked to boot this machine")
            } else {
                ("Offline", "spec.online is false; the boot server will refuse this machine")
            };
            (
                false,
                reason,
                message.to_owned(),
                false,
                reason,
                message.to_owned(),
                false,
                reason,
                String::new(),
            )
        },
        Some(h) => match h.phase {
            Phase::Failed => {
                let detail = detail_or(h, "boot failed");
                (
                    false,
                    "BootFailed",
                    detail.clone(),
                    false,
                    "BootFailed",
                    detail.clone(),
                    true,
                    "BootFailed",
                    detail,
                )
            },
            Phase::Local => (
                true,
                "BootedLocally",
                "assimilated; booting from local disk".to_owned(),
                false,
                "BootedLocally",
                "nothing left to do".to_owned(),
                false,
                "BootedLocally",
                String::new(),
            ),
            phase => {
                let running = phase == Phase::Running || phase == Phase::Assimilating;
                let detail = detail_or(h, phase.slug());
                (
                    running,
                    if running {
                        "Running"
                    } else {
                        "Booting"
                    },
                    detail.clone(),
                    true,
                    "Booting",
                    detail,
                    false,
                    "Booting",
                    String::new(),
                )
            },
        },
    };
    let mut list: Vec<Condition> = Vec::new();
    list.push(condition("Available", up, up_reason, up_message, generation, previous, now));
    list.push(
        condition("Progressing", going, going_reason, going_message, generation, previous, now),
    );
    list.push(condition("Degraded", down, down_reason, down_message, generation, previous, now));
    let ghost want = status_for(
        opt_host(observed),
        online,
        text::opt_text(claim_id),
        generation,
        opt_status(previous),
        now@,
    );
    assert(list@[0]@ =~= want.conditions[0]);
    assert(list@[1]@ =~= want.conditions[1]);
    assert(list@[2]@ =~= want.conditions[2]);
    assert(conditions(list@) =~= want.conditions);
    BootHostStatus {
        phase: match observed {
            Some(h) => Some(h.phase.slug().to_owned()),
            None => None,
        },
        pallet_version: match observed {
            Some(h) => strings::clone_opt(&h.pallet_version),
            None => None,
        },
        claim_id,
        hardware: match observed {
            Some(h) => match &h.hardware {
                Some(i) => Some(HardwareStatus::of(i)),
                None => None,
            },
            None => None,
        },
        conditions: list,
    }
}

// ---------------------------------------------------------------------------
// Laws

proof fn lemma_types_differ()
    ensures
        "Available"@ != "Progressing"@,
        "Available"@ != "Degraded"@,
        "Progressing"@ != "Degraded"@,
{
    reveal_strlit("Available");
    reveal_strlit("Progressing");
    reveal_strlit("Degraded");
    assert("Available"@[0] == 'A');
    assert("Progressing"@[0] == 'P');
    assert("Degraded"@[0] == 'D');
}

/// Every status names its three conditions where a reader looks them up.
pub proof fn law_each_condition_is_found(
    observed: Option<HostStateView>,
    online: bool,
    claim_id: Option<Seq<char>>,
    generation: i64,
    previous: Option<BootHostStatusView>,
    now: Seq<char>,
)
    ensures
        ({
            let s = status_for(observed, online, claim_id, generation, previous, now);
            &&& find_condition(s.conditions, "Available"@) == Some(s.conditions[0])
            &&& find_condition(s.conditions, "Progressing"@) == Some(s.conditions[1])
            &&& find_condition(s.conditions, "Degraded"@) == Some(s.conditions[2])
        }),
{
    let s = status_for(observed, online, claim_id, generation, previous, now);
    lemma_types_differ();
    reveal_with_fuel(find_condition, 4);
    assert(s.conditions.skip(1)[0] == s.conditions[1]);
    assert(s.conditions.skip(1).skip(1)[0] == s.conditions[2]);
}

/// Deriving the status again from what was just written, at any later time,
/// changes nothing: the writer compares and skips.
pub proof fn law_status_is_level_triggered(
    observed: Option<HostStateView>,
    online: bool,
    claim_id: Option<Seq<char>>,
    generation: i64,
    previous: Option<BootHostStatusView>,
    now: Seq<char>,
    later: Seq<char>,
)
    ensures
        ({
            let s = status_for(observed, online, claim_id, generation, previous, now);
            status_for(observed, online, claim_id, generation, Some(s), later) == s
        }),
{
    let s = status_for(observed, online, claim_id, generation, previous, now);
    law_each_condition_is_found(observed, online, claim_id, generation, previous, now);
    let again = status_for(observed, online, claim_id, generation, Some(s), later);
    assert(again.conditions =~= s.conditions);
}

/// The transition time of each condition moves exactly when its status does.
pub proof fn law_transition_times_move_only_when_the_status_does(
    earlier: Option<HostStateView>,
    was_online: bool,
    claim_id: Option<Seq<char>>,
    generation: i64,
    previous: Option<BootHostStatusView>,
    start: Seq<char>,
    observed: Option<HostStateView>,
    online: bool,
    now: Seq<char>,
    i: int,
)
    requires
        0 <= i < 3,
    ensures
        ({
            let a = status_for(earlier, was_online, claim_id, generation, previous, start);
            let b = status_for(observed, online, claim_id, generation, Some(a), now);
            b.conditions[i].last_transition_time == if b.conditions[i].status
                == a.conditions[i].status {
                a.conditions[i].last_transition_time
            } else {
                now
            }
        }),
{
    law_each_condition_is_found(earlier, was_online, claim_id, generation, previous, start);
}

/// A host that was seen is available once it runs, whether from the network or from its
/// own disk, progresses until it is local or has failed, and is degraded exactly when it
/// has failed. What it said of itself is what the conditions say, and every one of them
/// was observed at the generation it was computed from.
pub proof fn law_conditions_follow_the_phase(
    h: HostStateView,
    online: bool,
    claim_id: Option<Seq<char>>,
    generation: i64,
    previous: Option<BootHostStatusView>,
    now: Seq<char>,
)
    ensures
        ({
            let s = status_for(Some(h), online, claim_id, generation, previous, now);
            let available = find_condition(s.conditions, "Available"@);
            let progressing = find_condition(s.conditions, "Progressing"@);
            let degraded = find_condition(s.conditions, "Degraded"@);
            &&& s.conditions.len() == 3
            &&& available is Some && progressing is Some && degraded is Some
            &&& available->0.status == if h.phase is Running || h.phase is Assimilating
                || h.phase is Local {
                "True"@
            } else {
                "False"@
            }
            &&& progressing->0.status == if h.phase is Local || h.phase is Failed {
                "False"@
            } else {
                "True"@
            }
            &&& degraded->0.status == if h.phase is Failed {
                "True"@
            } else {
                "False"@
            }
            &&& h.detail is Some && !(h.phase is Local) ==> available->0.message == h.detail->0
                && progressing->0.message == h.detail->0
            &&& h.phase is Failed ==> available->0.reason == "BootFailed"@ && progressing->0.reason
                == "BootFailed"@ && degraded->0.reason == "BootFailed"@
            &&& h.phase is Failed && h.detail is Some ==> degraded->0.message == h.detail->0
            &&& h.phase is Failed && h.detail is None ==> degraded->0.message == "boot failed"@
            &&& !(h.phase is Failed) ==> degraded->0.message.len() == 0
            &&& available->0.observed_generation == generation
            &&& progressing->0.observed_generation == generation
            &&& degraded->0.observed_generation == generation
        }),
{
    law_each_condition_is_found(Some(h), online, claim_id, generation, previous, now);
}

/// A status carries what is known of the host: its phase in the one spelling, the version
/// it was served, what it is made of and the claim it boots from.
pub proof fn law_a_status_carries_what_is_known(
    h: HostStateView,
    online: bool,
    claim_id: Option<Seq<char>>,
    generation: i64,
    previous: Option<BootHostStatusView>,
    now: Seq<char>,
)
    ensures
        ({
            let s = status_for(Some(h), online, claim_id, generation, previous, now);
            &&& s.phase == Some(h.phase.word())
            &&& s.pallet_version == h.pallet_version
            &&& s.hardware == h.hardware
            &&& s.claim_id == claim_id
        }),
        ({
            let s = status_for(None, online, claim_id, generation, previous, now);
            s.phase is None && s.pallet_version is None && s.hardware is None && s.claim_id
                == claim_id
        }),
{
}

/// A host that never asked to boot is in none of the three conditions, and the reason
/// tells one that was not seen from one that is parked.
pub proof fn law_an_unseen_host_is_in_no_condition(
    online: bool,
    claim_id: Option<Seq<char>>,
    generation: i64,
    previous: Option<BootHostStatusView>,
    now: Seq<char>,
    i: int,
)
    requires
        0 <= i < 3,
    ensures
        ({
            let c = status_for(None, online, claim_id, generation, previous, now).conditions[i];
            &&& c.status == "False"@
            &&& c.reason == if online {
                "NotSeen"@
            } else {
                "Offline"@
            }
            &&& c.observed_generation == generation
        }),
{
}

/// A condition that was never written before dates from now, and so does one whose status
/// changed; one that stands as it stood keeps its time, whatever else is said anew.
pub proof fn law_a_condition_dates_from_its_change(
    observed: Option<HostStateView>,
    online: bool,
    claim_id: Option<Seq<char>>,
    generation: i64,
    previous: BootHostStatusView,
    now: Seq<char>,
    i: int,
)
    requires
        0 <= i < 3,
    ensures
        status_for(
            observed,
            online,
            claim_id,
            generation,
            None,
            now,
        ).conditions[i].last_transition_time == now,
        ({
            let c = status_for(
                observed,
                online,
                claim_id,
                generation,
                Some(previous),
                now,
            ).conditions[i];
            let was = find_condition(previous.conditions, c.type_);
            c.last_transition_time == if was is Some && was->0.status == c.status {
                was->0.last_transition_time
            } else {
                now
            }
        }),
{
}

/// An object is a record exactly where its address can be read and it has a name: its own
/// host name, or else the object's. The record says of the host what the object says, and
/// remembers which object said it and at which generation.
pub proof fn law_a_record_says_what_its_object_says(host: BootHost)
    ensures
        host.record() is Some <==> mac::parsed(host.spec.boot_mac_address@) is Ok && (
        host.spec.hostname is Some || host.metadata.name is Some),
        host.record() is Some ==> ({
            let r = host.record()->0;
            &&& mac::parsed(host.spec.boot_mac_address@)->Ok_0 == r.mac
            &&& host.spec.hostname is Some ==> r.name == host.spec.hostname->0
            &&& host.spec.hostname is None ==> r.name == host.metadata.name->0
            &&& r.role == host.spec.role
            &&& r.stack == host.spec.stack
            &&& r.portal == host.spec.portal
            &&& r.extra_cmdline == host.spec.extra_cmdline
            &&& r.online == host.spec.online
            &&& r.object is Some <==> host.metadata.namespace is Some && host.metadata.name is Some
            &&& r.object is Some ==> r.object->0.namespace == host.metadata.namespace->0
                && r.object->0.name == host.metadata.name->0 && r.object->0.generation
                == host.metadata.generation.unwrap_or(0)
        }),
{
}

} // verus!
