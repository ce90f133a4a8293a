//! Attaching the boot volume: the order in which a namespace is connected, enabled,
//! identified and given an I/O queue.
//!
//! Connect only establishes a queue. A conforming target answers every admin
//! command with Command Sequence Error until the controller reports that it is
//! ready, so Identify has to wait for that.

use crate::bytes;
use crate::firmware::nvme;
use crate::firmware::nvme::{
    connect_payload, controller_id, fabrics_connect, geometry_of, host_id, identify, property_get,
    property_set, property_value, Cqe, Enabled, Enabling, Geometry, Namespace, Sqe, ADMIN_ENTRIES,
    CC_ENABLE, DYNAMIC_CONTROLLER, IO_ENTRIES, REG_CAP, REG_CC, REG_CSTS,
};
use crate::text;
use vstd::prelude::*;

verus! {

/// What is attached, and as whom.
pub struct Target {
    pub subnqn: String,
    pub nsid: u32,
    pub hostnqn: String,
}

/// Where an attach stands: what it waits for.
#[derive(Debug, Clone, Copy)]
pub enum Stage {
    OpeningAdmin,
    ConnectingAdmin,
    ReadingCapabilities { cntlid: u16 },
    /// CC.EN is being set.
    SettingEnable { cntlid: u16, enabling: Enabling },
    ReadingStatus { cntlid: u16, enabling: Enabling },
    /// Not ready yet: a pause before the status is read again.
    Resting { cntlid: u16, enabling: Enabling },
    Identifying { cntlid: u16, entries: u16 },
    OpeningIo { cntlid: u16, entries: u16, geometry: Geometry },
    ConnectingIo { cntlid: u16, entries: u16, geometry: Geometry },
    Attached { geometry: Geometry },
    Failed,
}

/// What to do next.
#[derive(Debug)]
pub enum AttachStep {
    /// Open a connection for the admin queue, and negotiate it.
    OpenAdmin,
    /// Open a connection for the I/O queue, and negotiate it.
    OpenIo,
    /// Fabrics Connect, on the connection opened last.
    Connect { qid: u16, entries: u16, payload: Vec<u8> },
    /// Read a property, on the admin queue.
    GetProperty { offset: u32, eight: bool },
    /// Write a property, on the admin queue.
    SetProperty { offset: u32, value: u64, eight: bool },
    /// Wait 10ms.
    Rest,
    /// Identify the namespace, on the admin queue: 4096 bytes are read.
    Identify { nsid: u32 },
    Finished(Result<Namespace, String>),
}

/// What came of it.
#[derive(Debug)]
pub enum AttachEvent {
    Opened,
    /// A command was completed without a fault.
    Completed(Cqe),
    Rested,
    /// What an Identify read.
    Read(Vec<u8>),
    Failed(String),
}

/// What an Identify read is of the length asked for, and the block size it names
/// can be counted in 32 bits.
pub open spec fn is_sound(event: AttachEvent) -> bool {
    match event {
        AttachEvent::Read(idns) => idns@.len() == 4096 && nvme::lbads(idns@) < 32,
        _ => true,
    }
}

/// The 64-bit property that a completion carries.
pub open spec fn wide(cqe: Cqe) -> u64 {
    (cqe.dw0 + 0x1_0000_0000 * cqe.dw1) as u64
}

/// CSTS.CFS: the controller cannot go on.
pub open spec fn is_fatal(cqe: Cqe) -> bool {
    (cqe.dw0 / 2) % 2 == 1
}

/// CSTS.RDY: the controller takes commands.
pub open spec fn is_ready(cqe: Cqe) -> bool {
    !is_fatal(cqe) && cqe.dw0 % 2 == 1
}

/// What the capabilities say of how the controller is enabled.
pub open spec fn enabling_of(cap: u64) -> Enabling {
    Enabling { mqes: nvme::queue_entries(cap), timeout_ms: nvme::ready_within(cap), waited: 0 }
}

/// How many entries the I/O queue is asked to have.
pub open spec fn io_entries(e: Enabling) -> u16 {
    if e.mqes < IO_ENTRIES {
        e.mqes
    } else {
        IO_ENTRIES
    }
}

pub open spec fn geometry(idns: Seq<u8>) -> Geometry {
    Geometry {
        blocks: bytes::le64_at(idns, 0) as u64,
        block_size: nvme::block_bytes(nvme::lbads(idns)) as u32,
    }
}

/// The stage that an event leads to. A failure ends the attach, wherever it
/// stands, and so does an answer to what was not asked.
pub open spec fn next(stage: Stage, event: AttachEvent) -> Stage {
    match (stage, event) {
        (Stage::OpeningAdmin, AttachEvent::Opened) => Stage::ConnectingAdmin,
        (Stage::ConnectingAdmin, AttachEvent::Completed(cqe)) => Stage::ReadingCapabilities {
            cntlid: (cqe.dw0 % 0x1_0000) as u16,
        },
        (Stage::ReadingCapabilities { cntlid }, AttachEvent::Completed(cqe)) =>
            Stage::SettingEnable { cntlid, enabling: enabling_of(wide(cqe)) },
        (Stage::SettingEnable { cntlid, enabling }, AttachEvent::Completed(_)) =>
            Stage::ReadingStatus { cntlid, enabling },
        (Stage::ReadingStatus { cntlid, enabling }, AttachEvent::Completed(cqe)) => {
            if is_fatal(cqe) {
                Stage::Failed
            } else if is_ready(cqe) {
                Stage::Identifying { cntlid, entries: io_entries(enabling) }
            } else if enabling.waited > enabling.timeout_ms {
                Stage::Failed
            } else {
                Stage::Resting {
                    cntlid,
                    enabling: Enabling { waited: (enabling.waited + 10) as u64, ..enabling },
                }
            }
        },
        (Stage::Resting { cntlid, enabling }, AttachEvent::Rested) => Stage::ReadingStatus {
            cntlid,
            enabling,
        },
        (Stage::Identifying { cntlid, entries }, AttachEvent::Read(idns)) => {
            if nvme::plausible(nvme::lbads(idns@)) {
                Stage::OpeningIo { cntlid, entries, geometry: geometry(idns@) }
            } else {
                Stage::Failed
            }
        },
        (Stage::OpeningIo { cntlid, entries, geometry }, AttachEvent::Opened) =>
            Stage::ConnectingIo { cntlid, entries, geometry },
        (Stage::ConnectingIo { cntlid, entries, geometry }, AttachEvent::Completed(_)) =>
            Stage::Attached { geometry },
        (Stage::Attached { geometry }, _) => Stage::Attached { geometry },
        _ => Stage::Failed,
    }
}

/// Why an attach failed.
pub open spec fn why(stage: Stage, event: AttachEvent) -> Seq<char> {
    match (stage, event) {
        (Stage::Failed, _) => "the attach has failed"@,
        (_, AttachEvent::Failed(said)) => said@,
        (Stage::ReadingStatus { cntlid, enabling }, AttachEvent::Completed(cqe)) => {
            if is_fatal(cqe) {
                "controller reports fatal status (CSTS.CFS)"@
            } else {
                "controller not ready "@ + text::dec(enabling.timeout_ms as nat)
                    + "ms after CC.EN"@
            }
        },
        (Stage::Identifying { cntlid, entries }, AttachEvent::Read(idns)) =>
            "implausible block size "@ + text::dec(nvme::block_bytes(nvme::lbads(idns@)))
                + " (LBADS "@ + text::dec(nvme::lbads(idns@) as nat) + ")"@,
        _ => "answer out of turn"@,
    }
}

/// The payload of a Connect.
pub open spec fn hello(to: Target, cntlid: u16) -> Seq<u8> {
    nvme::connect_data(
        cntlid,
        vstd::utf8::encode_utf8(to.subnqn@),
        vstd::utf8::encode_utf8(to.hostnqn@),
        nvme::host_id_of(vstd::utf8::encode_utf8(to.hostnqn@)),
    )
}

/// Whether a step is the one to take at a stage.
pub open spec fn asks(to: Target, stage: Stage, step: AttachStep) -> bool {
    match stage {
        Stage::OpeningAdmin => step is OpenAdmin,
        Stage::ConnectingAdmin => {
            &&& step matches AttachStep::Connect { qid, entries, payload }
            &&& qid == 0
            &&& entries == ADMIN_ENTRIES
            &&& payload@ == hello(to, DYNAMIC_CONTROLLER)
        },
        Stage::ReadingCapabilities { .. } => step == (AttachStep::GetProperty {
            offset: REG_CAP,
            eight: true,
        }),
        Stage::SettingEnable { .. } => step == (AttachStep::SetProperty {
            offset: REG_CC,
            value: CC_ENABLE,
            eight: false,
        }),
        Stage::ReadingStatus { .. } => step == (AttachStep::GetProperty { offset: REG_CSTS, eight: false }),
        Stage::Resting { .. } => step is Rest,
        Stage::Identifying { .. } => step == (AttachStep::Identify { nsid: to.nsid }),
        Stage::OpeningIo { .. } => step is OpenIo,
        Stage::ConnectingIo { cntlid, entries, geometry } => {
            &&& step matches AttachStep::Connect { qid, entries: asked, payload }
            &&& qid == 1
            &&& asked == entries
            &&& payload@ == hello(to, cntlid)
        },
        Stage::Attached { geometry } => {
            &&& step matches AttachStep::Finished(Ok(ns))
            &&& ns.nsid == to.nsid
            &&& ns.geometry == geometry
            &&& ns.max_transfer == nvme::CHUNK
        },
        Stage::Failed => step matches AttachStep::Finished(Err(_)),
    }
}

impl Stage {
    /// The wait for the controller is a bounded one.
    pub open spec fn wf(&self) -> bool {
        match *self {
            Stage::SettingEnable { enabling, .. } => bounded(enabling),
            Stage::ReadingStatus { enabling, .. } => bounded(enabling),
            Stage::Resting { enabling, .. } => bounded(enabling),
            _ => true,
        }
    }

    pub open spec fn is_over(&self) -> bool {
        *self is Attached || *self is Failed
    }
}

pub open spec fn bounded(e: Enabling) -> bool {
    e.waited <= e.timeout_ms + 10 && e.timeout_ms <= 127500
}

/// An attach under way.
pub struct Attaching {
    pub to: Target,
    pub stage: Stage,
}

impl Attaching {
    pub fn new(to: Target) -> (r: (Self, AttachStep))
        ensures
            r.0.to == to,
            r.0.stage == Stage::OpeningAdmin,
            asks(to, r.0.stage, r.1),
    {
        (Attaching { to, stage: Stage::OpeningAdmin }, AttachStep::OpenAdmin)
    }

    /// What to do next, once the last step is done.
    pub fn on_event(&mut self, event: AttachEvent) -> (r: AttachStep)
        requires
            old(self).stage.wf(),
            is_sound(event),
        ensures
            final(self).to == old(self).to,
            final(self).stage == next(old(self).stage, event),
            final(self).stage.wf(),
            asks(old(self).to, final(self).stage, r),
            final(self).stage is Failed ==> (r matches AttachStep::Finished(Err(said)) && said@
                == why(old(self).stage, event)),
    {
        match (self.stage, event) {
            (Stage::Failed, _) => self.fail("the attach has failed".to_owned()),
            (Stage::Attached { geometry }, _) => self.finish(geometry),
            (_, AttachEvent::Failed(said)) => self.fail(said),
            (Stage::OpeningAdmin, AttachEvent::Opened) => {
                self.stage = Stage::ConnectingAdmin;
                self.connect(0, ADMIN_ENTRIES, DYNAMIC_CONTROLLER)
            },
            (Stage::ConnectingAdmin, AttachEvent::Completed(cqe)) => {
                self.stage = Stage::ReadingCapabilities { cntlid: controller_id(&cqe) };
                AttachStep::GetProperty { offset: REG_CAP, eight: true }
            },
            (Stage::ReadingCapabilities { cntlid }, AttachEvent::Completed(cqe)) => {
                let enabling = Enabling::new(property_value(&cqe, true));
                self.stage = Stage::SettingEnable { cntlid, enabling };
                AttachStep::SetProperty { offset: REG_CC, value: CC_ENABLE, eight: false }
            },
            (Stage::SettingEnable { cntlid, enabling }, AttachEvent::Completed(_)) => {
                self.stage = Stage::ReadingStatus { cntlid, enabling };
                AttachStep::GetProperty { offset: REG_CSTS, eight: false }
            },
            (Stage::ReadingStatus { cntlid, enabling }, AttachEvent::Completed(cqe)) => {
                let mut enabling = enabling;
                match enabling.on_status(property_value(&cqe, false)) {
                    Enabled::Ready => {
                        let entries = enabling.io_entries();
                        self.stage = Stage::Identifying { cntlid, entries };
                        AttachStep::Identify { nsid: self.to.nsid }
                    },
                    Enabled::Wait => {
                        self.stage = Stage::Resting { cntlid, enabling };
                        AttachStep::Rest
                    },
                    Enabled::Failed(said) => self.fail(said),
                }
            },
            (Stage::Resting { cntlid, enabling }, AttachEvent::Rested) => {
                self.stage = Stage::ReadingStatus { cntlid, enabling };
                AttachStep::GetProperty { offset: REG_CSTS, eight: false }
            },
            (Stage::Identifying { cntlid, entries }, AttachEvent::Read(idns)) => {
                match geometry_of(idns.as_slice()) {
                    Ok(geometry) => {
                        self.stage = Stage::OpeningIo { cntlid, entries, geometry };
                        AttachStep::OpenIo
                    },
                    Err(said) => self.fail(said),
                }
            },
            (Stage::OpeningIo { cntlid, entries, geometry }, AttachEvent::Opened) => {
                self.stage = Stage::ConnectingIo { cntlid, entries, geometry };
                self.connect(1, entries, cntlid)
            },
            (Stage::ConnectingIo { cntlid, entries, geometry }, AttachEvent::Completed(_)) => {
                self.finish(geometry)
            },
            _ => self.fail("answer out of turn".to_owned()),
        }
    }

    fn connect(&self, qid: u16, entries: u16, cntlid: u16) -> (r: AttachStep)
        ensures
            r matches AttachStep::Connect { qid: q, entries: n, payload } && q == qid && n
                == entries && payload@ == hello(self.to, cntlid),
    {
        let id = host_id(self.to.hostnqn.as_str());
        AttachStep::Connect {
            qid,
            entries,
            payload: connect_payload(
                cntlid,
                self.to.subnqn.as_str(),
                self.to.hostnqn.as_str(),
                &id,
            ),
        }
    }

    fn fail(&mut self, said: String) -> (r: AttachStep)
        ensures
            final(self).to == old(self).to,
            final(self).stage is Failed,
            r == AttachStep::Finished(Err(said)),
    {
        self.stage = Stage::Failed;
        AttachStep::Finished(Err(said))
    }

    fn finish(&mut self, geometry: Geometry) -> (r: AttachStep)
        ensures
            final(self).to == old(self).to,
            final(self).stage == (Stage::Attached { geometry }),
            asks(old(self).to, final(self).stage, r),
    {
        self.stage = Stage::Attached { geometry };
        AttachStep::Finished(Ok(Namespace::attached(self.to.nsid, geometry)))
    }
}

impl AttachStep {
    /// The submission entry of a step that is a command.
    pub fn command(&self, cid: u16) -> (r: Option<Sqe>)
        ensures
            match *self {
                AttachStep::Connect { qid, entries, .. } => r matches Some(sqe) && sqe.wf() && sqe@
                    == nvme::connect_entry(cid, qid, entries),
                AttachStep::GetProperty { offset, eight } => r matches Some(sqe) && sqe.wf() && sqe@
                    == nvme::property_get_entry(cid, offset, eight),
                AttachStep::SetProperty { offset, value, eight } => r matches Some(sqe) && sqe.wf() && sqe@
                    == nvme::property_set_entry(cid, offset, value, eight),
                AttachStep::Identify { nsid } => r matches Some(sqe) && sqe.wf() && sqe@
                    == nvme::identify_entry(cid, nsid),
                _ => r is None,
            },
    {
        match self {
            AttachStep::Connect { qid, entries, payload: _ } => Some(
                fabrics_connect(cid, *qid, *entries),
            ),
            AttachStep::GetProperty { offset, eight } => Some(property_get(cid, *offset, *eight)),
            AttachStep::SetProperty { offset, value, eight } => Some(
                property_set(cid, *offset, *value, *eight),
            ),
            AttachStep::Identify { nsid } => Some(identify(cid, *nsid)),
            _ => None,
        }
    }
}

// ---------------------------------------------------------------------------
// Laws

/// The stage that events lead to, from the first.
pub open spec fn reached(events: Seq<AttachEvent>) -> Stage
    decreases events.len(),
{
    if events.len() == 0 {
        Stage::OpeningAdmin
    } else {
        next(reached(events.drop_last()), events.last())
    }
}

/// The stage that the event at `i` found.
pub open spec fn found(events: Seq<AttachEvent>, i: int) -> Stage {
    reached(events.take(i))
}

/// The event at `i` completed the admin Connect, which handed out `cntlid`.
pub open spec fn connected_at(events: Seq<AttachEvent>, i: int, cntlid: u16) -> bool {
    &&& 0 <= i < events.len()
    &&& found(events, i) is ConnectingAdmin
    &&& events[i] matches AttachEvent::Completed(cqe)
    &&& cqe.dw0 % 0x1_0000 == cntlid
}

/// The event at `i` completed the setting of CC.EN.
pub open spec fn enabled_at(events: Seq<AttachEvent>, i: int) -> bool {
    &&& 0 <= i < events.len()
    &&& found(events, i) is SettingEnable
    &&& events[i] is Completed
}

/// The event at `i` is a status read that says ready.
pub open spec fn ready_at(events: Seq<AttachEvent>, i: int) -> bool {
    &&& 0 <= i < events.len()
    &&& found(events, i) is ReadingStatus
    &&& events[i] matches AttachEvent::Completed(cqe)
    &&& is_ready(cqe)
}

/// The stages at which the controller was found ready.
pub open spec fn past_ready(stage: Stage) -> bool {
    stage is Identifying || stage is OpeningIo || stage is ConnectingIo || stage is Attached
}

/// The controller id that a stage goes by.
pub open spec fn controller(stage: Stage) -> Option<u16> {
    match stage {
        Stage::ReadingCapabilities { cntlid } => Some(cntlid),
        Stage::SettingEnable { cntlid, .. } => Some(cntlid),
        Stage::ReadingStatus { cntlid, .. } => Some(cntlid),
        Stage::Resting { cntlid, .. } => Some(cntlid),
        Stage::Identifying { cntlid, .. } => Some(cntlid),
        Stage::OpeningIo { cntlid, .. } => Some(cntlid),
        Stage::ConnectingIo { cntlid, .. } => Some(cntlid),
        _ => None,
    }
}

/// Identify never comes before ready: where the namespace is identified, or was,
/// the controller was enabled and then said that it is ready.
pub proof fn law_identify_waits_for_ready(events: Seq<AttachEvent>)
    ensures
        past_ready(reached(events)) ==> exists|i: int, j: int|
            i < j && #[trigger] enabled_at(events, i) && #[trigger] ready_at(events, j),
    decreases events.len(),
{
    lemma_polling_was_enabled(events);
    if events.len() > 0 {
        let before = events.drop_last();
        let last = events.len() - 1;
        assert(events.take(last) == before);
        law_identify_waits_for_ready(before);
        lemma_polling_was_enabled(before);
        if past_ready(reached(events)) {
            if past_ready(reached(before)) {
                let (i, j): (int, int) = choose|i: int, j: int|
                    i < j && #[trigger] enabled_at(before, i) && #[trigger] ready_at(before, j);
                assert(events.take(i) == before.take(i));
                assert(events.take(j) == before.take(j));
                assert(enabled_at(events, i) && ready_at(events, j));
            } else {
                assert(reached(before) is ReadingStatus);
                let i = choose|i: int| enabled_at(before, i);
                assert(events.take(i) == before.take(i));
                assert(enabled_at(events, i) && ready_at(events, last));
            }
        }
    }
}

/// A status is read only once CC.EN was set.
proof fn lemma_polling_was_enabled(events: Seq<AttachEvent>)
    ensures
        reached(events) is ReadingStatus || reached(events) is Resting ==> exists|i: int|
            enabled_at(events, i),
    decreases events.len(),
{
    if events.len() > 0 {
        let before = events.drop_last();
        let last = events.len() - 1;
        assert(events.take(last) == before);
        lemma_polling_was_enabled(before);
        if reached(before) is SettingEnable {
            assert(reached(events) is ReadingStatus ==> enabled_at(events, last));
        } else if reached(before) is ReadingStatus || reached(before) is Resting {
            let i = choose|i: int| enabled_at(before, i);
            assert(events.take(i) == before.take(i));
            assert(enabled_at(events, i));
        }
    }
}

/// The I/O queue is opened on the controller that the admin Connect handed out: the
/// id that its Connect carries is the one that came back.
pub proof fn law_the_io_queue_joins_its_controller(events: Seq<AttachEvent>)
    ensures
        controller(reached(events)) matches Some(cntlid) ==> exists|i: int|
            connected_at(events, i, cntlid),
    decreases events.len(),
{
    if events.len() > 0 {
        let before = events.drop_last();
        let last = events.len() - 1;
        assert(events.take(last) == before);
        law_the_io_queue_joins_its_controller(before);
        if let Some(cntlid) = controller(reached(events)) {
            if reached(before) is ConnectingAdmin {
                assert(connected_at(events, last, cntlid));
            } else {
                assert(controller(reached(before)) == Some(cntlid));
                let i = choose|i: int| connected_at(before, i, cntlid);
                assert(events.take(i) == before.take(i));
                assert(connected_at(events, i, cntlid));
            }
        }
    }
}

/// How many answers an attach can still take. CAP.TO allows for 127500ms at most,
/// and each 10ms of them cost a pause and a status.
pub open spec fn patience(stage: Stage) -> nat {
    match stage {
        Stage::OpeningAdmin => 255057,
        Stage::ConnectingAdmin => 255056,
        Stage::ReadingCapabilities { .. } => 255055,
        Stage::SettingEnable { enabling, .. } => waits(enabling) + 6,
        Stage::ReadingStatus { enabling, .. } => waits(enabling) + 5,
        Stage::Resting { enabling, .. } => waits(enabling) + 6,
        Stage::Identifying { .. } => 3,
        Stage::OpeningIo { .. } => 2,
        Stage::ConnectingIo { .. } => 1,
        _ => 0,
    }
}

pub open spec fn waits(e: Enabling) -> nat {
    (2 * (e.timeout_ms + 20 - e.waited)) as nat
}

/// An attach comes to an end: every answer brings it nearer, and nothing moves it
/// once it is over.
pub proof fn law_an_attach_ends(stage: Stage, event: AttachEvent)
    requires
        stage.wf(),
    ensures
        next(stage, event).wf(),
        !stage.is_over() ==> patience(next(stage, event)) < patience(stage),
        stage.is_over() ==> next(stage, event) == stage,
{
}

/// What is asked of the controller on the way: its capabilities in full, then the
/// enable bit, with the entry sizes that every controller uses, then whether it is
/// ready. The namespace identified is the one to attach.
pub proof fn law_each_stage_asks_for_its_register(to: Target, stage: Stage, step: AttachStep)
    requires
        asks(to, stage, step),
    ensures
        step matches AttachStep::GetProperty { offset, eight } ==> {
            ||| stage is ReadingCapabilities && offset == 0 && eight
            ||| stage is ReadingStatus && offset == 0x1C && !eight
        },
        step matches AttachStep::SetProperty { offset, value, eight } ==> stage is SettingEnable
            && offset == 0x14 && !eight && value % 2 == 1 && (value / 0x1_0000) % 16 == 6 && (value
            / 0x10_0000) % 16 == 4,
        step matches AttachStep::Identify { nsid } ==> stage is Identifying && nsid == to.nsid,
        step matches AttachStep::Finished(Ok(ns)) ==> stage is Attached && ns.nsid == to.nsid
            && ns.geometry == stage->Attached_geometry,
        step matches AttachStep::Connect { qid, entries, payload } ==> {
            ||| stage is ConnectingAdmin && qid == 0 && entries == 32 && payload@ == hello(
                to,
                0xFFFF,
            )
            ||| stage is ConnectingIo && qid == 1 && entries == stage->ConnectingIo_entries
                && payload@ == hello(to, stage->ConnectingIo_cntlid)
        },
        stage is Failed <==> step matches AttachStep::Finished(Err(_)),
{
}

/// The capabilities are what the controller answered: the I/O queue has as many
/// entries as the controller takes, and no more than 128; and the controller has as
/// long to get ready as it asked for, half a second at least.
pub proof fn law_the_controller_sets_the_limits(cntlid: u16, cqe: Cqe)
    ensures
        ({
            let e = next(
                Stage::ReadingCapabilities { cntlid },
                AttachEvent::Completed(cqe),
            )->SettingEnable_enabling;
            let entries = io_entries(e);
            &&& entries == 128 || entries == cqe.dw0 % 0x1_0000 + 1
            &&& entries <= 128
            &&& entries <= cqe.dw0 % 0x1_0000 + 1
            &&& e.timeout_ms == 500 || e.timeout_ms == 500 * (cqe.dw0 / 0x100_0000)
            &&& e.timeout_ms >= 500
            &&& e.timeout_ms >= 500 * (cqe.dw0 / 0x100_0000)
            &&& e.waited == 0
        }),
{
    let cap = wide(cqe);
    assert(cap % 0x1_0000 == cqe.dw0 % 0x1_0000 && (cap / 0x100_0000) % 256 == cqe.dw0
        / 0x100_0000) by (nonlinear_arith)
        requires
            cap == cqe.dw0 + 0x1_0000_0000 * cqe.dw1,
            0 <= cqe.dw0 < 0x1_0000_0000,
            0 <= cqe.dw1,
    ;
}

/// A controller that is neither ready nor broken is asked again after 10ms, and given
/// up on only once its time has passed; one that says it is broken is given up on at
/// once; and one that is ready is not waited for.
pub proof fn law_a_controller_is_given_its_time(cntlid: u16, enabling: Enabling, cqe: Cqe)
    requires
        bounded(enabling),
    ensures
        ({
            let after = next(
                Stage::ReadingStatus { cntlid, enabling },
                AttachEvent::Completed(cqe),
            );
            let s = cqe.dw0 % 4;
            &&& s >= 2 ==> after is Failed
            &&& s == 1 ==> after is Identifying
            &&& s == 0 && enabling.waited <= enabling.timeout_ms ==> after is Resting
                && after->Resting_enabling.waited == enabling.waited + 10
                && after->Resting_enabling.timeout_ms == enabling.timeout_ms
                && after->Resting_enabling.mqes == enabling.mqes
            &&& s == 0 && enabling.waited > enabling.timeout_ms ==> after is Failed
        }),
{
    let d = cqe.dw0;
    assert((d % 4 >= 2) <==> (d / 2) % 2 == 1) by (bit_vector);
    assert((d % 4 == 1) <==> ((d / 2) % 2 != 1 && d % 2 == 1)) by (bit_vector);
}

/// The geometry attached is what the namespace said of itself.
pub proof fn law_the_geometry_is_the_namespaces_own(cntlid: u16, entries: u16, idns: Vec<u8>)
    requires
        is_sound(AttachEvent::Read(idns)),
    ensures
        ({
            let after = next(Stage::Identifying { cntlid, entries }, AttachEvent::Read(idns));
            let size = idns@[128 + 4 * (idns@[26] % 16) + 2];
            &&& after is OpeningIo <==> 9 <= size <= 16
            &&& after is OpeningIo ==> after->OpeningIo_geometry.blocks == bytes::le64_at(idns@, 0)
                && after->OpeningIo_geometry.block_size == vstd::arithmetic::power2::pow2(
                size as nat,
            ) && after->OpeningIo_cntlid == cntlid && after->OpeningIo_entries == entries
        }),
{
    let size = idns@[128 + 4 * (idns@[26] % 16) + 2];
    nvme::law_block_sizes_are_powers_of_two(size);
    assert(bytes::le64_at(idns@, 0) <= u64::MAX);
}

} // verus!
