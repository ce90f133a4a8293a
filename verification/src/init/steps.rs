//! The boot sequence itself.
//!
//! Ordering is the whole content of this module: mount the pseudo-filesystems, load
//! modules, bring up the network, start the engine, wait for the device, mount, hand
//! over. Deviating from that order produces failures that look like driver bugs.

use crate::init::cmdline;
use crate::init::cmdline::{BootParams, ParamsView};
use crate::strings;
use crate::text;
use vstd::prelude::*;
use vstd::string::StringExecFns;

verus! {

/// Where the engine binary lives inside the initramfs.
pub const STORMBLOCK: &'static str = "/usr/sbin/stormblock";

/// Root always arrives here, whether it came over the network or off a slab.
pub const ROOT_DEV: &'static str = "/dev/ublkb0";

pub const SYSROOT: &'static str = "/sysroot";

/// How long to wait for the root device.
pub const DEVICE_TIMEOUT_MS: u64 = 60_000;

/// How long to wait for any other device.
pub const BLOCK_TIMEOUT_MS: u64 = 15_000;

// ---------------------------------------------------------------------------
// The sequence

/// One step of the boot.
#[derive(Debug, PartialEq, Eq)]
pub enum BootStep {
    /// Say something on the console.
    Stamp(String),
    MountPseudoFilesystems,
    LoadModules,
    BringUpNetwork,
    ResolveSlabs,
    StartEngine,
    WaitForRoot,
    MountRoot,
    ApplyExports,
    WriteIdentity,
    RefreshMedia,
    Report { phase: String, detail: Option<String> },
    SwitchRoot,
    /// Stop here, for this reason.
    Fail(String),
}

#[verifier::ext_equal]
pub enum BootStepView {
    Stamp(Seq<char>),
    MountPseudoFilesystems,
    LoadModules,
    BringUpNetwork,
    ResolveSlabs,
    StartEngine,
    WaitForRoot,
    MountRoot,
    ApplyExports,
    WriteIdentity,
    RefreshMedia,
    Report { phase: Seq<char>, detail: Option<Seq<char>> },
    SwitchRoot,
    Fail(Seq<char>),
}

impl View for BootStep {
    type V = BootStepView;

    open spec fn view(&self) -> BootStepView {
        match *self {
            BootStep::Stamp(s) => BootStepView::Stamp(s@),
            BootStep::MountPseudoFilesystems => BootStepView::MountPseudoFilesystems,
            BootStep::LoadModules => BootStepView::LoadModules,
            BootStep::BringUpNetwork => BootStepView::BringUpNetwork,
            BootStep::ResolveSlabs => BootStepView::ResolveSlabs,
            BootStep::StartEngine => BootStepView::StartEngine,
            BootStep::WaitForRoot => BootStepView::WaitForRoot,
            BootStep::MountRoot => BootStepView::MountRoot,
            BootStep::ApplyExports => BootStepView::ApplyExports,
            BootStep::WriteIdentity => BootStepView::WriteIdentity,
            BootStep::RefreshMedia => BootStepView::RefreshMedia,
            BootStep::Report { phase, detail } => BootStepView::Report {
                phase: phase@,
                detail: text::opt_text(detail),
            },
            BootStep::SwitchRoot => BootStepView::SwitchRoot,
            BootStep::Fail(why) => BootStepView::Fail(why@),
        }
    }
}

pub open spec fn boot_steps(v: Seq<BootStep>) -> Seq<BootStepView> {
    v.map_values(|s: BootStep| s@)
}

/// Why a boot stops before anything is attached: its flow-over would destroy the
/// node's identity, or nothing says where root is.
pub open spec fn refusal(p: ParamsView) -> Option<Seq<char>> {
    match cmdline::objection(p) {
        Some(why) => Some(why),
        None => if cmdline::uri_of(p) is None && p.slabs.len() == 0 {
            Some(
                "no root source on the command line: missing "@ + text::join(
                    cmdline::missing_names(p),
                    ", "@,
                ) + " (and no rd.stormblock.slab for a local boot)"@,
            )
        } else {
            None
        },
    }
}

/// What comes first, whatever the command line says.
pub open spec fn preparation() -> Seq<BootStepView> {
    seq![
        BootStepView::Stamp("stormnetboot-init starting"@),
        BootStepView::MountPseudoFilesystems,
        BootStepView::LoadModules,
    ]
}

/// Root may be on the other side of a NIC, and then the NIC has to work first. A
/// local boot deliberately skips this: no network, no wait.
pub open spec fn networking(p: ParamsView) -> Seq<BootStepView> {
    if cmdline::uri_of(p) is Some {
        seq![BootStepView::BringUpNetwork]
    } else {
        Seq::empty()
    }
}

pub open spec fn attaching() -> Seq<BootStepView> {
    seq![
        BootStepView::Report { phase: "assets-fetched"@, detail: None },
        BootStepView::ResolveSlabs,
        BootStepView::StartEngine,
        BootStepView::WaitForRoot,
        BootStepView::Report { phase: "root-attached"@, detail: None },
        BootStepView::Stamp("root device present"@),
        BootStepView::MountRoot,
        BootStepView::ApplyExports,
        BootStepView::WriteIdentity,
        BootStepView::RefreshMedia,
        BootStepView::Report { phase: "running"@, detail: None },
    ]
}

/// Flow-over runs inside the engine; saying so now shows the intent at once.
pub open spec fn assimilating(p: ParamsView) -> Seq<BootStepView> {
    if p.local_disk is Some {
        seq![BootStepView::Report { phase: "assimilating"@, detail: Some("flow-over started"@) }]
    } else {
        Seq::empty()
    }
}

/// The boot, step by step.
pub open spec fn sequence(p: ParamsView) -> Seq<BootStepView> {
    match refusal(p) {
        Some(why) => preparation() + seq![BootStepView::Fail(why)],
        None => preparation() + networking(p) + attaching() + assimilating(p) + seq![
            BootStepView::SwitchRoot,
        ],
    }
}

/// What is missing, in words.
fn join_missing(missing: &Vec<&'static str>) -> (r: String)
    ensures
        r@ == text::join(cmdline::strs(missing@), ", "@),
{
    let mut list: Vec<String> = Vec::new();
    let mut i: usize = 0;
    while i < missing.len()
        invariant
            i <= missing@.len(),
            text::texts(list@) == cmdline::strs(missing@).take(i as int),
        decreases missing@.len() - i,
    {
        let name: &'static str = missing[i];
        let ghost was = text::texts(list@);
        list.push(name.to_owned());
        i = i + 1;
        assert(text::texts(list@) =~= was.push(name@));
        assert(cmdline::strs(missing@).take(i as int) =~= was.push(name@));
    }
    assert(cmdline::strs(missing@).take(i as int) == cmdline::strs(missing@));
    strings::join(&list, ", ")
}

fn check(params: &BootParams) -> (r: Option<String>)
    ensures
        text::opt_text(r) == refusal(params@),
{
    // Checked before anything is attached, and before the engine could start
    // migrating: a flow-over onto the data slab destroys node identity, and it does
    // so in the background while the node still looks healthy.
    if let Err(why) = params.check_local_disk() {
        return Some(why);
    }
    if params.is_network_boot() || params.slabs.len() > 0 {
        assert(params@.slabs.len() == params.slabs@.len());
        return None;
    }
    assert(params@.slabs.len() == params.slabs@.len());
    let missing = params.missing();
    let mut why = strings::concat(
        "no root source on the command line: missing ",
        join_missing(&missing).as_str(),
    );
    why.append(" (and no rd.stormblock.slab for a local boot)");
    Some(why)
}

fn report(phase: &str) -> (r: BootStep)
    ensures
        r@ == (BootStepView::Report { phase: phase@, detail: None }),
{
    BootStep::Report { phase: phase.to_owned(), detail: None }
}

/// The steps of this boot, in order. One that cannot go on ends in `Fail`.
pub fn run(params: &BootParams) -> (r: Vec<BootStep>)
    ensures
        boot_steps(r@) == sequence(params@),
{
    let ghost p = params@;
    let mut steps: Vec<BootStep> = Vec::new();
    steps.push(BootStep::Stamp("stormnetboot-init starting".to_owned()));
    steps.push(BootStep::MountPseudoFilesystems);
    steps.push(BootStep::LoadModules);
    assert(boot_steps(steps@) =~= preparation());
    if let Some(why) = check(params) {
        steps.push(BootStep::Fail(why));
        assert(boot_steps(steps@) =~= sequence(p));
        return steps;
    }
    if params.is_network_boot() {
        steps.push(BootStep::BringUpNetwork);
    }
    assert(boot_steps(steps@) =~= preparation() + networking(p));
    let ghost first = boot_steps(steps@);
    steps.push(report("assets-fetched"));
    steps.push(BootStep::ResolveSlabs);
    steps.push(BootStep::StartEngine);
    steps.push(BootStep::WaitForRoot);
    steps.push(report("root-attached"));
    steps.push(BootStep::Stamp("root device present".to_owned()));
    steps.push(BootStep::MountRoot);
    steps.push(BootStep::ApplyExports);
    steps.push(BootStep::WriteIdentity);
    steps.push(BootStep::RefreshMedia);
    steps.push(report("running"));
    assert(boot_steps(steps@) =~= first + attaching());
    let ghost second = boot_steps(steps@);
    if params.local_disk.is_some() {
        steps.push(
            BootStep::Report {
                phase: "assimilating".to_owned(),
                detail: Some("flow-over started".to_owned()),
            },
        );
    }
    assert(boot_steps(steps@) =~= second + assimilating(p));
    steps.push(BootStep::SwitchRoot);
    assert(boot_steps(steps@) =~= sequence(p));
    steps
}

// ---------------------------------------------------------------------------
// Laws of the sequence

/// A boot that would destroy the node's identity, or that has no root source, stops
/// before anything is attached and before the network is touched. A machine that
/// stops with a clear message is recoverable; one that attaches the wrong volume is
/// not.
pub proof fn law_a_refused_boot_attaches_nothing(p: ParamsView)
    requires
        refusal(p) is Some,
    ensures
        sequence(p).last() == BootStepView::Fail(refusal(p)->0),
        forall|i: int|
            0 <= i < sequence(p).len() ==> !(#[trigger] sequence(p)[i] is StartEngine)
                && !(sequence(p)[i] is BringUpNetwork) && !(sequence(p)[i] is SwitchRoot),
{
}

/// The network is up before the engine starts, when and only when root is on the
/// other side of it.
pub proof fn law_the_network_comes_before_the_engine(p: ParamsView)
    requires
        refusal(p) is None,
    ensures
        forall|i: int|
            0 <= i < sequence(p).len() ==> (#[trigger] sequence(p)[i] is BringUpNetwork <==> i == 3
                && cmdline::uri_of(p) is Some),
        forall|i: int|
            0 <= i < sequence(p).len() && #[trigger] sequence(p)[i] is StartEngine ==> i > 3,
{
    let s = sequence(p);
    let n = networking(p).len() as int;
    assert forall|i: int| 0 <= i < s.len() implies (#[trigger] s[i] is BringUpNetwork <==> i == 3
        && cmdline::uri_of(p) is Some) by {
        if i >= 3 + n && i < 3 + n + 11 {
            assert(s[i] == attaching()[i - 3 - n]);
        }
    }
    assert forall|i: int| 0 <= i < s.len() && #[trigger] s[i] is StartEngine implies i > 3 by {
        if i == 3 && n == 0 {
            assert(s[i] == attaching()[0]);
        }
    }
}

/// A boot that is not refused hands over, and only at its very end.
pub proof fn law_a_boot_ends_in_the_handover(p: ParamsView)
    requires
        refusal(p) is None,
    ensures
        sequence(p).last() is SwitchRoot,
        forall|i: int|
            0 <= i < sequence(p).len() - 1 ==> !(#[trigger] sequence(p)[i] is SwitchRoot)
                && !(sequence(p)[i] is Fail),
{
    let s = sequence(p);
    let n = networking(p).len() as int;
    assert forall|i: int| 0 <= i < s.len() - 1 implies !(#[trigger] s[i] is SwitchRoot) && !(s[i]
        is Fail) by {
        if i >= 3 + n && i < 3 + n + 11 {
            assert(s[i] == attaching()[i - 3 - n]);
        }
    }
}

/// Whether a step stands in a sequence, and stands there once.
pub open spec fn once(s: Seq<BootStepView>, step: BootStepView) -> bool {
    exists|i: int|
        0 <= i < s.len() && #[trigger] s[i] == step && forall|j: int|
            0 <= j < s.len() && #[trigger] s[j] == step ==> j == i
}

/// Whether wherever both stand, the one comes before the other.
pub open spec fn ahead(s: Seq<BootStepView>, first: BootStepView, second: BootStepView) -> bool {
    forall|i: int, j: int|
        0 <= i < s.len() && 0 <= j < s.len() && #[trigger] s[i] == first && #[trigger] s[j] == second
            ==> i < j
}

pub open spec fn reports(phase: Seq<char>) -> BootStepView {
    BootStepView::Report { phase, detail: None }
}

/// Where the steps of a boot that is not refused stand.
proof fn lemma_places(p: ParamsView)
    requires
        refusal(p) is None,
    ensures
        ({
            let s = sequence(p);
            let n: int = if cmdline::uri_of(p) is Some {
                1
            } else {
                0
            };
            let a: int = if p.local_disk is Some {
                1
            } else {
                0
            };
            &&& s.len() == 15 + n + a
            &&& s[0] is Stamp
            &&& s[1] is MountPseudoFilesystems
            &&& s[2] is LoadModules
            &&& n == 1 ==> s[3] is BringUpNetwork
            &&& s[3 + n] == reports("assets-fetched"@)
            &&& s[4 + n] is ResolveSlabs
            &&& s[5 + n] is StartEngine
            &&& s[6 + n] is WaitForRoot
            &&& s[7 + n] == reports("root-attached"@)
            &&& s[8 + n] is Stamp
            &&& s[9 + n] is MountRoot
            &&& s[10 + n] is ApplyExports
            &&& s[11 + n] is WriteIdentity
            &&& s[12 + n] is RefreshMedia
            &&& s[13 + n] == reports("running"@)
            &&& a == 1 ==> s[14 + n] == (BootStepView::Report {
                phase: "assimilating"@,
                detail: Some("flow-over started"@),
            })
            &&& s[14 + n + a] is SwitchRoot
        }),
{
    let s = sequence(p);
    let n = networking(p).len() as int;
    assert forall|k: int| 0 <= k < 11 implies s[3 + n + k] == #[trigger] attaching()[k] by {}
    let t = attaching();
    assert(s[3 + n] == t[0] && s[4 + n] == t[1] && s[5 + n] == t[2] && s[6 + n] == t[3] && s[7 + n]
        == t[4] && s[8 + n] == t[5] && s[9 + n] == t[6] && s[10 + n] == t[7] && s[11 + n] == t[8]
        && s[12 + n] == t[9] && s[13 + n] == t[10]);
}

proof fn lemma_phases_differ()
    ensures
        "assets-fetched"@ != "root-attached"@,
        "assets-fetched"@ != "running"@,
        "root-attached"@ != "running"@,
{
    reveal_strlit("assets-fetched");
    reveal_strlit("root-attached");
    reveal_strlit("running");
    assert("assets-fetched"@.len() == 14 && "root-attached"@.len() == 13 && "running"@.len() == 7);
}

/// Each step of a boot is taken, and taken once.
pub proof fn law_every_step_is_taken_once(p: ParamsView)
    requires
        refusal(p) is None,
    ensures
        ({
            let s = sequence(p);
            &&& once(s, BootStepView::MountPseudoFilesystems)
            &&& once(s, BootStepView::LoadModules)
            &&& cmdline::uri_of(p) is Some ==> once(s, BootStepView::BringUpNetwork)
            &&& once(s, BootStepView::ResolveSlabs)
            &&& once(s, BootStepView::StartEngine)
            &&& once(s, BootStepView::WaitForRoot)
            &&& once(s, BootStepView::MountRoot)
            &&& once(s, BootStepView::ApplyExports)
            &&& once(s, BootStepView::WriteIdentity)
            &&& once(s, BootStepView::RefreshMedia)
            &&& once(s, BootStepView::SwitchRoot)
            &&& once(s, reports("assets-fetched"@))
            &&& once(s, reports("root-attached"@))
            &&& once(s, reports("running"@))
        }),
{
    let s = sequence(p);
    let n: int = if cmdline::uri_of(p) is Some {
        1
    } else {
        0
    };
    lemma_places(p);
    lemma_phases_differ();
    let a: int = if p.local_disk is Some {
        1
    } else {
        0
    };
    lemma_once(s, 1);
    lemma_once(s, 2);
    if n == 1 {
        lemma_once(s, 3);
    }
    lemma_once(s, 3 + n);
    lemma_once(s, 4 + n);
    lemma_once(s, 5 + n);
    lemma_once(s, 6 + n);
    lemma_once(s, 7 + n);
    lemma_once(s, 9 + n);
    lemma_once(s, 10 + n);
    lemma_once(s, 11 + n);
    lemma_once(s, 12 + n);
    lemma_once(s, 13 + n);
    lemma_once(s, 14 + n + a);
}

/// A step that no other place holds stands once.
proof fn lemma_once(s: Seq<BootStepView>, i: int)
    requires
        0 <= i < s.len() <= 17,
        i != 0 ==> s[i] != s[0],
        i != 1 && 1 < s.len() ==> s[i] != s[1],
        i != 2 && 2 < s.len() ==> s[i] != s[2],
        i != 3 && 3 < s.len() ==> s[i] != s[3],
        i != 4 && 4 < s.len() ==> s[i] != s[4],
        i != 5 && 5 < s.len() ==> s[i] != s[5],
        i != 6 && 6 < s.len() ==> s[i] != s[6],
        i != 7 && 7 < s.len() ==> s[i] != s[7],
        i != 8 && 8 < s.len() ==> s[i] != s[8],
        i != 9 && 9 < s.len() ==> s[i] != s[9],
        i != 10 && 10 < s.len() ==> s[i] != s[10],
        i != 11 && 11 < s.len() ==> s[i] != s[11],
        i != 12 && 12 < s.len() ==> s[i] != s[12],
        i != 13 && 13 < s.len() ==> s[i] != s[13],
        i != 14 && 14 < s.len() ==> s[i] != s[14],
        i != 15 && 15 < s.len() ==> s[i] != s[15],
        i != 16 && 16 < s.len() ==> s[i] != s[16],
    ensures
        once(s, s[i]),
{
    assert forall|j: int| 0 <= j < s.len() && #[trigger] s[j] == s[i] implies j == i by {
        assert(j == 0 || j == 1 || j == 2 || j == 3 || j == 4 || j == 5 || j == 6 || j == 7 || j == 8
            || j == 9 || j == 10 || j == 11 || j == 12 || j == 13 || j == 14 || j == 15 || j == 16);
    }
}

/// A step that stands once at a place comes before one that stands once behind it.
proof fn lemma_ahead(s: Seq<BootStepView>, x: BootStepView, y: BootStepView, i: int, j: int)
    requires
        once(s, x),
        once(s, y),
        0 <= i < j < s.len(),
        s[i] == x,
        s[j] == y,
    ensures
        ahead(s, x, y),
{
}

/// The order of a boot: nothing is loaded before there is anything to load it from,
/// the network is up before slabs are resolved, the engine starts on the slabs that
/// were resolved, root is mounted only once its device has been waited for, what goes
/// into root goes there once it is mounted, and the handover is last. Each phase is
/// reported once it has been reached, and not before.
pub proof fn law_the_boot_goes_in_order(p: ParamsView)
    requires
        refusal(p) is None,
    ensures
        ({
            let s = sequence(p);
            &&& ahead(s, BootStepView::MountPseudoFilesystems, BootStepView::LoadModules)
            &&& ahead(s, BootStepView::LoadModules, BootStepView::ResolveSlabs)
            &&& ahead(s, BootStepView::LoadModules, BootStepView::BringUpNetwork)
            &&& ahead(s, BootStepView::BringUpNetwork, BootStepView::ResolveSlabs)
            &&& ahead(s, BootStepView::ResolveSlabs, BootStepView::StartEngine)
            &&& ahead(s, BootStepView::StartEngine, BootStepView::WaitForRoot)
            &&& ahead(s, BootStepView::WaitForRoot, BootStepView::MountRoot)
            &&& ahead(s, BootStepView::MountRoot, BootStepView::ApplyExports)
            &&& ahead(s, BootStepView::ApplyExports, BootStepView::WriteIdentity)
            &&& ahead(s, BootStepView::WriteIdentity, BootStepView::RefreshMedia)
            &&& ahead(s, BootStepView::RefreshMedia, BootStepView::SwitchRoot)
            &&& ahead(s, BootStepView::BringUpNetwork, reports("assets-fetched"@))
            &&& ahead(s, reports("assets-fetched"@), BootStepView::StartEngine)
            &&& ahead(s, BootStepView::WaitForRoot, reports("root-attached"@))
            &&& ahead(s, reports("root-attached"@), BootStepView::MountRoot)
            &&& ahead(s, BootStepView::MountRoot, reports("running"@))
            &&& ahead(s, BootStepView::RefreshMedia, reports("running"@))
            &&& ahead(s, reports("running"@), BootStepView::SwitchRoot)
        }),
{
    let s = sequence(p);
    let n: int = if cmdline::uri_of(p) is Some {
        1
    } else {
        0
    };
    let a: int = if p.local_disk is Some {
        1
    } else {
        0
    };
    lemma_places(p);
    law_every_step_is_taken_once(p);
    law_the_network_comes_before_the_engine(p);
    lemma_ahead(s, s[1], s[2], 1, 2);
    lemma_ahead(s, s[2], s[4 + n], 2, 4 + n);
    if n == 1 {
        lemma_ahead(s, s[2], s[3], 2, 3);
        lemma_ahead(s, s[3], s[5], 3, 5);
        lemma_ahead(s, s[3], s[4], 3, 4);
    }
    lemma_ahead(s, s[4 + n], s[5 + n], 4 + n, 5 + n);
    lemma_ahead(s, s[5 + n], s[6 + n], 5 + n, 6 + n);
    lemma_ahead(s, s[6 + n], s[9 + n], 6 + n, 9 + n);
    lemma_ahead(s, s[9 + n], s[10 + n], 9 + n, 10 + n);
    lemma_ahead(s, s[10 + n], s[11 + n], 10 + n, 11 + n);
    lemma_ahead(s, s[11 + n], s[12 + n], 11 + n, 12 + n);
    lemma_ahead(s, s[12 + n], s[14 + n + a], 12 + n, 14 + n + a);
    lemma_ahead(s, s[3 + n], s[5 + n], 3 + n, 5 + n);
    lemma_ahead(s, s[6 + n], s[7 + n], 6 + n, 7 + n);
    lemma_ahead(s, s[7 + n], s[9 + n], 7 + n, 9 + n);
    lemma_ahead(s, s[9 + n], s[13 + n], 9 + n, 13 + n);
    lemma_ahead(s, s[12 + n], s[13 + n], 12 + n, 13 + n);
    lemma_ahead(s, s[13 + n], s[14 + n + a], 13 + n, 14 + n + a);
}

/// Assimilation is announced exactly when there is a disk to flow over onto, once,
/// between saying that the node runs and handing over.
pub proof fn law_assimilation_is_announced(p: ParamsView)
    requires
        refusal(p) is None,
    ensures
        ({
            let s = sequence(p);
            &&& p.local_disk is Some <==> exists|i: int|
                0 <= i < s.len() && (#[trigger] s[i] matches BootStepView::Report { phase, detail }
                    && detail is Some)
            &&& forall|i: int|
                0 <= i < s.len() && (#[trigger] s[i] matches BootStepView::Report { phase, detail }
                    && detail is Some) ==> i == s.len() - 2 && s[i]->phase == "assimilating"@
        }),
{
    let s = sequence(p);
    lemma_places(p);
    if p.local_disk is Some {
        assert(s[s.len() - 2] is Report && s[s.len() - 2]->detail is Some);
    }
    assert forall|i: int|
        0 <= i < s.len() && (#[trigger] s[i] matches BootStepView::Report { phase, detail } && detail
            is Some) implies p.local_disk is Some && i == s.len() - 2 && s[i]->phase
        == "assimilating"@ by {
        assert(i == 0 || i == 1 || i == 2 || i == 3 || i == 4 || i == 5 || i == 6 || i == 7 || i == 8
            || i == 9 || i == 10 || i == 11 || i == 12 || i == 13 || i == 14 || i == 15 || i == 16);
    }
}

/// A boot goes on exactly when it destroys no data slab and has somewhere to get root
/// from: a whole network root, or a slab.
pub proof fn law_a_boot_needs_a_root_and_no_objection(p: ParamsView)
    ensures
        refusal(p) is None <==> {
            &&& p.portal is Some && p.port is Some && p.nqn is Some || p.slabs.len() > 0
            &&& p.local_disk is None || p.data_slab is None || !cmdline::share_a_device(
                p.local_disk->0,
                p.data_slab->0,
            )
        },
{
}

} // verus!
