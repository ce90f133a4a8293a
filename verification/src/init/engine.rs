//! What the engine is handed: which slabs to attach, and what to do with them.

use crate::init::cmdline;
use crate::init::cmdline::{BootParams, ParamsView};
use crate::strings;
use crate::text;
use vstd::prelude::*;
use vstd::string::StringExecFns;

verus! {

// ---------------------------------------------------------------------------
// Slabs

/// Whether a character can stand in a UUID.
pub open spec fn in_uuid(c: char) -> bool {
    text::hex_value(c) is Some || c == '-'
}

pub open spec fn is_uuid(s: Seq<char>) -> bool {
    s.len() == 36 && forall|i: int| 0 <= i < s.len() ==> in_uuid(#[trigger] s[i])
}

/// Whether a line of `stormblock slab list` names a slab: `<dev>: slab <uuid> (...)`.
pub open spec fn names_slab(line: Seq<char>) -> bool {
    match text::after(line, ": slab "@) {
        Some(rest) => is_uuid(rest.take(text::index_of(rest, ' ') as int)),
        None => false,
    }
}

pub open spec fn some_name_slab(lines: Seq<Seq<char>>) -> bool {
    exists|i: int| 0 <= i < lines.len() && names_slab(#[trigger] lines[i])
}

fn uuid(s: &str) -> (r: bool)
    ensures
        r == is_uuid(s@),
{
    let chars = strings::chars_of(s);
    if chars.len() != 36 {
        return false;
    }
    let mut i: usize = 0;
    while i < chars.len()
        invariant
            i <= chars@.len() == 36,
            chars@ == s@,
            forall|j: int| 0 <= j < i ==> in_uuid(#[trigger] chars@[j]),
        decreases chars@.len() - i,
    {
        if strings::hex_value(chars[i]).is_none() && chars[i] != '-' {
            assert(!in_uuid(chars@[i as int]));
            return false;
        }
        i = i + 1;
    }
    true
}

/// A cheap structural check; the engine is the authority, this only decides whether
/// to trust or to ask.
pub fn is_slab_line(line: &str) -> (r: bool)
    ensures
        r == names_slab(line@),
{
    let Some(rest) = strings::after(line, ": slab ") else {
        return false;
    };
    let id = match strings::split_once(rest.as_str(), ' ') {
        Some((id, _)) => id,
        None => {
            proof {
                lemma_no_such_char(rest@, ' ');
                assert(rest@.take(rest@.len() as int) == rest@);
            }
            rest
        },
    };
    uuid(id.as_str())
}

proof fn lemma_no_such_char(s: Seq<char>, c: char)
    ensures
        text::index_of(s, c) <= s.len(),
    decreases s.len(),
{
    if s.len() > 0 && s[0] != c {
        lemma_no_such_char(s.skip(1), c);
    }
}

/// Whether the device that `stormblock slab list` was asked about is a slab, given
/// what it printed if it succeeded.
///
/// Positive evidence only: the absence of a known error is not proof that a device is
/// a slab.
pub fn is_slab(printed: Option<&str>) -> (r: bool)
    ensures
        r == match printed {
            Some(s) => some_name_slab(text::lines(s@)),
            None => false,
        },
{
    let Some(s) = printed else {
        return false;
    };
    let lines = strings::lines(s);
    let ghost all = text::texts(lines@);
    let mut i: usize = 0;
    while i < lines.len()
        invariant
            i <= lines@.len(),
            all == text::texts(lines@),
            all == text::lines(s@),
            printed == Some(s),
            forall|j: int| 0 <= j < i ==> !names_slab(#[trigger] all[j]),
        decreases lines@.len() - i,
    {
        assert(all[i as int] == lines@[i as int]@);
        if is_slab_line(lines[i].as_str()) {
            return true;
        }
        i = i + 1;
    }
    false
}

// ---------------------------------------------------------------------------
// Whom the engine connects as

/// The variable by which the engine is told the host NQN to present.
pub const HOST_NQN_VARIABLE: &'static str = "STORMBLOCK_HOST_NQN";

pub open spec fn settings(v: Seq<(String, String)>) -> Seq<(Seq<char>, Seq<char>)> {
    Seq::new(v.len(), |i: int| (v[i].0@, v[i].1@))
}

/// What the engine's environment gets besides what it inherits.
pub open spec fn environment(hostnqn: Option<Seq<char>>) -> Seq<(Seq<char>, Seq<char>)> {
    match hostnqn {
        Some(nqn) => seq![(HOST_NQN_VARIABLE@, nqn)],
        None => Seq::empty(),
    }
}

/// One identity for every connect a boot makes, as the firmware composed it: the
/// target binds the claimed clone to this NQN, so the claim and the attach are
/// given the same one, or the connect is refused.
pub fn host_environment(hostnqn: Option<&str>) -> (r: Vec<(String, String)>)
    ensures
        settings(r@) == environment(
            match hostnqn {
                Some(nqn) => Some(nqn@),
                None => None,
            },
        ),
{
    let mut r: Vec<(String, String)> = Vec::new();
    if let Some(nqn) = hostnqn {
        r.push((HOST_NQN_VARIABLE.to_owned(), nqn.to_owned()));
        assert(settings(r@) =~= environment(Some(nqn@)));
    } else {
        assert(settings(r@) =~= environment(None));
    }
    r
}

// ---------------------------------------------------------------------------
// The root slab

/// The appliance to ask for an image, and who is asking.
#[derive(Debug, Clone, PartialEq, Eq)]
pub struct Appliance {
    pub boothost: String,
    /// The machine's service tag.
    pub tag: String,
    pub namespace: String,
}

/// Whether a slab named on the command line can be trusted: it is a URI, or it was
/// probed and proved to be a slab.
pub open spec fn is_trusted(slab: Seq<char>, probed: bool) -> bool {
    text::find(slab, "://"@) is Some || probed
}

/// The slabs that can be trusted.
pub open spec fn trusted(slabs: Seq<Seq<char>>, probed: Seq<bool>) -> Seq<Seq<char>>
    decreases slabs.len(),
{
    if slabs.len() == 0 {
        Seq::empty()
    } else {
        trusted(slabs.drop_last(), probed) + if is_trusted(
            slabs.last(),
            probed[slabs.len() - 1],
        ) {
            seq![slabs.last()]
        } else {
            Seq::empty()
        }
    }
}

/// What is said of the slabs that cannot be trusted.
pub open spec fn distrust(
    slabs: Seq<Seq<char>>,
    probed: Seq<bool>,
    boothost: Seq<char>,
) -> Seq<Seq<char>>
    decreases slabs.len(),
{
    if slabs.len() == 0 {
        Seq::empty()
    } else {
        distrust(slabs.drop_last(), probed, boothost) + if is_trusted(
            slabs.last(),
            probed[slabs.len() - 1],
        ) {
            Seq::empty()
        } else {
            seq![slabs.last() + " is not a slab - asking "@ + boothost + " instead"@]
        }
    }
}

/// Where root is, as far as it is known without asking.
#[derive(Debug, PartialEq, Eq)]
pub struct Resolution {
    /// What to say on the console.
    pub lines: Vec<String>,
    /// The slabs to attach; `None` when the appliance has to be asked first.
    pub slabs: Option<Vec<String>>,
}

pub open spec fn opt_texts(o: Option<Vec<String>>) -> Option<Seq<Seq<char>>> {
    match o {
        Some(v) => Some(text::texts(v@)),
        None => None,
    }
}

/// The slabs to attach, unless the appliance has to be asked. Without an appliance
/// they are those named, as they are named. With one, a named slab is only a hint:
/// trusted when it proves to be a slab, dropped otherwise.
pub open spec fn resolved(
    p: ParamsView,
    appliance: Option<Appliance>,
    probed: Seq<bool>,
) -> Option<Seq<Seq<char>>> {
    match appliance {
        None => Some(cmdline::slabs_of(p)),
        Some(_) => if trusted(p.slabs, probed).len() > 0 {
            Some(cmdline::with_data(trusted(p.slabs, probed), p.data_slab))
        } else {
            None
        },
    }
}

/// What is said while resolving.
pub open spec fn resolution_lines(
    p: ParamsView,
    appliance: Option<Appliance>,
    probed: Seq<bool>,
) -> Seq<Seq<char>> {
    match appliance {
        None => Seq::empty(),
        Some(a) => distrust(p.slabs, probed, a.boothost@) + if trusted(p.slabs, probed).len() > 0 {
            Seq::empty()
        } else {
            seq!["asking "@ + a.boothost@ + " which image "@ + a.tag@ + " boots"@]
        },
    }
}

/// The slabs to hand to the engine. `probed` says of each slab named on the command
/// line whether it proved to be one.
pub fn resolve_slabs(
    params: &BootParams,
    appliance: Option<&Appliance>,
    probed: &Vec<bool>,
) -> (r: Resolution)
    requires
        probed@.len() == params.slabs@.len(),
    ensures
        opt_texts(r.slabs) == resolved(
            params@,
            match appliance {
                Some(a) => Some(*a),
                None => None,
            },
            probed@,
        ),
        text::texts(r.lines@) == resolution_lines(
            params@,
            match appliance {
                Some(a) => Some(*a),
                None => None,
            },
            probed@,
        ),
{
    let mut lines: Vec<String> = Vec::new();
    assert(text::texts(lines@) =~= Seq::<Seq<char>>::empty());
    let Some(a) = appliance else {
        return Resolution { lines, slabs: Some(params.all_slabs()) };
    };
    let ghost named = params@.slabs;
    let mut slabs: Vec<String> = Vec::new();
    let mut i: usize = 0;
    assert(named.take(0) =~= Seq::<Seq<char>>::empty());
    assert(text::texts(slabs@) =~= trusted(named.take(0), probed@));
    assert(text::texts(lines@) =~= distrust(named.take(0), probed@, a.boothost@));
    while i < params.slabs.len()
        invariant
            i <= params.slabs@.len() == probed@.len(),
            named == params@.slabs,
            text::texts(slabs@) == trusted(named.take(i as int), probed@),
            text::texts(lines@) == distrust(named.take(i as int), probed@, a.boothost@),
        decreases params.slabs@.len() - i,
    {
        let ghost next = named.take(i + 1);
        let ghost kept = text::texts(slabs@);
        let ghost said = text::texts(lines@);
        let slab = params.slabs[i].as_str();
        assert(next.drop_last() == named.take(i as int));
        assert(next.last() == slab@);
        if strings::contains(slab, "://") || probed[i] {
            slabs.push(params.slabs[i].clone());
            assert(text::texts(slabs@) =~= kept + seq![slab@]);
        } else {
            let mut line = strings::concat(slab, " is not a slab - asking ");
            line.append(a.boothost.as_str());
            line.append(" instead");
            lines.push(line);
            assert(text::texts(lines@) =~= said + seq![line@]);
        }
        assert(text::texts(slabs@) =~= trusted(next, probed@));
        assert(text::texts(lines@) =~= distrust(next, probed@, a.boothost@));
        i = i + 1;
    }
    assert(named.take(i as int) == named);
    assert(text::texts(slabs@).len() == slabs@.len());
    let ghost said = text::texts(lines@);
    if slabs.len() > 0 {
        cmdline::add_data(&mut slabs, &params.data_slab);
        assert(said + Seq::<Seq<char>>::empty() =~= said);
        return Resolution { lines, slabs: Some(slabs) };
    }
    let mut line = strings::concat("asking ", a.boothost.as_str());
    line.append(" which image ");
    line.append(a.tag.as_str());
    line.append(" boots");
    lines.push(line);
    assert(text::texts(lines@) =~= said + seq![line@]);
    Resolution { lines, slabs: None }
}

/// The slabs to attach once the appliance has named the root: that one first.
pub fn claimed_slabs(params: &BootParams, uri: String) -> (r: Vec<String>)
    ensures
        text::texts(r@) == cmdline::with_data(seq![uri@], params@.data_slab),
{
    let mut slabs: Vec<String> = Vec::new();
    slabs.push(uri);
    assert(text::texts(slabs@) =~= seq![uri@]);
    cmdline::add_data(&mut slabs, &params.data_slab);
    slabs
}

// ---------------------------------------------------------------------------
// Claiming

/// How the engine is asked to claim this machine's image.
pub open spec fn claim_arguments(a: Appliance) -> Seq<Seq<char>> {
    seq!["boot-claim"@, "--boothost"@, a.boothost@, "--tag"@, a.tag@] + if a.namespace@
        == "boothost"@ {
        Seq::empty()
    } else {
        seq!["--namespace"@, a.namespace@]
    }
}

pub fn boot_claim_arguments(a: &Appliance) -> (r: Vec<String>)
    ensures
        text::texts(r@) == claim_arguments(*a),
{
    let mut args: Vec<String> = Vec::new();
    args.push("boot-claim".to_owned());
    args.push("--boothost".to_owned());
    args.push(a.boothost.clone());
    args.push("--tag".to_owned());
    args.push(a.tag.clone());
    if !strings::eq(a.namespace.as_str(), "boothost") {
        args.push("--namespace".to_owned());
        args.push(a.namespace.clone());
    }
    assert(text::texts(args@) =~= claim_arguments(*a));
    args
}

/// What a claim gave: the URI to attach, which is all that a claim prints.
pub open spec fn claim_outcome(a: Appliance, succeeded: bool, printed: Seq<char>) -> Result<
    Seq<char>,
    Seq<char>,
> {
    if !succeeded {
        Err(
            "no image is assigned to "@ + a.tag@ + " on "@ + a.boothost@ + " (boot-claim failed)"@,
        )
    } else if text::trim(printed).len() == 0 {
        Err("boot-claim for "@ + a.tag@ + " returned no attach URI"@)
    } else {
        Ok(text::trim(printed))
    }
}

/// Claims this machine's image from the appliance, keyed on the service tag, given
/// how the claim ended and what it printed.
pub fn boot_claim(a: &Appliance, succeeded: bool, printed: &str) -> (r: Result<String, String>)
    ensures
        match r {
            Ok(uri) => claim_outcome(*a, succeeded, printed@) == Ok::<Seq<char>, Seq<char>>(uri@),
            Err(why) => claim_outcome(*a, succeeded, printed@) == Err::<Seq<char>, Seq<char>>(why@),
        },
{
    if !succeeded {
        let mut why = strings::concat("no image is assigned to ", a.tag.as_str());
        why.append(" on ");
        why.append(a.boothost.as_str());
        why.append(" (boot-claim failed)");
        return Err(why);
    }
    let uri = strings::trim(printed);
    if strings::is_empty(uri.as_str()) {
        let mut why = strings::concat("boot-claim for ", a.tag.as_str());
        why.append(" returned no attach URI");
        return Err(why);
    }
    Ok(uri)
}

// ---------------------------------------------------------------------------
// Starting

/// What the engine is told besides the slabs.
#[derive(Debug, Clone, PartialEq, Eq)]
pub struct EngineOptions {
    pub meta: Option<String>,
    pub image_store: Option<String>,
}

/// Where each writable, mount and image-store volume lands. The flags for the engine
/// and the mounts applied afterwards come from this one plan, so that they cannot
/// drift.
#[derive(Debug, Clone, PartialEq, Eq)]
pub struct ExportPlan {
    /// Volumes to export, in the order that numbers their devices.
    pub writable_args: Vec<String>,
    /// Devices to mount now, with where to.
    pub mount_map: Vec<(String, String)>,
    /// Writable devices to register, with where to.
    pub fstab_writable: Vec<(String, String)>,
    /// The image store's device, with where it goes.
    pub image_store: Option<(String, String)>,
}

/// Each of `values` behind `flag`.
pub open spec fn each(flag: Seq<char>, values: Seq<Seq<char>>) -> Seq<Seq<char>>
    decreases values.len(),
{
    if values.len() == 0 {
        Seq::empty()
    } else {
        each(flag, values.drop_last()) + seq![flag, values.last()]
    }
}

/// A value behind `flag`, where there is one.
pub open spec fn opt_flag(flag: Seq<char>, value: Option<Seq<char>>) -> Seq<Seq<char>> {
    match value {
        Some(v) => seq![flag, v],
        None => Seq::empty(),
    }
}

/// The engine's arguments. A remote namespace and a local partition are the same
/// thing to it: both are a slab.
pub open spec fn engine_arguments(
    p: ParamsView,
    options: EngineOptions,
    slabs: Seq<Seq<char>>,
    writable: Seq<Seq<char>>,
) -> Seq<Seq<char>> {
    seq!["boot-local"@] + each("--slab"@, slabs) + opt_flag("--meta"@, text::opt_text(options.meta))
        + opt_flag("--image-store"@, text::opt_text(options.image_store)) + opt_flag(
        "--volume"@,
        p.volume,
    ) + opt_flag("--local-disk"@, p.local_disk) + each("--writable"@, writable)
}

/// What is said as the engine starts.
pub open spec fn engine_lines(p: ParamsView, slabs: Seq<Seq<char>>) -> Seq<Seq<char>> {
    seq!["starting engine on "@ + text::join(slabs, ", "@)] + match p.data_slab {
        Some(data) => seq![
            "data slab "@ + data + " carries node identity; never formatted"@,
        ],
        None => Seq::empty(),
    }
}

fn push_each(args: &mut Vec<String>, flag: &str, values: &Vec<String>)
    ensures
        text::texts(final(args)@) == text::texts(old(args)@) + each(flag@, text::texts(values@)),
{
    let ghost was = text::texts(args@);
    let ghost all = text::texts(values@);
    let mut i: usize = 0;
    assert(all.take(0) =~= Seq::<Seq<char>>::empty());
    assert(was + each(flag@, all.take(0)) =~= was);
    while i < values.len()
        invariant
            i <= values@.len(),
            all == text::texts(values@),
            text::texts(args@) == was + each(flag@, all.take(i as int)),
        decreases values@.len() - i,
    {
        let ghost next = all.take(i + 1);
        let ghost now = text::texts(args@);
        assert(next.drop_last() == all.take(i as int));
        assert(next.last() == values@[i as int]@);
        args.push(flag.to_owned());
        args.push(values[i].clone());
        assert(text::texts(args@) =~= now + seq![flag@, next.last()]);
        assert(text::texts(args@) =~= was + each(flag@, next));
        i = i + 1;
    }
    assert(all.take(i as int) == all);
}

fn push_flag(args: &mut Vec<String>, flag: &str, value: &Option<String>)
    ensures
        text::texts(final(args)@) == text::texts(old(args)@) + opt_flag(
            flag@,
            text::opt_text(*value),
        ),
{
    let ghost was = text::texts(args@);
    match value {
        Some(v) => {
            args.push(flag.to_owned());
            args.push(v.clone());
        },
        None => {},
    }
    assert(text::texts(args@) =~= was + opt_flag(flag@, text::opt_text(*value)));
}

/// How to start the engine: its arguments, and what to say. It outlives the handover,
/// for it is what serves root.
pub fn start_engine(
    params: &BootParams,
    options: &EngineOptions,
    slabs: &Vec<String>,
    plan: &ExportPlan,
) -> (r: Result<(Vec<String>, Vec<String>), String>)
    ensures
        match r {
            Ok((args, lines)) => {
                &&& slabs@.len() > 0
                &&& text::texts(args@) == engine_arguments(
                    params@,
                    *options,
                    text::texts(slabs@),
                    text::texts(plan.writable_args@),
                )
                &&& text::texts(lines@) == engine_lines(params@, text::texts(slabs@))
            },
            Err(why) => slabs@.len() == 0 && why@ == "no slab to boot from"@,
        },
{
    if slabs.len() == 0 {
        return Err("no slab to boot from".to_owned());
    }
    let mut args: Vec<String> = Vec::new();
    args.push("boot-local".to_owned());
    assert(text::texts(args@) =~= seq!["boot-local"@]);
    push_each(&mut args, "--slab", slabs);
    push_flag(&mut args, "--meta", &options.meta);
    push_flag(&mut args, "--image-store", &options.image_store);
    push_flag(&mut args, "--volume", &params.volume);
    push_flag(&mut args, "--local-disk", &params.local_disk);
    push_each(&mut args, "--writable", &plan.writable_args);
    let mut lines: Vec<String> = Vec::new();
    lines.push(strings::concat("starting engine on ", strings::join(slabs, ", ").as_str()));
    if let Some(data) = &params.data_slab {
        let mut line = strings::concat("data slab ", data.as_str());
        line.append(" carries node identity; never formatted");
        lines.push(line);
    }
    assert(text::texts(lines@) =~= engine_lines(params@, text::texts(slabs@)));
    Ok((args, lines))
}

// ---------------------------------------------------------------------------
// Waiting for root

/// What to do while waiting for a device.
#[derive(Debug, PartialEq, Eq)]
pub enum Wait {
    Ready,
    /// Look again in a moment, having said this first.
    Again(Option<String>),
    /// It has taken too long.
    Expired,
}

/// One look at whether a device is there, `elapsed` into waiting for it at most
/// `timeout`, both in milliseconds. That it is still missing is said once, after five
/// seconds.
pub fn wait_for_device(
    path: &str,
    present: bool,
    elapsed: u64,
    timeout: u64,
    announced: bool,
) -> (r: Wait)
    ensures
        elapsed >= timeout <==> r is Expired,
        elapsed < timeout && present <==> r is Ready,
        elapsed < timeout && !present ==> (r matches Wait::Again(said) && text::opt_text(said)
            == if !announced && elapsed > 5000 {
            Some("still waiting for "@ + path@)
        } else {
            None
        }),
{
    if elapsed >= timeout {
        return Wait::Expired;
    }
    if present {
        return Wait::Ready;
    }
    if !announced && elapsed > 5000 {
        Wait::Again(Some(strings::concat("still waiting for ", path)))
    } else {
        Wait::Again(None)
    }
}

/// The names among `names` that start as the engine's devices do.
pub open spec fn engine_devices(names: Seq<Seq<char>>) -> Seq<Seq<char>>
    decreases names.len(),
{
    if names.len() == 0 {
        Seq::empty()
    } else {
        engine_devices(names.drop_last()) + if text::starts_with(names.last(), "ublk"@) {
            seq![strings::debug_text(names.last())]
        } else {
            Seq::empty()
        }
    }
}

/// Why waiting for a device ended, naming what was there: a bare timeout sends people
/// to the wrong layer. `names` are the names under `/dev`.
pub fn device_missing(path: &str, seconds: u64, names: &Vec<String>) -> (r: String)
    ensures
        r@ == path@ + " did not appear within "@ + text::dec(seconds as nat)
            + "s; ublk devices present: ["@ + text::join(
            engine_devices(text::texts(names@)),
            ", "@,
        ) + "]"@,
{
    let ghost all = text::texts(names@);
    let mut present: Vec<String> = Vec::new();
    let mut i: usize = 0;
    assert(all.take(0) =~= Seq::<Seq<char>>::empty());
    assert(text::texts(present@) =~= engine_devices(all.take(0)));
    while i < names.len()
        invariant
            i <= names@.len(),
            all == text::texts(names@),
            text::texts(present@) == engine_devices(all.take(i as int)),
        decreases names@.len() - i,
    {
        let ghost next = all.take(i + 1);
        let ghost was = text::texts(present@);
        assert(next.drop_last() == all.take(i as int));
        assert(next.last() == names@[i as int]@);
        if strings::starts_with(names[i].as_str(), "ublk") {
            let shown = strings::debug(names[i].as_str());
            present.push(shown);
            assert(text::texts(present@) =~= was + seq![shown@]);
        }
        assert(text::texts(present@) =~= engine_devices(next));
        i = i + 1;
    }
    assert(all.take(i as int) == all);
    let mut said = strings::concat(path, " did not appear within ");
    said.append(strings::dec(seconds).as_str());
    said.append("s; ublk devices present: [");
    said.append(strings::join(&present, ", ").as_str());
    said.append("]");
    said
}

// ---------------------------------------------------------------------------
// Laws

/// A device that did not prove to be a slab never reaches the engine: with an
/// appliance to ask, whatever is attached was trusted or is the data slab.
pub proof fn law_stray_devices_are_not_attached(
    p: ParamsView,
    appliance: Appliance,
    probed: Seq<bool>,
    slab: Seq<char>,
)
    requires
        probed.len() == p.slabs.len(),
        resolved(p, Some(appliance), probed) is Some,
        resolved(p, Some(appliance), probed)->0.contains(slab),
    ensures
        Some(slab) == p.data_slab || exists|i: int|
            0 <= i < p.slabs.len() && #[trigger] p.slabs[i] == slab && is_trusted(slab, probed[i]),
{
    let kept = trusted(p.slabs, probed);
    if Some(slab) != p.data_slab {
        let all = cmdline::with_data(kept, p.data_slab);
        let k = choose|k: int| 0 <= k < all.len() && all[k] == slab;
        assert(kept[k] == slab);
        lemma_trusted(p.slabs, probed, slab);
    }
}

proof fn lemma_trusted(slabs: Seq<Seq<char>>, probed: Seq<bool>, slab: Seq<char>)
    requires
        slabs.len() <= probed.len(),
        trusted(slabs, probed).contains(slab),
    ensures
        exists|i: int|
            0 <= i < slabs.len() && #[trigger] slabs[i] == slab && is_trusted(slab, probed[i]),
    decreases slabs.len(),
{
    let head = trusted(slabs.drop_last(), probed);
    let k = choose|k: int|
        0 <= k < trusted(slabs, probed).len() && trusted(slabs, probed)[k] == slab;
    if k < head.len() {
        assert(head[k] == slab);
        assert(head.contains(slab));
        lemma_trusted(slabs.drop_last(), probed, slab);
        let i = choose|i: int|
            0 <= i < slabs.drop_last().len() && #[trigger] slabs.drop_last()[i] == slab
                && is_trusted(slab, probed[i]);
        assert(slabs[i] == slab);
    } else {
        assert(slabs[slabs.len() - 1] == slab);
    }
}

/// The appliance is asked exactly when none of the slabs named can be trusted.
pub proof fn law_the_appliance_is_asked_when_nothing_is_trusted(
    p: ParamsView,
    appliance: Appliance,
    probed: Seq<bool>,
)
    requires
        probed.len() == p.slabs.len(),
    ensures
        resolved(p, Some(appliance), probed) is None <==> forall|i: int|
            0 <= i < p.slabs.len() ==> !is_trusted(#[trigger] p.slabs[i], probed[i]),
{
    let kept = trusted(p.slabs, probed);
    if kept.len() > 0 {
        assert(kept.contains(kept[0]));
        lemma_trusted(p.slabs, probed, kept[0]);
    } else {
        lemma_none_trusted(p.slabs, probed);
    }
}

proof fn lemma_none_trusted(slabs: Seq<Seq<char>>, probed: Seq<bool>)
    requires
        slabs.len() <= probed.len(),
        trusted(slabs, probed).len() == 0,
    ensures
        forall|i: int| 0 <= i < slabs.len() ==> !is_trusted(#[trigger] slabs[i], probed[i]),
    decreases slabs.len(),
{
    if slabs.len() > 0 {
        lemma_none_trusted(slabs.drop_last(), probed);
        assert forall|i: int| 0 <= i < slabs.len() implies !is_trusted(
            #[trigger] slabs[i],
            probed[i],
        ) by {
            if i < slabs.len() - 1 {
                assert(slabs.drop_last()[i] == slabs[i]);
            }
        }
    }
}

/// The value behind each flag is the one that was given: every slab stands behind a
/// `--slab` of its own, in its place.
pub proof fn law_every_value_stands_behind_its_flag(
    flag: Seq<char>,
    values: Seq<Seq<char>>,
    i: int,
)
    requires
        0 <= i < values.len(),
    ensures
        each(flag, values).len() == 2 * values.len(),
        each(flag, values)[2 * i] == flag,
        each(flag, values)[2 * i + 1] == values[i],
    decreases values.len(),
{
    let rest = values.drop_last();
    if rest.len() > 0 {
        law_every_value_stands_behind_its_flag(flag, rest, if i < rest.len() {
            i
        } else {
            0
        });
        if i < rest.len() {
            assert(each(flag, values)[2 * i] == each(flag, rest)[2 * i]);
            assert(each(flag, values)[2 * i + 1] == each(flag, rest)[2 * i + 1]);
        }
    } else {
        assert(each(flag, rest).len() == 0);
    }
}

/// The engine is told to boot from every slab, in order, and is given the volume and the
/// disk to flow over onto exactly where the command line names them.
pub proof fn law_the_engine_is_given_what_the_command_line_names(
    p: ParamsView,
    slabs: Seq<Seq<char>>,
    i: int,
)
    requires
        0 <= i < slabs.len(),
    ensures
        ({
            let none = EngineOptions { meta: None, image_store: None };
            let args = engine_arguments(p, none, slabs, Seq::empty());
            let n = 1 + 2 * slabs.len() as int;
            let m = if p.volume is Some {
                n + 2
            } else {
                n
            };
            &&& args[0] == "boot-local"@
            &&& args[1 + 2 * i] == "--slab"@
            &&& args[2 + 2 * i] == slabs[i]
            &&& p.volume is Some ==> args[n] == "--volume"@ && args[n + 1] == p.volume->0
            &&& p.local_disk is Some ==> args[m] == "--local-disk"@ && args[m + 1]
                == p.local_disk->0
            &&& args.len() == m + if p.local_disk is Some {
                2int
            } else {
                0
            }
        }),
{
    let none = EngineOptions { meta: None, image_store: None };
    let args = engine_arguments(p, none, slabs, Seq::empty());
    let given = each("--slab"@, slabs);
    law_every_value_stands_behind_its_flag("--slab"@, slabs, i);
    assert(each("--writable"@, Seq::<Seq<char>>::empty()).len() == 0);
    assert(args[1 + 2 * i] == given[2 * i]);
    assert(args[2 + 2 * i] == given[2 * i + 1]);
}

/// A claim names the appliance and the tag, and the namespace unless it is the usual one.
pub proof fn law_a_claim_names_its_appliance(a: Appliance)
    ensures
        ({
            let args = claim_arguments(a);
            &&& args[0] == "boot-claim"@
            &&& args[1] == "--boothost"@ && args[2] == a.boothost@
            &&& args[3] == "--tag"@ && args[4] == a.tag@
            &&& a.namespace@ == "boothost"@ ==> args.len() == 5
            &&& a.namespace@ != "boothost"@ ==> args.len() == 7 && args[5] == "--namespace"@
                && args[6] == a.namespace@
        }),
{
}

/// What a claim printed is the URI, without the white space around it; a claim that failed
/// or printed nothing gives none.
pub proof fn law_a_claim_gives_what_it_printed(a: Appliance, printed: Seq<char>, white: char)
    requires
        text::is_white(white),
    ensures
        text::is_trimmed(printed) ==> claim_outcome(a, true, printed) == Ok::<Seq<char>, Seq<char>>(
            printed,
        ),
        claim_outcome(a, true, printed + seq![white]) == claim_outcome(a, true, printed),
        claim_outcome(a, true, Seq::empty()) is Err,
        claim_outcome(a, false, printed) is Err,
{
    if text::is_trimmed(printed) {
        text::law_trimmed(printed);
    }
    text::law_white_space_around_is_trimmed(printed, white);
}

/// A slab that is named by a URI is trusted as it is, and so is a device that holds one; no
/// other device is. Each one that is trusted is attached.
pub proof fn law_a_trusted_slab_is_attached(
    p: ParamsView,
    appliance: Appliance,
    probed: Seq<bool>,
    i: int,
)
    requires
        probed.len() == p.slabs.len(),
        0 <= i < p.slabs.len(),
        probed[i] || text::find(p.slabs[i], "://"@) is Some,
    ensures
        resolved(p, Some(appliance), probed) is Some,
        resolved(p, Some(appliance), probed)->0.contains(p.slabs[i]),
{
    lemma_kept(p.slabs, probed, i);
    let kept = trusted(p.slabs, probed);
    let k = choose|k: int| 0 <= k < kept.len() && kept[k] == p.slabs[i];
    let all = cmdline::with_data(kept, p.data_slab);
    assert(all[k] == p.slabs[i]);
}

proof fn lemma_kept(slabs: Seq<Seq<char>>, probed: Seq<bool>, i: int)
    requires
        0 <= i < slabs.len(),
        is_trusted(slabs[i], probed[i]),
    ensures
        trusted(slabs, probed).contains(slabs[i]),
    decreases slabs.len(),
{
    let head = trusted(slabs.drop_last(), probed);
    let all = trusted(slabs, probed);
    if i < slabs.len() - 1 {
        lemma_kept(slabs.drop_last(), probed, i);
        let k = choose|k: int| 0 <= k < head.len() && head[k] == slabs[i];
        assert(all[k] == slabs[i]);
    } else {
        assert(all[head.len() as int] == slabs[i]);
    }
}

/// The engine connects as the host that was named, and as none where none was.
pub proof fn law_the_engine_connects_as_the_host(nqn: Seq<char>)
    ensures
        environment(Some(nqn)).len() == 1,
        environment(Some(nqn))[0].0 == "STORMBLOCK_HOST_NQN"@,
        environment(Some(nqn))[0].1 == nqn,
        environment(None).len() == 0,
{
}

} // verus!
