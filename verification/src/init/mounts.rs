//! What gets mounted and written on the way to the new root, and the way into it.

use crate::init::cmdline::{BootParams, ParamsView};
use crate::init::engine::ExportPlan;
use crate::strings;
use crate::text;
use vstd::prelude::*;
use vstd::string::StringExecFns;

verus! {

// ---------------------------------------------------------------------------
// The console

/// A line for the console: how long the machine has been up, and the message.
pub open spec fn stamped(uptime: Option<Seq<char>>, message: Seq<char>) -> Seq<char> {
    let shown = match uptime {
        Some(s) => if text::words(s).len() > 0 {
            text::words(s)[0]
        } else {
            "?"@
        },
        None => "?"@,
    };
    "["@ + shown + "s] stormnetboot-init: "@ + message
}

/// A line for the console, from the contents of `/proc/uptime` where they could be
/// read.
pub fn stamp(uptime: Option<&str>, message: &str) -> (r: String)
    ensures
        r@ == stamped(text::opt_str(uptime), message@),
{
    let shown = match uptime {
        Some(s) => {
            let words = strings::words(s);
            assert(text::texts(words@).len() == words@.len());
            if words.len() > 0 {
                assert(text::texts(words@)[0] == words@[0]@);
                words[0].clone()
            } else {
                "?".to_owned()
            }
        },
        None => "?".to_owned(),
    };
    let mut line = strings::concat("[", shown.as_str());
    line.append("s] stormnetboot-init: ");
    line.append(message);
    line
}

/// What is said while the machine is held, `minutes` into it. It is said every minute
/// rather than once: the operator who needs it is by definition not watching when it
/// first appears.
pub fn held(minutes: u64, why: &str) -> (r: String)
    ensures
        r@ == "stormnetboot-init: HELD ("@ + text::dec(minutes as nat) + "m): "@ + why@,
{
    let mut line = strings::concat("stormnetboot-init: HELD (", strings::dec(minutes).as_str());
    line.append("m): ");
    line.append(why);
    line
}

// ---------------------------------------------------------------------------
// Before root

/// Modules no device announces, so nothing else loads them.
pub fn required_modules() -> (r: Vec<&'static str>)
    ensures
        r@.map_values(|s: &'static str| s@) == seq![
            "nvme_tcp"@,
            "ublk_drv"@,
            "erofs"@,
            "overlay"@,
            "ext4"@,
            "xfs"@,
            "vfat"@,
        ],
{
    let mut v: Vec<&'static str> = Vec::new();
    v.push("nvme_tcp");
    v.push("ublk_drv");
    v.push("erofs");
    v.push("overlay");
    v.push("ext4");
    v.push("xfs");
    // The ESP that the boot media refresh reads and rewrites.
    v.push("vfat");
    assert(v@.map_values(|s: &'static str| s@) =~= seq![
        "nvme_tcp"@,
        "ublk_drv"@,
        "erofs"@,
        "overlay"@,
        "ext4"@,
        "xfs"@,
        "vfat"@,
    ]);
    v
}

/// Whether a line of `/proc/mounts` says that something is mounted at `target`.
pub open spec fn mounts_at(line: Seq<char>, target: Seq<char>) -> bool {
    text::split(line, ' ').len() > 1 && text::split(line, ' ')[1] == target
}

pub open spec fn some_mounts_at(lines: Seq<Seq<char>>, target: Seq<char>) -> bool {
    exists|i: int| 0 <= i < lines.len() && mounts_at(#[trigger] lines[i], target)
}

/// Whether something is mounted at `target`, from the contents of `/proc/mounts`
/// where they could be read.
pub fn is_mounted(mounts: Option<&str>, target: &str) -> (r: bool)
    ensures
        r == match mounts {
            Some(s) => some_mounts_at(text::lines(s@), target@),
            None => false,
        },
{
    let Some(s) = mounts else {
        return false;
    };
    let lines = strings::lines(s);
    let ghost all = text::texts(lines@);
    let mut i: usize = 0;
    while i < lines.len()
        invariant
            i <= lines@.len(),
            all == text::texts(lines@),
            all == text::lines(s@),
            mounts == Some(s),
            forall|j: int| 0 <= j < i ==> !mounts_at(#[trigger] all[j], target@),
        decreases lines@.len() - i,
    {
        assert(all[i as int] == lines@[i as int]@);
        let fields = strings::split(lines[i].as_str(), ' ');
        assert(text::texts(fields@).len() == fields@.len());
        if fields.len() > 1 {
            assert(text::texts(fields@)[1] == fields@[1]@);
            if strings::eq(fields[1].as_str(), target) {
                assert(mounts_at(all[i as int], target@));
                return true;
            }
        }
        i = i + 1;
    }
    false
}

/// Whether an interface may be the one to root.
pub open spec fn is_ethernet(name: Seq<char>) -> bool {
    name != "lo"@ && !text::starts_with(name, "veth"@)
}

/// The first interface by name that may be the one to root, from the names under
/// `/sys/class/net`.
pub fn first_ethernet(names: &Vec<String>) -> (r: Option<String>)
    ensures
        match r {
            Some(name) => {
                &&& text::texts(names@).contains(name@)
                &&& is_ethernet(name@)
                &&& forall|i: int|
                    0 <= i < names@.len() && is_ethernet(#[trigger] text::texts(names@)[i])
                        ==> !text::precedes(text::texts(names@)[i], name@)
            },
            None => forall|i: int|
                0 <= i < names@.len() ==> !is_ethernet(#[trigger] text::texts(names@)[i]),
        },
{
    let ghost all = text::texts(names@);
    let mut best: Option<usize> = None;
    let mut i: usize = 0;
    while i < names.len()
        invariant
            i <= names@.len(),
            all == text::texts(names@),
            match best {
                Some(at) => {
                    &&& at < i
                    &&& is_ethernet(all[at as int])
                    &&& forall|j: int|
                        0 <= j < i && is_ethernet(#[trigger] all[j]) ==> !text::precedes(
                            all[j],
                            all[at as int],
                        )
                },
                None => forall|j: int| 0 <= j < i ==> !is_ethernet(#[trigger] all[j]),
            },
        decreases names@.len() - i,
    {
        let name = names[i].as_str();
        assert(all[i as int] == name@);
        if !strings::eq(name, "lo") && !strings::starts_with(name, "veth") {
            let better = match best {
                Some(at) => {
                    assert(all[at as int] == names@[at as int]@);
                    strings::precedes(name, names[at].as_str())
                },
                None => true,
            };
            if better {
                proof {
                    assert forall|j: int| 0 <= j < i + 1 && is_ethernet(
                        #[trigger] all[j],
                    ) implies !text::precedes(all[j], all[i as int]) by {
                        if j < i {
                            let at = best->0;
                            text::law_order_is_one_way(all[i as int], all[at as int]);
                            text::law_order_carries_over(all[i as int], all[at as int], all[j]);
                        } else if text::precedes(all[j], all[j]) {
                            text::law_order_is_one_way(all[j], all[j]);
                        }
                    }
                }
                best = Some(i);
            }
        }
        i = i + 1;
    }
    match best {
        Some(at) => {
            assert(all[at as int] == names@[at as int]@);
            Some(names[at].clone())
        },
        None => None,
    }
}

/// What is said once the network has been tried.
#[derive(Debug, PartialEq, Eq)]
pub struct NetworkSaid {
    /// Whether the line about DHCP is only a warning.
    pub warning: bool,
    pub dhcp: String,
    /// Where root comes from, where that is a portal.
    pub portal: Option<String>,
}

/// What to say once DHCP has been tried on an interface. The kernel may have
/// configured it already, so that DHCP did not complete stops nothing.
pub fn network_said(params: &BootParams, iface: &str, leased: bool) -> (r: NetworkSaid)
    ensures
        r.warning == !leased,
        r.dhcp@ == if leased {
            "network up on "@ + iface@
        } else {
            "DHCP did not complete on "@ + iface@ + "; continuing in case ip= configured it"@
        },
        text::opt_text(r.portal) == match params@.portal {
            Some(portal) => Some("portal "@ + portal + " is the root source"@),
            None => None,
        },
{
    let dhcp = if leased {
        strings::concat("network up on ", iface)
    } else {
        let mut said = strings::concat("DHCP did not complete on ", iface);
        said.append("; continuing in case ip= configured it");
        said
    };
    let portal = match &params.portal {
        Some(p) => {
            let mut said = strings::concat("portal ", p.as_str());
            said.append(" is the root source");
            Some(said)
        },
        None => None,
    };
    NetworkSaid { warning: !leased, dhcp, portal }
}

// ---------------------------------------------------------------------------
// Root

/// One step of mounting root.
#[derive(Debug, PartialEq, Eq)]
pub enum RootStep {
    CreateDir(String),
    /// Wait a while for a device; whether it came shows when it is mounted.
    WaitFor(String),
    /// Try these arguments to `mount` in turn until one succeeds; else root cannot be
    /// mounted, for this reason.
    Mount { tries: Vec<Vec<String>>, failure: String },
    Say(String),
}

#[verifier::ext_equal]
pub enum RootStepView {
    CreateDir(Seq<char>),
    WaitFor(Seq<char>),
    Mount { tries: Seq<Seq<Seq<char>>>, failure: Seq<char> },
    Say(Seq<char>),
}

pub open spec fn lists(v: Seq<Vec<String>>) -> Seq<Seq<Seq<char>>> {
    v.map_values(|l: Vec<String>| text::texts(l@))
}

impl View for RootStep {
    type V = RootStepView;

    open spec fn view(&self) -> RootStepView {
        match *self {
            RootStep::CreateDir(path) => RootStepView::CreateDir(path@),
            RootStep::WaitFor(device) => RootStepView::WaitFor(device@),
            RootStep::Mount { tries, failure } => RootStepView::Mount {
                tries: lists(tries@),
                failure: failure@,
            },
            RootStep::Say(s) => RootStepView::Say(s@),
        }
    }
}

pub open spec fn root_steps(v: Seq<RootStep>) -> Seq<RootStepView> {
    v.map_values(|s: RootStep| s@)
}

/// How to mount a filesystem of unknown kind: read-only first, which is the common
/// case, and the kernel's own probing last.
pub open spec fn tries(device: Seq<char>, at: Seq<char>) -> Seq<Seq<Seq<char>>> {
    seq![
        seq!["-t"@, "erofs"@, "-o"@, "ro"@, device, at],
        seq!["-t"@, "ext4"@, device, at],
        seq![device, at],
    ]
}

pub open spec fn mount_plainly() -> Seq<RootStepView> {
    seq![
        RootStepView::CreateDir("/sysroot"@),
        RootStepView::Mount {
            tries: tries("/dev/ublkb0"@, "/sysroot"@),
            failure: "could not mount /dev/ublkb0 on /sysroot as erofs, ext4 or auto"@,
        },
        RootStepView::Say("mounted root /dev/ublkb0 on /sysroot"@),
    ]
}

/// How large a tmpfs for the writable layer is to be, where it is to be one.
pub open spec fn tmpfs_size(overlay: Seq<char>) -> Option<Seq<char>> {
    match text::strip_prefix(overlay, "tmpfs"@) {
        Some(rest) => match text::strip_prefix(rest, ":"@) {
            Some(size) => Some(size),
            None => Some("512m"@),
        },
        None => None,
    }
}

/// How the writable layer is mounted.
pub open spec fn mount_upper(overlay: Seq<char>) -> Seq<RootStepView> {
    match tmpfs_size(overlay) {
        Some(size) => seq![
            RootStepView::Mount {
                tries: seq![
                    seq![
                        "-t"@,
                        "tmpfs"@,
                        "-o"@,
                        "size="@ + size,
                        "tmpfs"@,
                        "/run/stormblock/rw"@,
                    ],
                ],
                failure: "overlay: could not mount tmpfs upper (size="@ + size + ")"@,
            },
        ],
        None => seq![
            RootStepView::WaitFor(overlay),
            RootStepView::Mount {
                tries: seq![seq![overlay, "/run/stormblock/rw"@]],
                failure: "overlay: could not mount upper "@ + overlay,
            },
        ],
    }
}

pub open spec fn mount_lower() -> Seq<RootStepView> {
    seq![
        RootStepView::CreateDir("/sysroot"@),
        RootStepView::CreateDir("/run/stormblock/lower"@),
        RootStepView::CreateDir("/run/stormblock/rw"@),
        RootStepView::Mount {
            tries: tries("/dev/ublkb0"@, "/run/stormblock/lower"@),
            failure: "overlay: could not mount lower /dev/ublkb0"@,
        },
    ]
}

pub open spec fn mount_both(overlay: Seq<char>) -> Seq<RootStepView> {
    seq![
        RootStepView::CreateDir("/run/stormblock/rw/upper"@),
        RootStepView::CreateDir("/run/stormblock/rw/work"@),
        RootStepView::Mount {
            tries: seq![
                seq![
                    "-t"@,
                    "overlay"@,
                    "overlay"@,
                    "-o"@,
                    "lowerdir=/run/stormblock/lower,upperdir=/run/stormblock/rw/upper,workdir=/run/stormblock/rw/work"@,
                    "/sysroot"@,
                ],
            ],
            failure: "overlay: could not mount overlay root on /sysroot"@,
        },
        RootStepView::Say("overlay root: lower=/dev/ublkb0 upper="@ + overlay),
    ]
}

/// How root is mounted. With an overlay the read-only root becomes the lower layer
/// and a writable upper one sits on tmpfs or a device, so that the running system can
/// write while the image stays pristine.
pub open spec fn mount_sequence(overlay: Option<Seq<char>>) -> Seq<RootStepView> {
    match overlay {
        None => mount_plainly(),
        Some(o) => mount_lower() + mount_upper(o) + mount_both(o),
    }
}

fn arguments(words: &[&str]) -> (r: Vec<String>)
    ensures
        text::texts(r@) == words@.map_values(|s: &str| s@),
{
    let mut args: Vec<String> = Vec::new();
    let ghost all = words@.map_values(|s: &str| s@);
    let mut i: usize = 0;
    while i < words.len()
        invariant
            i <= words@.len(),
            all == words@.map_values(|s: &str| s@),
            text::texts(args@) == all.take(i as int),
        decreases words@.len() - i,
    {
        let word: &str = words[i];
        let ghost was = text::texts(args@);
        args.push(word.to_owned());
        assert(text::texts(args@) =~= was.push(word@));
        i = i + 1;
        assert(all.take(i as int) =~= was.push(word@));
    }
    assert(all.take(i as int) == all);
    args
}

fn mount_tries(device: &str, at: &str) -> (r: Vec<Vec<String>>)
    ensures
        lists(r@) == tries(device@, at@),
{
    let mut v: Vec<Vec<String>> = Vec::new();
    let a = arguments(&["-t", "erofs", "-o", "ro", device, at]);
    let b = arguments(&["-t", "ext4", device, at]);
    let c = arguments(&[device, at]);
    assert(text::texts(a@) =~= tries(device@, at@)[0]);
    assert(text::texts(b@) =~= tries(device@, at@)[1]);
    assert(text::texts(c@) =~= tries(device@, at@)[2]);
    v.push(a);
    v.push(b);
    v.push(c);
    assert(lists(v@) =~= tries(device@, at@));
    v
}

fn one_try(args: Vec<String>) -> (r: Vec<Vec<String>>)
    ensures
        lists(r@) == seq![text::texts(args@)],
{
    let mut v: Vec<Vec<String>> = Vec::new();
    v.push(args);
    assert(lists(v@) =~= seq![text::texts(args@)]);
    v
}

fn size_of_tmpfs(overlay: &str) -> (r: Option<String>)
    ensures
        text::opt_text(r) == tmpfs_size(overlay@),
{
    let Some(rest) = strings::strip_prefix(overlay, "tmpfs") else {
        return None;
    };
    match strings::strip_prefix(rest.as_str(), ":") {
        Some(size) => Some(size),
        None => Some("512m".to_owned()),
    }
}

fn push_upper(steps: &mut Vec<RootStep>, overlay: &str)
    ensures
        root_steps(final(steps)@) == root_steps(old(steps)@) + mount_upper(overlay@),
{
    let ghost was = root_steps(steps@);
    match size_of_tmpfs(overlay) {
        Some(size) => {
            let option = strings::concat("size=", size.as_str());
            let args = arguments(
                &["-t", "tmpfs", "-o", option.as_str(), "tmpfs", "/run/stormblock/rw"],
            );
            assert(text::texts(args@) =~= seq![
                "-t"@,
                "tmpfs"@,
                "-o"@,
                "size="@ + size@,
                "tmpfs"@,
                "/run/stormblock/rw"@,
            ]);
            let mut failure = strings::concat(
                "overlay: could not mount tmpfs upper (size=",
                size.as_str(),
            );
            failure.append(")");
            steps.push(RootStep::Mount { tries: one_try(args), failure });
        },
        None => {
            steps.push(RootStep::WaitFor(overlay.to_owned()));
            let args = arguments(&[overlay, "/run/stormblock/rw"]);
            assert(text::texts(args@) =~= seq![overlay@, "/run/stormblock/rw"@]);
            steps.push(
                RootStep::Mount {
                    tries: one_try(args),
                    failure: strings::concat("overlay: could not mount upper ", overlay),
                },
            );
        },
    }
    assert(root_steps(steps@) =~= was + mount_upper(overlay@));
}

fn mount_overlay_root(overlay: &str) -> (r: Vec<RootStep>)
    ensures
        root_steps(r@) == mount_sequence(Some(overlay@)),
{
    let mut steps: Vec<RootStep> = Vec::new();
    steps.push(RootStep::CreateDir("/sysroot".to_owned()));
    steps.push(RootStep::CreateDir("/run/stormblock/lower".to_owned()));
    steps.push(RootStep::CreateDir("/run/stormblock/rw".to_owned()));
    steps.push(
        RootStep::Mount {
            tries: mount_tries("/dev/ublkb0", "/run/stormblock/lower"),
            failure: "overlay: could not mount lower /dev/ublkb0".to_owned(),
        },
    );
    assert(root_steps(steps@) =~= mount_lower());
    push_upper(&mut steps, overlay);
    let ghost was = root_steps(steps@);
    steps.push(RootStep::CreateDir("/run/stormblock/rw/upper".to_owned()));
    steps.push(RootStep::CreateDir("/run/stormblock/rw/work".to_owned()));
    let args = arguments(
        &[
            "-t",
            "overlay",
            "overlay",
            "-o",
            "lowerdir=/run/stormblock/lower,upperdir=/run/stormblock/rw/upper,workdir=/run/stormblock/rw/work",
            "/sysroot",
        ],
    );
    assert(text::texts(args@) =~= seq![
        "-t"@,
        "overlay"@,
        "overlay"@,
        "-o"@,
        "lowerdir=/run/stormblock/lower,upperdir=/run/stormblock/rw/upper,workdir=/run/stormblock/rw/work"@,
        "/sysroot"@,
    ]);
    steps.push(
        RootStep::Mount {
            tries: one_try(args),
            failure: "overlay: could not mount overlay root on /sysroot".to_owned(),
        },
    );
    steps.push(
        RootStep::Say(strings::concat("overlay root: lower=/dev/ublkb0 upper=", overlay)),
    );
    assert(root_steps(steps@) =~= was + mount_both(overlay@));
    steps
}

/// The steps of mounting root, in order.
pub fn mount_root(overlay: Option<&str>) -> (r: Vec<RootStep>)
    ensures
        root_steps(r@) == mount_sequence(text::opt_str(overlay)),
{
    if let Some(o) = overlay {
        return mount_overlay_root(o);
    }
    let mut steps: Vec<RootStep> = Vec::new();
    steps.push(RootStep::CreateDir("/sysroot".to_owned()));
    steps.push(
        RootStep::Mount {
            tries: mount_tries("/dev/ublkb0", "/sysroot"),
            failure: "could not mount /dev/ublkb0 on /sysroot as erofs, ext4 or auto".to_owned(),
        },
    );
    steps.push(RootStep::Say("mounted root /dev/ublkb0 on /sysroot".to_owned()));
    assert(root_steps(steps@) =~= mount_plainly());
    steps
}

// ---------------------------------------------------------------------------
// Exports

/// One volume to apply once root is mounted. Nothing here is fatal: one container
/// that cannot start is worth less than a node that will not boot.
#[derive(Debug, PartialEq, Eq)]
pub enum Export {
    /// Mount `device` at `target` once it appears.
    Mount { device: String, target: String, mounted: String, refused: String, absent: String },
    /// Add `line` to the new root's fstab once `device` appears, making `dir` first.
    Register { device: String, dir: Option<String>, line: String, added: String, absent: String },
}

#[verifier::ext_equal]
pub enum ExportView {
    Mount {
        device: Seq<char>,
        target: Seq<char>,
        mounted: Seq<char>,
        refused: Seq<char>,
        absent: Seq<char>,
    },
    Register {
        device: Seq<char>,
        dir: Option<Seq<char>>,
        line: Seq<char>,
        added: Seq<char>,
        absent: Seq<char>,
    },
}

impl View for Export {
    type V = ExportView;

    open spec fn view(&self) -> ExportView {
        match *self {
            Export::Mount { device, target, mounted, refused, absent } => ExportView::Mount {
                device: device@,
                target: target@,
                mounted: mounted@,
                refused: refused@,
                absent: absent@,
            },
            Export::Register { device, dir, line, added, absent } => ExportView::Register {
                device: device@,
                dir: text::opt_text(dir),
                line: line@,
                added: added@,
                absent: absent@,
            },
        }
    }
}

pub open spec fn exports(v: Seq<Export>) -> Seq<ExportView> {
    v.map_values(|e: Export| e@)
}

/// A volume that a container needs as a mounted directory by the time the new system
/// starts.
pub open spec fn mounted_export(device: Seq<char>, at: Seq<char>) -> ExportView {
    ExportView::Mount {
        device,
        target: "/sysroot"@ + at,
        mounted: "mounted "@ + device + " -> "@ + at,
        refused: device + " would not mount at "@ + at,
        absent: device + " never appeared; "@ + at + " will be empty"@,
    }
}

/// A writable volume, handed to the new system to format on its first boot and to
/// grow.
pub open spec fn writable_export(device: Seq<char>, at: Seq<char>) -> ExportView {
    ExportView::Register {
        device,
        dir: None,
        line: device + " "@ + at
            + " xfs defaults,x-systemd.makefs,x-systemd.growfs,nofail 0 0"@,
        added: "writable "@ + device + " -> "@ + at,
        absent: device + " never appeared; "@ + at + " falls back to overlay"@,
    }
}

pub open spec fn image_store_export(device: Seq<char>, at: Seq<char>) -> ExportView {
    ExportView::Register {
        device,
        dir: Some("/sysroot"@ + at),
        line: device + " "@ + at + " erofs ro,nofail 0 0"@,
        added: "image-store "@ + device + " -> "@ + at + " (ro)"@,
        absent: "image-store "@ + device + " never appeared"@,
    }
}

pub open spec fn planned(plan: ExportPlan) -> Seq<ExportView> {
    plan.mount_map@.map_values(|m: (String, String)| mounted_export(m.0@, m.1@))
        + plan.fstab_writable@.map_values(|m: (String, String)| writable_export(m.0@, m.1@))
        + match plan.image_store {
        Some((device, at)) => seq![image_store_export(device@, at@)],
        None => Seq::empty(),
    }
}

/// `a`, then `b`, then `c`, then `d`.
fn say(a: &str, b: &str, c: &str, d: &str) -> (r: String)
    ensures
        r@ == a@ + b@ + c@ + d@,
{
    let mut s = strings::concat(a, b);
    s.append(c);
    s.append(d);
    s
}

fn mount_of(device: &str, at: &str) -> (r: Export)
    ensures
        r@ == mounted_export(device@, at@),
{
    let mut refused = strings::concat(device, " would not mount at ");
    refused.append(at);
    Export::Mount {
        device: device.to_owned(),
        target: strings::concat("/sysroot", at),
        mounted: say("mounted ", device, " -> ", at),
        refused,
        absent: say(device, " never appeared; ", at, " will be empty"),
    }
}

fn writable_of(device: &str, at: &str) -> (r: Export)
    ensures
        r@ == writable_export(device@, at@),
{
    Export::Register {
        device: device.to_owned(),
        dir: None,
        line: say(
            device,
            " ",
            at,
            " xfs defaults,x-systemd.makefs,x-systemd.growfs,nofail 0 0",
        ),
        added: say("writable ", device, " -> ", at),
        absent: say(device, " never appeared; ", at, " falls back to overlay"),
    }
}

fn image_store_of(device: &str, at: &str) -> (r: Export)
    ensures
        r@ == image_store_export(device@, at@),
{
    let mut added = say("image-store ", device, " -> ", at);
    added.append(" (ro)");
    let mut absent = strings::concat("image-store ", device);
    absent.append(" never appeared");
    Export::Register {
        device: device.to_owned(),
        dir: Some(strings::concat("/sysroot", at)),
        line: say(device, " ", at, " erofs ro,nofail 0 0"),
        added,
        absent,
    }
}

/// What to apply once root is mounted, in order: volumes to mount now, then those to
/// register with the new system.
pub fn apply_exports(plan: &ExportPlan) -> (r: Vec<Export>)
    ensures
        exports(r@) == planned(*plan),
{
    let mut list: Vec<Export> = Vec::new();
    let ghost first = plan.mount_map@.map_values(
        |m: (String, String)| mounted_export(m.0@, m.1@),
    );
    let ghost second = plan.fstab_writable@.map_values(
        |m: (String, String)| writable_export(m.0@, m.1@),
    );
    let mut i: usize = 0;
    while i < plan.mount_map.len()
        invariant
            i <= plan.mount_map@.len(),
            first == plan.mount_map@.map_values(
                |m: (String, String)| mounted_export(m.0@, m.1@),
            ),
            exports(list@) == first.take(i as int),
        decreases plan.mount_map@.len() - i,
    {
        let ghost was = exports(list@);
        let e = mount_of(plan.mount_map[i].0.as_str(), plan.mount_map[i].1.as_str());
        list.push(e);
        assert(exports(list@) =~= was.push(e@));
        assert(first.take(i + 1) =~= was.push(first[i as int]));
        i = i + 1;
    }
    assert(first.take(i as int) == first);
    i = 0;
    assert(first + second.take(0) =~= first);
    while i < plan.fstab_writable.len()
        invariant
            i <= plan.fstab_writable@.len(),
            second == plan.fstab_writable@.map_values(
                |m: (String, String)| writable_export(m.0@, m.1@),
            ),
            exports(list@) == first + second.take(i as int),
        decreases plan.fstab_writable@.len() - i,
    {
        let ghost was = exports(list@);
        let e = writable_of(plan.fstab_writable[i].0.as_str(), plan.fstab_writable[i].1.as_str());
        list.push(e);
        assert(exports(list@) =~= was.push(e@));
        assert(first + second.take(i + 1) =~= was.push(second[i as int]));
        i = i + 1;
    }
    assert(second.take(i as int) == second);
    let ghost was = exports(list@);
    if let Some((device, at)) = &plan.image_store {
        list.push(image_store_of(device.as_str(), at.as_str()));
    }
    assert(exports(list@) =~= planned(*plan));
    list
}

// ---------------------------------------------------------------------------
// Identity

/// A file to write into the new root. That it could not be written is said, and
/// stops nothing.
#[derive(Debug, PartialEq, Eq)]
pub struct IdentityFile {
    /// A directory to make first.
    pub dir: Option<String>,
    pub path: String,
    pub text: String,
    /// What to say when it could not be written, in front of why.
    pub warning: String,
}

#[verifier::ext_equal]
pub struct IdentityFileView {
    pub dir: Option<Seq<char>>,
    pub path: Seq<char>,
    pub text: Seq<char>,
    pub warning: Seq<char>,
}

impl View for IdentityFile {
    type V = IdentityFileView;

    open spec fn view(&self) -> IdentityFileView {
        IdentityFileView {
            dir: text::opt_text(self.dir),
            path: self.path@,
            text: self.text@,
            warning: self.warning@,
        }
    }
}

pub open spec fn identity_files(v: Seq<IdentityFile>) -> Seq<IdentityFileView> {
    v.map_values(|f: IdentityFile| f@)
}

/// The identity pinned at PXE time, as the new root carries it. Nothing after the
/// handover asks the network for it.
pub open spec fn identity(p: ParamsView) -> Seq<IdentityFileView> {
    (match p.hostname {
        Some(name) => seq![
            IdentityFileView {
                dir: None,
                path: "/sysroot/etc/hostname"@,
                text: name + "\n"@,
                warning: "could not write /sysroot/etc/hostname: "@,
            },
        ],
        None => Seq::empty(),
    }) + match p.role {
        Some(role) => seq![
            IdentityFileView {
                dir: Some("/sysroot/etc/storm"@),
                path: "/sysroot/etc/storm/role"@,
                text: role + "\n"@,
                warning: "could not write role: "@,
            },
        ],
        None => Seq::empty(),
    }
}

/// The files that carry the identity into the new root.
pub fn write_identity(params: &BootParams) -> (r: Vec<IdentityFile>)
    ensures
        identity_files(r@) == identity(params@),
{
    let mut files: Vec<IdentityFile> = Vec::new();
    if let Some(name) = &params.hostname {
        files.push(
            IdentityFile {
                dir: None,
                path: "/sysroot/etc/hostname".to_owned(),
                text: strings::concat(name.as_str(), "\n"),
                warning: "could not write /sysroot/etc/hostname: ".to_owned(),
            },
        );
    }
    if let Some(role) = &params.role {
        files.push(
            IdentityFile {
                dir: Some("/sysroot/etc/storm".to_owned()),
                path: "/sysroot/etc/storm/role".to_owned(),
                text: strings::concat(role.as_str(), "\n"),
                warning: "could not write role: ".to_owned(),
            },
        );
    }
    assert(identity_files(files@) =~= identity(params@));
    files
}

// ---------------------------------------------------------------------------
// The handover

/// The program that the new root starts with: the first of two that is there.
pub fn choose_init(sbin_init: bool, systemd: bool) -> (r: Result<&'static str, &'static str>)
    ensures
        match r {
            Ok(path) => if sbin_init {
                path@ == "/sbin/init"@
            } else {
                systemd && path@ == "/usr/lib/systemd/systemd"@
            },
            Err(why) => !sbin_init && !systemd && why@ == "no init found in the new root"@,
        },
{
    if sbin_init {
        Ok("/sbin/init")
    } else if systemd {
        Ok("/usr/lib/systemd/systemd")
    } else {
        Err("no init found in the new root")
    }
}

/// The shell to hand to the operator: the first of three that is there. Without one
/// there is nothing left but to hold the machine.
pub fn choose_shell(sh: bool, busybox: bool, ash: bool) -> (r: Option<&'static str>)
    ensures
        match r {
            Some(path) => if sh {
                path@ == "/bin/sh"@
            } else if busybox {
                path@ == "/bin/busybox"@
            } else {
                ash && path@ == "/bin/ash"@
            },
            None => !sh && !busybox && !ash,
        },
{
    if sh {
        Some("/bin/sh")
    } else if busybox {
        Some("/bin/busybox")
    } else if ash {
        Some("/bin/ash")
    } else {
        None
    }
}

// ---------------------------------------------------------------------------
// Laws

/// With or without an overlay, something is mounted where the handover looks for root.
pub proof fn law_root_ends_up_mounted(overlay: Option<Seq<char>>)
    ensures
        exists|i: int|
            0 <= i < mount_sequence(overlay).len() && (#[trigger] mount_sequence(overlay)[i]
                matches RootStepView::Mount { tries, .. } && tries.len() > 0
                && tries.last().last() == "/sysroot"@),
{
    let s = mount_sequence(overlay);
    match overlay {
        None => {
            let t = tries("/dev/ublkb0"@, "/sysroot"@);
            assert(t.last().last() == "/sysroot"@);
            assert(s[1] matches RootStepView::Mount { tries, .. } && tries == t);
        },
        Some(o) => {
            let k = (mount_lower() + mount_upper(o)).len() as int;
            assert(s[k + 2] == mount_both(o)[2]);
            assert(mount_both(o)[2] matches RootStepView::Mount { tries, .. }
                && tries.last().last() == "/sysroot"@);
        },
    }
}

/// Without an overlay the root device is mounted as it is: read-only first, then as the
/// other file systems it may hold, and nothing else is mounted.
pub proof fn law_a_plain_root_is_tried_in_order(i: int)
    requires
        0 <= i < mount_sequence(None).len(),
    ensures
        mount_sequence(None)[i] matches RootStepView::Mount { tries, .. } ==> {
            &&& tries.len() == 3
            &&& tries[0].contains("erofs"@) && tries[0].contains("ro"@)
            &&& tries[1].contains("ext4"@)
            &&& forall|k: int|
                0 <= k < 3 ==> (#[trigger] tries[k]).last() == "/sysroot"@ && tries[k][tries[k].len()
                    - 2] == "/dev/ublkb0"@
        },
        mount_sequence(None)[0] == RootStepView::CreateDir("/sysroot"@),
{
    let t = tries("/dev/ublkb0"@, "/sysroot"@);
    assert(t[0][1] == "erofs"@ && t[0][3] == "ro"@ && t[1][1] == "ext4"@);
}

/// An overlay's upper layer is memory of the size it names, or of half a gibibyte where it
/// names none; anything else is a device, which is waited for before it is mounted.
pub proof fn law_an_overlay_has_its_upper_layer(size: Seq<char>, device: Seq<char>)
    requires
        !"tmpfs"@.is_prefix_of(device),
    ensures
        tmpfs_size("tmpfs"@) == Some("512m"@),
        tmpfs_size("tmpfs"@ + (":"@ + size)) == Some(size),
        tmpfs_size(device) is None,
        mount_upper(device)[0] == RootStepView::WaitFor(device),
        mount_upper(device)[1] matches RootStepView::Mount { tries, .. } && tries == seq![
            seq![device, "/run/stormblock/rw"@],
        ],
        mount_upper("tmpfs"@ + (":"@ + size))[0] matches RootStepView::Mount { tries, .. }
            && tries[0].contains("size="@ + size),
{
    let t = "tmpfs"@;
    let c = ":"@;
    reveal_strlit(":");
    assert(t.take(t.len() as int) =~= t);
    assert(t.skip(t.len() as int).len() == 0);
    let full = t + (c + size);
    assert(full.take(t.len() as int) =~= t);
    assert(full.skip(t.len() as int) =~= c + size);
    assert((c + size).take(1) =~= c);
    assert((c + size).skip(1) =~= size);
    if t.len() <= device.len() {
        assert(device.subrange(0, t.len() as int) =~= device.take(t.len() as int));
    }
    let up = mount_upper(full);
    assert(up[0]->tries[0][3] == "size="@ + size);
}

/// The root device is the lower layer, and it is mounted before the upper one, which is
/// mounted before the two are joined on the new root.
pub proof fn law_an_overlay_is_joined_last(overlay: Seq<char>)
    ensures
        ({
            let s = mount_sequence(Some(overlay));
            let n = 4 + mount_upper(overlay).len() as int;
            &&& s[3] matches RootStepView::Mount { tries, .. } && tries[0][4] == "/dev/ublkb0"@
                && tries[0].last() == "/run/stormblock/lower"@
            &&& s[n - 1] matches RootStepView::Mount { tries, .. } && tries[0].last()
                == "/run/stormblock/rw"@
            &&& s[n + 2] matches RootStepView::Mount { tries, .. } && tries[0].contains("overlay"@)
                && tries[0].last() == "/sysroot"@
            &&& s.len() == n + 4
        }),
{
    let s = mount_sequence(Some(overlay));
    let n = 4 + mount_upper(overlay).len() as int;
    assert(s[3] == mount_lower()[3]);
    assert(s[n - 1] == mount_upper(overlay)[n - 5]);
    assert(s[n + 2] == mount_both(overlay)[2]);
    assert(mount_both(overlay)[2]->tries[0][1] == "overlay"@);
}

/// Every planned export is applied, on its own device and at its own place: those to mount
/// below the new root, the writable ones by a line of the table, and the image store
/// read-only.
pub proof fn law_every_export_is_applied(plan: ExportPlan, i: int, j: int)
    requires
        0 <= i < plan.mount_map@.len(),
        0 <= j < plan.fstab_writable@.len(),
    ensures
        ({
            let all = planned(plan);
            let (device, at) = plan.mount_map@[i];
            let (slab, place) = plan.fstab_writable@[j];
            &&& all.len() == plan.mount_map@.len() + plan.fstab_writable@.len()
                + if plan.image_store is Some {
                1int
            } else {
                0
            }
            &&& all[i] matches ExportView::Mount { device: d, target, .. } && d == device@ && target
                == "/sysroot"@ + at@
            &&& all[plan.mount_map@.len() + j] matches ExportView::Register { device: d, line, dir, .. }
                && d == slab@ && dir is None && (slab@ + " "@ + place@).is_prefix_of(line)
            &&& plan.image_store matches Some((store, dir)) ==> (
            all.last() matches ExportView::Register { device: d, line, .. } && d == store@ && line
                == store@ + " "@ + dir@ + " erofs ro,nofail 0 0"@)
        }),
{
    let all = planned(plan);
    let (slab, place) = plan.fstab_writable@[j];
    let e = all[plan.mount_map@.len() + j];
    assert(e == writable_export(slab@, place@));
    let head = slab@ + " "@ + place@;
    let line = e->line;
    assert(line.subrange(0, head.len() as int) =~= head);
}

/// The name and the role that the command line gives are written into the new root, each on
/// a line in its own file, and nothing is written for one that it does not give.
pub proof fn law_an_identity_is_written_as_given(p: ParamsView)
    ensures
        identity(p).len() == (if p.hostname is Some {
            1int
        } else {
            0
        }) + (if p.role is Some {
            1int
        } else {
            0
        }),
        p.hostname is Some ==> identity(p)[0].path == "/sysroot/etc/hostname"@ && identity(
            p,
        )[0].text == p.hostname->0 + "\n"@,
        p.role is Some ==> identity(p).last().path == "/sysroot/etc/storm/role"@ && identity(
            p,
        ).last().text == p.role->0 + "\n"@ && identity(p).last().dir == Some(
            "/sysroot/etc/storm"@,
        ),
{
}

/// A line of the mount table mounts at its second field.
pub proof fn law_a_line_mounts_at_its_second_field(
    device: Seq<char>,
    target: Seq<char>,
    rest: Seq<char>,
    other: Seq<char>,
)
    requires
        text::free_of(device, ' '),
        text::free_of(target, ' '),
    ensures
        mounts_at(device + seq![' '] + (target + seq![' '] + rest), other) <==> other == target,
        !mounts_at(device, other),
{
    text::law_splits(device, ' ', target + seq![' '] + rest);
    text::law_splits(target, ' ', rest);
    let s = text::split(device + seq![' '] + (target + seq![' '] + rest), ' ');
    assert(s =~= seq![device] + (seq![target] + text::split(rest, ' ')));
}

} // verus!
