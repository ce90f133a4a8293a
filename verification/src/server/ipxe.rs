//! iPXE script rendering.
//!
//! The script is rendered per host so the initramfs stays dumb: everything it
//! needs arrives on the kernel command line. Identity is pinned here, at PXE
//! time, which is what lets day 2 be a profile change instead of a reprovision.

use crate::server::config::Config;
use crate::server::hosts::HostRecord;
use crate::server::mac;
use crate::server::mac::Mac;
use crate::strings;
use crate::text;
use vstd::prelude::*;
use vstd::string::StringExecFns;

verus! {

/// Everything needed to render one host's boot, resolved from config, the host's
/// record, and its claimed volume.
pub struct BootPlan<'a> {
    pub mac: Option<&'a Mac>,
    pub record: Option<&'a HostRecord>,
    /// NVMe/TCP portal for this host's root, already resolved from the host
    /// record's override or the server default.
    pub portal: Option<&'a str>,
    pub portal_port: u16,
    /// Subsystem NQN of the claimed volume, when a claim has been made.
    pub nqn: Option<&'a str>,
    /// Namespace ID within that subsystem.
    pub nsid: Option<u32>,
    /// Name of the volume to boot within the attached slab.
    pub volume: Option<&'a str>,
}

/// What a plan says.
#[verifier::ext_equal]
pub struct PlanView {
    pub mac: Option<Mac>,
    pub record: Option<HostRecord>,
    pub portal: Option<Seq<char>>,
    pub portal_port: u16,
    pub nqn: Option<Seq<char>>,
    pub nsid: Option<u32>,
    pub volume: Option<Seq<char>>,
}

impl<'a> View for BootPlan<'a> {
    type V = PlanView;

    open spec fn view(&self) -> PlanView {
        PlanView {
            mac: match self.mac {
                Some(m) => Some(*m),
                None => None,
            },
            record: match self.record {
                Some(r) => Some(*r),
                None => None,
            },
            portal: text::opt_str(self.portal),
            portal_port: self.portal_port,
            nqn: text::opt_str(self.nqn),
            nsid: self.nsid,
            volume: text::opt_str(self.volume),
        }
    }
}

/// The plan for a host before anything has been claimed for it. A host record's
/// portal wins over the server default: that is how a machine is steered to a
/// nearer appliance replica.
pub open spec fn unclaimed(cfg: Config, mac: Option<Mac>, record: Option<HostRecord>) -> PlanView {
    PlanView {
        mac,
        record,
        portal: match record {
            Some(r) => match r.portal {
                Some(p) => Some(p@),
                None => text::opt_text(cfg.portal),
            },
            None => text::opt_text(cfg.portal),
        },
        portal_port: cfg.portal_port,
        nqn: None,
        nsid: None,
        volume: None,
    }
}

// ---------------------------------------------------------------------------
// The command line

/// `name` and its value, where there is one.
pub open spec fn setting(name: Seq<char>, value: Option<Seq<char>>) -> Seq<Seq<char>> {
    match value {
        Some(v) => seq![name + v],
        None => Seq::empty(),
    }
}

pub open spec fn opt_dec(n: Option<u32>) -> Option<Seq<char>> {
    match n {
        Some(v) => Some(text::dec(v as nat)),
        None => None,
    }
}

/// Where root comes from. With no portal nothing is said rather than a guess: a
/// node that stops in the initramfs is recoverable, a node that attaches the
/// wrong volume is not.
pub open spec fn root_parts(plan: PlanView) -> Seq<Seq<char>> {
    match plan.portal {
        None => Seq::empty(),
        Some(portal) => seq![
            "rd.stormblock.portal="@ + portal,
            "rd.stormblock.port="@ + text::dec(plan.portal_port as nat),
        ] + setting("rd.stormblock.nqn="@, plan.nqn) + setting(
            "rd.stormblock.nsid="@,
            opt_dec(plan.nsid),
        ) + setting("stormblock.volume="@, plan.volume) + seq!["root=/dev/ublkb0"@],
    }
}

/// Who this machine is, pinned now and carried for the life of the node.
pub open spec fn identity_parts(record: Option<HostRecord>) -> Seq<Seq<char>> {
    match record {
        None => Seq::empty(),
        Some(r) => seq!["storm.hostname="@ + r.name@] + setting(
            "storm.role="@,
            text::opt_text(r.role),
        ),
    }
}

/// What the server and then the host's own record add at the end.
pub open spec fn extra_parts(cfg: Config, record: Option<HostRecord>) -> Seq<Seq<char>> {
    (if cfg.extra_cmdline@.len() == 0 {
        Seq::empty()
    } else {
        seq![cfg.extra_cmdline@]
    }) + match record {
        None => Seq::empty(),
        Some(r) => match r.extra_cmdline {
            Some(extra) => seq![extra@],
            None => Seq::empty(),
        },
    }
}

/// The disk to flow over onto, for a machine that has a root to flow over.
/// Destructive to that device, so it is only ever what an operator configured, never
/// inferred.
pub open spec fn disk_parts(cfg: Config, plan: PlanView) -> Seq<Seq<char>> {
    match plan.portal {
        None => Seq::empty(),
        Some(_) => setting("rd.stormblock.local-disk="@, text::opt_text(cfg.local_disk)),
    }
}

pub open spec fn parts(cfg: Config, plan: PlanView) -> Seq<Seq<char>> {
    root_parts(plan) + disk_parts(cfg, plan) + identity_parts(plan.record) + extra_parts(
        cfg,
        plan.record,
    )
}

pub open spec fn command_line(cfg: Config, plan: PlanView) -> Seq<char> {
    text::join(parts(cfg, plan), " "@)
}

// ---------------------------------------------------------------------------
// The script

/// Who the script is for.
pub open spec fn addressee(plan: PlanView) -> Seq<char> {
    match plan.mac {
        Some(m) => match plan.record {
            Some(r) => "# "@ + mac::canonical(m@) + " -> "@ + r.name@ + "\n"@,
            None => "# "@ + mac::canonical(m@) + " (no host record; serving defaults)\n"@,
        },
        None => "# no MAC supplied; serving the default boot\n"@,
    }
}

pub open spec fn warning(plan: PlanView) -> Seq<char> {
    match plan.portal {
        Some(_) => Seq::empty(),
        None =>
            "# WARNING: no NVMe/TCP portal for this host. The kernel will boot but\n# the initramfs has nowhere to attach root from.\n"@,
    }
}

pub open spec fn script(cfg: Config, plan: PlanView) -> Seq<char> {
    "#!ipxe\n\n"@ + addressee(plan) + warning(plan) + "\nset base "@ + text::trim_end_char(
        cfg.base_url@,
        '/',
    ) + "\nkernel ${base}/boot/vmlinuz initrd=initramfs.img "@ + command_line(cfg, plan)
        + "\ninitrd ${base}/boot/initramfs.img\nboot\n"@
}

// ---------------------------------------------------------------------------
// Rendering

fn push_setting(parts: &mut Vec<String>, name: &str, value: &str)
    ensures
        text::texts(final(parts)@) == text::texts(old(parts)@) + seq![name@ + value@],
{
    parts.push(strings::concat(name, value));
    assert(text::texts(parts@) =~= text::texts(old(parts)@) + seq![name@ + value@]);
}

fn push_opt(parts: &mut Vec<String>, name: &str, value: Option<&str>)
    ensures
        text::texts(final(parts)@) == text::texts(old(parts)@) + setting(
            name@,
            text::opt_str(value),
        ),
{
    match value {
        Some(v) => push_setting(parts, name, v),
        None => {
            assert(text::texts(parts@) + Seq::<Seq<char>>::empty() =~= text::texts(parts@));
        },
    }
}

fn push_word(parts: &mut Vec<String>, word: &str)
    ensures
        text::texts(final(parts)@) == text::texts(old(parts)@) + seq![word@],
{
    parts.push(word.to_owned());
    assert(text::texts(parts@) =~= text::texts(old(parts)@) + seq![word@]);
}

fn opt_as_str(o: &Option<String>) -> (r: Option<&str>)
    ensures
        text::opt_str(r) == text::opt_text(*o),
{
    match o {
        Some(s) => Some(s.as_str()),
        None => None,
    }
}

impl<'a> BootPlan<'a> {
    /// Resolve a plan from config plus whatever we know about the host.
    pub fn resolve(cfg: &'a Config, mac: Option<&'a Mac>, record: Option<&'a HostRecord>) -> (r:
        Self)
        ensures
            r@ == unclaimed(
                *cfg,
                match mac {
                    Some(m) => Some(*m),
                    None => None,
                },
                match record {
                    Some(h) => Some(*h),
                    None => None,
                },
            ),
    {
        let portal = match record {
            Some(h) => match &h.portal {
                Some(p) => Some(p.as_str()),
                None => opt_as_str(&cfg.portal),
            },
            None => opt_as_str(&cfg.portal),
        };
        BootPlan {
            mac,
            record,
            portal,
            portal_port: cfg.portal_port,
            nqn: None,
            nsid: None,
            volume: None,
        }
    }

    fn root(&self) -> (list: Vec<String>)
        ensures
            text::texts(list@) == root_parts(self@),
    {
        let mut list: Vec<String> = Vec::new();
        assert(text::texts(list@) =~= Seq::<Seq<char>>::empty());
        if let Some(portal) = self.portal {
            push_setting(&mut list, "rd.stormblock.portal=", portal);
            push_setting(
                &mut list,
                "rd.stormblock.port=",
                strings::dec(self.portal_port as u64).as_str(),
            );
            assert(text::texts(list@) =~= seq![
                "rd.stormblock.portal="@ + portal@,
                "rd.stormblock.port="@ + text::dec(self.portal_port as nat),
            ]);
            push_opt(&mut list, "rd.stormblock.nqn=", self.nqn);
            let nsid = match self.nsid {
                Some(n) => Some(strings::dec(n as u64)),
                None => None,
            };
            push_opt(&mut list, "rd.stormblock.nsid=", opt_as_str(&nsid));
            // No `rd.` here: the engine spells this one without the prefix, and
            // the initramfs parses that name.
            push_opt(&mut list, "stormblock.volume=", self.volume);
            push_word(&mut list, "root=/dev/ublkb0");
        }
        list
    }

    /// The kernel command line fragment describing where root comes from and who
    /// this machine is.
    pub fn cmdline(&self, cfg: &Config) -> (r: String)
        ensures
            r@ == command_line(*cfg, self@),
    {
        let mut list = self.root();
        let ghost rooted = text::texts(list@);
        if self.portal.is_some() {
            push_opt(&mut list, "rd.stormblock.local-disk=", opt_as_str(&cfg.local_disk));
        }
        assert(text::texts(list@) =~= rooted + disk_parts(*cfg, self@));
        let ghost located = text::texts(list@);
        if let Some(record) = self.record {
            push_setting(&mut list, "storm.hostname=", record.name.as_str());
            push_opt(&mut list, "storm.role=", opt_as_str(&record.role));
        }
        assert(text::texts(list@) =~= located + identity_parts(self@.record));
        let ghost identified = text::texts(list@);
        if !strings::is_empty(cfg.extra_cmdline.as_str()) {
            push_word(&mut list, cfg.extra_cmdline.as_str());
        }
        if let Some(record) = self.record {
            if let Some(extra) = &record.extra_cmdline {
                push_word(&mut list, extra.as_str());
            }
        }
        assert(text::texts(list@) =~= identified + extra_parts(*cfg, self@.record));
        assert(text::texts(list@) =~= parts(*cfg, self@));
        strings::join(&list, " ")
    }

    fn header(&self) -> (r: String)
        ensures
            r@ == addressee(self@),
    {
        match self.mac {
            Some(m) => {
                let mut out = strings::concat("# ", m.to_text().as_str());
                match self.record {
                    Some(r) => {
                        out.append(" -> ");
                        out.append(r.name.as_str());
                        out.append("\n");
                    },
                    None => out.append(" (no host record; serving defaults)\n"),
                }
                out
            },
            None => "# no MAC supplied; serving the default boot\n".to_owned(),
        }
    }
}

/// Render the per-host boot script.
pub fn render(cfg: &Config, plan: &BootPlan<'_>) -> (r: String)
    ensures
        r@ == script(*cfg, plan@),
{
    let mut out = strings::concat("#!ipxe\n\n", plan.header().as_str());
    if plan.portal.is_none() {
        out.append(
            "# WARNING: no NVMe/TCP portal for this host. The kernel will boot but\n# the initramfs has nowhere to attach root from.\n",
        );
    } else {
        assert(out@ + Seq::<char>::empty() =~= out@);
    }
    out.append("\nset base ");
    out.append(cfg.base_url().as_str());
    out.append("\nkernel ${base}/boot/vmlinuz initrd=initramfs.img ");
    out.append(plan.cmdline(cfg).as_str());
    out.append("\ninitrd ${base}/boot/initramfs.img\nboot\n");
    out
}

// ---------------------------------------------------------------------------
// Laws

/// Whether a part of the command line says where root comes from.
pub open spec fn says_root(part: Seq<char>) -> bool {
    text::starts_with(part, "rd.stormblock."@)
}

/// With no portal resolved, nothing that the server adds says where root comes from,
/// and the script warns. A node that stops in the initramfs is recoverable; one that
/// attaches the wrong volume is not.
pub proof fn law_no_portal_means_no_root(cfg: Config, plan: PlanView)
    requires
        plan.portal is None,
    ensures
        forall|i: int|
            0 <= i < parts(cfg, plan).len() - extra_parts(cfg, plan.record).len() ==> !says_root(
                #[trigger] parts(cfg, plan)[i],
            ),
        warning(plan).len() > 0,
{
    reveal_strlit(
        "# WARNING: no NVMe/TCP portal for this host. The kernel will boot but\n# the initramfs has nowhere to attach root from.\n",
    );
    reveal_strlit("rd.stormblock.");
    reveal_strlit("storm.hostname=");
    reveal_strlit("storm.role=");
    let own = identity_parts(plan.record);
    assert(parts(cfg, plan) =~= own + extra_parts(cfg, plan.record));
    assert forall|i: int| 0 <= i < own.len() implies !says_root(#[trigger] own[i]) by {
        assert(own[i][0] == 's');
        if says_root(own[i]) {
            assert(own[i].take(14)[0] == own[i][0]);
        }
    }
    assert forall|i: int|
        0 <= i < parts(cfg, plan).len() - extra_parts(
            cfg,
            plan.record,
        ).len() implies !says_root(#[trigger] parts(cfg, plan)[i]) by {
        assert(parts(cfg, plan)[i] == own[i]);
    }
}

/// A host record's portal wins over the server's.
pub proof fn law_the_record_steers(cfg: Config, mac: Option<Mac>, record: HostRecord)
    requires
        record.portal is Some,
    ensures
        unclaimed(cfg, mac, Some(record)).portal == text::opt_text(record.portal),
{
}

} // verus!
