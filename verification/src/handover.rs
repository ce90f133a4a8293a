//! The command line between the boot server, which writes it, and the initramfs,
//! which reads it.

use crate::init::cmdline;
use crate::server::claims::ClaimResponse;
use crate::server::config::Config;
use crate::server::hosts::HostRecord;
use crate::server::http;
use crate::server::ipxe;
use crate::server::ipxe::PlanView;
use crate::server::mac;
use crate::server::mac::Mac;
use crate::text;
use vstd::prelude::*;

verus! {

/// Whether a value, where there is one, can stand on a command line: it is not empty
/// and holds no white space.
pub open spec fn fits(v: Option<Seq<char>>) -> bool {
    match v {
        Some(s) => text::one_word(s),
        None => true,
    }
}

/// Whether everything that a plan says can stand on a command line.
pub open spec fn plan_fits(cfg: Config, plan: PlanView) -> bool {
    &&& fits(plan.portal)
    &&& fits(plan.nqn)
    &&& fits(plan.volume)
    &&& fits(text::opt_text(cfg.local_disk))
    &&& match plan.record {
        Some(r) => text::one_word(r.name@) && fits(text::opt_text(r.role)),
        None => true,
    }
}

/// The settings that the boot server writes.
pub open spec fn keys() -> Seq<Seq<char>> {
    seq![
        "rd.stormblock.portal"@,
        "rd.stormblock.port"@,
        "rd.stormblock.nqn"@,
        "rd.stormblock.nsid"@,
        "stormblock.volume"@,
        "rd.stormblock.local-disk"@,
        "storm.hostname"@,
        "storm.role"@,
    ]
}

/// Whether what an operator adds leaves the settings that the boot server writes
/// alone.
pub open spec fn extras_keep_out(cfg: Config, plan: PlanView) -> bool {
    forall|i: int, j: int|
        0 <= i < ipxe::extra_parts(cfg, plan.record).len() && 0 <= j < keys().len()
            ==> cmdline::last_value(
            text::words(#[trigger] ipxe::extra_parts(cfg, plan.record)[i]),
            #[trigger] keys()[j],
        ) is None
}

// ---------------------------------------------------------------------------
// Words

/// The words of two texts with a space between them are those of the one and then
/// those of the other.
pub proof fn law_words_add_up(a: Seq<char>, b: Seq<char>)
    ensures
        text::words(a + " "@ + b) == text::words(a) + text::words(b),
    decreases a.len(),
{
    reveal_strlit(" ");
    let s = a + " "@ + b;
    if a.len() == 0 {
        assert(s[0] == ' ');
        assert(s.skip(1) =~= b);
        assert(text::words(a) + text::words(b) =~= text::words(b));
    } else if text::is_white(a[0]) {
        assert(s[0] == a[0]);
        assert(s.skip(1) =~= a.skip(1) + " "@ + b);
        law_words_add_up(a.skip(1), b);
    } else {
        assert(s[0] == a[0]);
        lemma_first_white(a, b);
        let k = text::index_of_white(a) as int;
        if k < a.len() {
            let rest = a.skip(k + 1);
            assert(s.take(k) =~= a.take(k));
            assert(s.skip(k + 1) =~= rest + " "@ + b);
            law_words_add_up(rest, b);
            assert(text::words(a) + text::words(b) =~= seq![a.take(k)] + (text::words(rest)
                + text::words(b)));
        } else {
            assert(s.take(k) =~= a);
            assert(s.skip(k + 1) =~= b);
        }
    }
}

proof fn lemma_first_white(a: Seq<char>, b: Seq<char>)
    ensures
        text::index_of_white(a) <= a.len(),
        text::index_of_white(a + " "@ + b) == text::index_of_white(a),
    decreases a.len(),
{
    reveal_strlit(" ");
    let s = a + " "@ + b;
    if a.len() == 0 {
        assert(s[0] == ' ');
    } else {
        assert(s[0] == a[0]);
        assert(s.skip(1) =~= a.skip(1) + " "@ + b);
        lemma_first_white(a.skip(1), b);
    }
}

// ---------------------------------------------------------------------------
// Settings

/// What the last of `parts` to set `key` sets it to.
pub open spec fn last_in(parts: Seq<Seq<char>>, key: Seq<char>) -> Option<Seq<char>>
    decreases parts.len(),
{
    if parts.len() == 0 {
        None
    } else {
        match cmdline::last_value(text::words(parts.last()), key) {
            Some(v) => Some(v),
            None => last_in(parts.drop_last(), key),
        }
    }
}

proof fn lemma_last_value_adds_up(x: Seq<Seq<char>>, y: Seq<Seq<char>>, key: Seq<char>)
    ensures
        cmdline::last_value(x + y, key) == match cmdline::last_value(y, key) {
            Some(v) => Some(v),
            None => cmdline::last_value(x, key),
        },
    decreases y.len(),
{
    if y.len() == 0 {
        assert(x + y =~= x);
    } else {
        assert((x + y).last() == y.last());
        assert((x + y).drop_last() =~= x + y.drop_last());
        lemma_last_value_adds_up(x, y.drop_last(), key);
    }
}

/// A joined command line says of a setting what the last of its parts says of it.
proof fn lemma_joined(parts: Seq<Seq<char>>, key: Seq<char>)
    ensures
        cmdline::last_value(text::words(text::join(parts, " "@)), key) == last_in(parts, key),
    decreases parts.len(),
{
    if parts.len() == 1 {
        assert(last_in(parts.drop_last(), key) is None);
    } else if parts.len() > 1 {
        let head = text::join(parts.drop_last(), " "@);
        lemma_joined(parts.drop_last(), key);
        law_words_add_up(head, parts.last());
        lemma_last_value_adds_up(text::words(head), text::words(parts.last()), key);
    }
}

proof fn lemma_last_in_adds_up(x: Seq<Seq<char>>, y: Seq<Seq<char>>, key: Seq<char>)
    ensures
        last_in(x + y, key) == match last_in(y, key) {
            Some(v) => Some(v),
            None => last_in(x, key),
        },
    decreases y.len(),
{
    if y.len() == 0 {
        assert(x + y =~= x);
    } else {
        assert((x + y).last() == y.last());
        assert((x + y).drop_last() =~= x + y.drop_last());
        lemma_last_in_adds_up(x, y.drop_last(), key);
    }
}

/// Whether a name can be set: it is one word without an equals sign.
pub open spec fn is_name(s: Seq<char>) -> bool {
    text::one_word(s) && text::free_of(s, '=')
}

/// One setting says its value of its own name, and nothing of any other.
proof fn lemma_setting(name: Seq<char>, value: Seq<char>, key: Seq<char>)
    requires
        is_name(name),
        text::one_word(value),
    ensures
        last_in(seq![name + seq!['='] + value], key) == if name == key {
            Some(value)
        } else {
            None
        },
{
    let token = name + seq!['='] + value;
    assert forall|i: int| 0 <= i < token.len() implies !text::is_white(#[trigger] token[i]) by {
        if i < name.len() {
            assert(token[i] == name[i]);
        } else if i > name.len() {
            assert(token[i] == value[i - name.len() - 1]);
        }
    }
    text::law_a_word_is_its_own(token);
    text::law_splits_once(name, '=', value);
    let tokens = seq![token];
    assert(tokens.drop_last() =~= Seq::<Seq<char>>::empty());
    assert(tokens.last() == token);
    let parts = seq![token];
    assert(parts.drop_last() =~= Seq::<Seq<char>>::empty());
    assert(parts.last() == token);
    assert(cmdline::last_value(tokens.drop_last(), key) is None);
    assert(last_in(parts.drop_last(), key) is None);
}

/// The same for a setting that may be absent.
proof fn lemma_opt_setting(
    written: Seq<char>,
    name: Seq<char>,
    value: Option<Seq<char>>,
    key: Seq<char>,
)
    requires
        is_name(name),
        written == name + seq!['='],
        fits(value),
    ensures
        last_in(ipxe::setting(written, value), key) == if name == key {
            value
        } else {
            None
        },
{
    if let Some(v) = value {
        lemma_setting(name, v, key);
    }
}

proof fn lemma_digits_fit(n: nat)
    ensures
        text::one_word(text::dec(n)),
{
    text::law_decimals_read_back(n, n);
    text::law_digits_are_plain(text::dec(n), ' ');
}

/// What the extras say of a setting of the boot server's: nothing.
proof fn lemma_extras(parts: Seq<Seq<char>>, key: Seq<char>)
    requires
        forall|i: int|
            0 <= i < parts.len() ==> cmdline::last_value(
                text::words(#[trigger] parts[i]),
                key,
            ) is None,
    ensures
        last_in(parts, key) is None,
    decreases parts.len(),
{
    if parts.len() > 0 {
        assert(parts.last() == parts[parts.len() - 1]);
        assert forall|i: int| 0 <= i < parts.drop_last().len() implies cmdline::last_value(
            text::words(#[trigger] parts.drop_last()[i]),
            key,
        ) is None by {
            assert(parts.drop_last()[i] == parts[i]);
        }
        lemma_extras(parts.drop_last(), key);
    }
}

// ---------------------------------------------------------------------------
// Names

proof fn lemma_names()
    ensures
        forall|j: int| 0 <= j < keys().len() ==> is_name(#[trigger] keys()[j]),
        is_name("root"@),
        "rd.stormblock.portal="@ == "rd.stormblock.portal"@ + seq!['='],
        "rd.stormblock.port="@ == "rd.stormblock.port"@ + seq!['='],
        "rd.stormblock.nqn="@ == "rd.stormblock.nqn"@ + seq!['='],
        "rd.stormblock.nsid="@ == "rd.stormblock.nsid"@ + seq!['='],
        "stormblock.volume="@ == "stormblock.volume"@ + seq!['='],
        "rd.stormblock.local-disk="@ == "rd.stormblock.local-disk"@ + seq!['='],
        "storm.hostname="@ == "storm.hostname"@ + seq!['='],
        "storm.role="@ == "storm.role"@ + seq!['='],
        "root=/dev/ublkb0"@ == "root"@ + seq!['='] + "/dev/ublkb0"@,
        text::one_word("/dev/ublkb0"@),
{
    reveal_strlit("rd.stormblock.portal");
    reveal_strlit("rd.stormblock.port");
    reveal_strlit("rd.stormblock.nqn");
    reveal_strlit("rd.stormblock.nsid");
    reveal_strlit("stormblock.volume");
    reveal_strlit("rd.stormblock.local-disk");
    reveal_strlit("storm.hostname");
    reveal_strlit("storm.role");
    reveal_strlit("rd.stormblock.portal=");
    reveal_strlit("rd.stormblock.port=");
    reveal_strlit("rd.stormblock.nqn=");
    reveal_strlit("rd.stormblock.nsid=");
    reveal_strlit("stormblock.volume=");
    reveal_strlit("rd.stormblock.local-disk=");
    reveal_strlit("storm.hostname=");
    reveal_strlit("storm.role=");
    reveal_strlit("root");
    reveal_strlit("/dev/ublkb0");
    reveal_strlit("root=/dev/ublkb0");
    assert("rd.stormblock.portal="@ =~= "rd.stormblock.portal"@ + seq!['=']);
    assert("rd.stormblock.port="@ =~= "rd.stormblock.port"@ + seq!['=']);
    assert("rd.stormblock.nqn="@ =~= "rd.stormblock.nqn"@ + seq!['=']);
    assert("rd.stormblock.nsid="@ =~= "rd.stormblock.nsid"@ + seq!['=']);
    assert("stormblock.volume="@ =~= "stormblock.volume"@ + seq!['=']);
    assert("rd.stormblock.local-disk="@ =~= "rd.stormblock.local-disk"@ + seq!['=']);
    assert("storm.hostname="@ =~= "storm.hostname"@ + seq!['=']);
    assert("storm.role="@ =~= "storm.role"@ + seq!['=']);
    assert("root=/dev/ublkb0"@ =~= "root"@ + seq!['='] + "/dev/ublkb0"@);
}

/// No two of the names are the same, and none is `root`.
proof fn lemma_names_differ()
    ensures
        forall|i: int, j: int|
            0 <= i < j < keys().len() ==> #[trigger] keys()[i] != #[trigger] keys()[j],
        forall|j: int| 0 <= j < keys().len() ==> #[trigger] keys()[j] != "root"@,
{
    reveal_strlit("rd.stormblock.portal");
    reveal_strlit("rd.stormblock.port");
    reveal_strlit("rd.stormblock.nqn");
    reveal_strlit("rd.stormblock.nsid");
    reveal_strlit("stormblock.volume");
    reveal_strlit("rd.stormblock.local-disk");
    reveal_strlit("storm.hostname");
    reveal_strlit("storm.role");
    reveal_strlit("root");
    let k = keys();
    assert(k[0].len() == 20 && k[1].len() == 18 && k[2].len() == 17 && k[3].len() == 18);
    assert(k[4].len() == 17 && k[5].len() == 24 && k[6].len() == 14 && k[7].len() == 10);
    assert("root"@.len() == 4);
    assert(k[1][14] == 'p' && k[3][14] == 'n');
    assert(k[2][0] == 'r' && k[4][0] == 's');
    assert forall|i: int, j: int| 0 <= i < j < k.len() implies #[trigger] k[i] != #[trigger] k[j] by {
        assert(i == 1 && j == 3 || i == 2 && j == 4 || k[i].len() != k[j].len());
    }
}

// ---------------------------------------------------------------------------
// The law

/// What a plan says of a setting.
pub open spec fn planned(cfg: Config, plan: PlanView, key: Seq<char>) -> Option<Seq<char>> {
    if key == "storm.hostname"@ {
        match plan.record {
            Some(r) => Some(r.name@),
            None => None,
        }
    } else if key == "storm.role"@ {
        match plan.record {
            Some(r) => text::opt_text(r.role),
            None => None,
        }
    } else if plan.portal is None {
        None
    } else if key == "rd.stormblock.portal"@ {
        plan.portal
    } else if key == "rd.stormblock.port"@ {
        Some(text::dec(plan.portal_port as nat))
    } else if key == "rd.stormblock.nqn"@ {
        plan.nqn
    } else if key == "rd.stormblock.nsid"@ {
        ipxe::opt_dec(plan.nsid)
    } else if key == "stormblock.volume"@ {
        plan.volume
    } else if key == "rd.stormblock.local-disk"@ {
        text::opt_text(cfg.local_disk)
    } else {
        None
    }
}

/// What the part about root says of a setting.
pub open spec fn rooted(plan: PlanView, key: Seq<char>) -> Option<Seq<char>> {
    if plan.portal is None {
        None
    } else if key == "rd.stormblock.portal"@ {
        plan.portal
    } else if key == "rd.stormblock.port"@ {
        Some(text::dec(plan.portal_port as nat))
    } else if key == "rd.stormblock.nqn"@ {
        plan.nqn
    } else if key == "rd.stormblock.nsid"@ {
        ipxe::opt_dec(plan.nsid)
    } else if key == "stormblock.volume"@ {
        plan.volume
    } else {
        None
    }
}

proof fn lemma_root_parts(plan: PlanView, j: int)
    requires
        fits(plan.portal),
        fits(plan.nqn),
        fits(plan.volume),
        0 <= j < keys().len(),
    ensures
        last_in(ipxe::root_parts(plan), keys()[j]) == rooted(plan, keys()[j]),
{
    let key = keys()[j];
    lemma_names();
    lemma_names_differ();
    if let Some(portal) = plan.portal {
        let port = text::dec(plan.portal_port as nat);
        lemma_digits_fit(plan.portal_port as nat);
        if let Some(n) = plan.nsid {
            lemma_digits_fit(n as nat);
        }
        assert(is_name(keys()[0]) && is_name(keys()[1]) && is_name(keys()[2]) && is_name(keys()[3])
            && is_name(keys()[4]));
        let one = seq!["rd.stormblock.portal="@ + portal];
        let two = seq!["rd.stormblock.port="@ + port];
        let three = ipxe::setting("rd.stormblock.nqn="@, plan.nqn);
        let four = ipxe::setting("rd.stormblock.nsid="@, ipxe::opt_dec(plan.nsid));
        let five = ipxe::setting("stormblock.volume="@, plan.volume);
        let six = seq!["root=/dev/ublkb0"@];
        lemma_setting("rd.stormblock.portal"@, portal, key);
        lemma_setting("rd.stormblock.port"@, port, key);
        lemma_opt_setting("rd.stormblock.nqn="@, "rd.stormblock.nqn"@, plan.nqn, key);
        lemma_opt_setting(
            "rd.stormblock.nsid="@,
            "rd.stormblock.nsid"@,
            ipxe::opt_dec(plan.nsid),
            key,
        );
        lemma_opt_setting("stormblock.volume="@, "stormblock.volume"@, plan.volume, key);
        lemma_setting("root"@, "/dev/ublkb0"@, key);
        assert(one + two =~= seq!["rd.stormblock.portal="@ + portal, "rd.stormblock.port="@ + port]);
        lemma_last_in_adds_up(one, two, key);
        lemma_last_in_adds_up(one + two, three, key);
        lemma_last_in_adds_up(one + two + three, four, key);
        lemma_last_in_adds_up(one + two + three + four, five, key);
        lemma_last_in_adds_up(one + two + three + four + five, six, key);
        assert(ipxe::root_parts(plan) == one + two + three + four + five + six);
        lemma_picked(j);
    }
}

/// Which of the names `keys()[j]` is.
proof fn lemma_picked(j: int)
    requires
        0 <= j < keys().len(),
    ensures
        keys()[j] == "rd.stormblock.portal"@ <==> j == 0,
        keys()[j] == "rd.stormblock.port"@ <==> j == 1,
        keys()[j] == "rd.stormblock.nqn"@ <==> j == 2,
        keys()[j] == "rd.stormblock.nsid"@ <==> j == 3,
        keys()[j] == "stormblock.volume"@ <==> j == 4,
        keys()[j] == "rd.stormblock.local-disk"@ <==> j == 5,
        keys()[j] == "storm.hostname"@ <==> j == 6,
        keys()[j] == "storm.role"@ <==> j == 7,
        keys()[j] != "root"@,
{
    lemma_names_differ();
    assert(keys()[0] == "rd.stormblock.portal"@);
    assert(keys()[1] == "rd.stormblock.port"@);
    assert(keys()[2] == "rd.stormblock.nqn"@);
    assert(keys()[3] == "rd.stormblock.nsid"@);
    assert(keys()[4] == "stormblock.volume"@);
    assert(keys()[5] == "rd.stormblock.local-disk"@);
    assert(keys()[6] == "storm.hostname"@);
    assert(keys()[7] == "storm.role"@);
}

/// What the command line says of a setting is what the plan says of it.
proof fn lemma_said(cfg: Config, plan: PlanView, j: int)
    requires
        plan_fits(cfg, plan),
        extras_keep_out(cfg, plan),
        0 <= j < keys().len(),
    ensures
        cmdline::last_value(text::words(ipxe::command_line(cfg, plan)), keys()[j]) == planned(
            cfg,
            plan,
            keys()[j],
        ),
{
    let key = keys()[j];
    let root = ipxe::root_parts(plan);
    let disk = ipxe::disk_parts(cfg, plan);
    let own = ipxe::identity_parts(plan.record);
    let extra = ipxe::extra_parts(cfg, plan.record);
    lemma_joined(ipxe::parts(cfg, plan), key);
    lemma_last_in_adds_up(root, disk, key);
    lemma_last_in_adds_up(root + disk, own, key);
    lemma_last_in_adds_up(root + disk + own, extra, key);
    lemma_extras(extra, key);
    lemma_root_parts(plan, j);
    lemma_names();
    lemma_picked(j);
    assert(is_name(keys()[5]) && is_name(keys()[6]) && is_name(keys()[7]));
    if plan.portal is Some {
        lemma_opt_setting(
            "rd.stormblock.local-disk="@,
            "rd.stormblock.local-disk"@,
            text::opt_text(cfg.local_disk),
            key,
        );
    }
    if let Some(r) = plan.record {
        let name = seq!["storm.hostname="@ + r.name@];
        let role = ipxe::setting("storm.role="@, text::opt_text(r.role));
        lemma_setting("storm.hostname"@, r.name@, key);
        lemma_opt_setting("storm.role="@, "storm.role"@, text::opt_text(r.role), key);
        lemma_last_in_adds_up(name, role, key);
    }
}

/// The initramfs reads off the command line exactly what the boot server planned:
/// where root comes from, which volume, which disk to flow over onto, and who the
/// machine is. A value that is empty or holds white space cannot stand on a command
/// line, and what an operator adds behind it may say something else.
pub proof fn law_the_initramfs_reads_the_plan(cfg: Config, plan: PlanView)
    requires
        plan_fits(cfg, plan),
        extras_keep_out(cfg, plan),
    ensures
        ({
            let p = cmdline::parsed(ipxe::command_line(cfg, plan));
            &&& p.portal == plan.portal
            &&& p.port == if plan.portal is Some {
                Some(plan.portal_port as nat)
            } else {
                None
            }
            &&& plan.portal is Some ==> p.nqn == plan.nqn && p.volume == plan.volume
                && p.local_disk == text::opt_text(cfg.local_disk) && p.nsid == match plan.nsid {
                Some(n) => Some(n as nat),
                None => None,
            }
            &&& plan.portal is None ==> p.nqn is None && p.volume is None && p.local_disk is None
                && p.nsid is None
            &&& p.hostname == match plan.record {
                Some(r) => Some(r.name@),
                None => None,
            }
            &&& p.role == match plan.record {
                Some(r) => text::opt_text(r.role),
                None => None,
            }
        }),
{
    lemma_said(cfg, plan, 0);
    lemma_said(cfg, plan, 1);
    lemma_said(cfg, plan, 2);
    lemma_said(cfg, plan, 3);
    lemma_said(cfg, plan, 4);
    lemma_said(cfg, plan, 5);
    lemma_said(cfg, plan, 6);
    lemma_said(cfg, plan, 7);
    lemma_picked(0);
    lemma_picked(1);
    lemma_picked(2);
    lemma_picked(3);
    lemma_picked(4);
    lemma_picked(5);
    lemma_picked(6);
    lemma_picked(7);
    text::law_decimals_read_back(plan.portal_port as nat, u16::MAX as nat);
    if let Some(n) = plan.nsid {
        text::law_decimals_read_back(n as nat, u32::MAX as nat);
    }
}

/// A machine with a portal and a claimed volume boots from it over the network, and
/// one without a portal does not boot over the network at all.
pub proof fn law_a_planned_root_is_a_network_boot(cfg: Config, plan: PlanView)
    requires
        plan_fits(cfg, plan),
        extras_keep_out(cfg, plan),
    ensures
        cmdline::uri_of(cmdline::parsed(ipxe::command_line(cfg, plan))) is Some <==> plan.portal
            is Some && plan.nqn is Some,
{
    law_the_initramfs_reads_the_plan(cfg, plan);
}

/// The URI that a planned boot attaches names the plan's own portal, port, NQN and
/// namespace: the number behind the NQN reads back as the plan's, or as 1 where the
/// plan names none.
pub proof fn law_a_planned_root_is_the_one_attached(cfg: Config, plan: PlanView)
    requires
        plan_fits(cfg, plan),
        extras_keep_out(cfg, plan),
        plan.portal is Some,
        plan.nqn is Some,
    ensures
        exists|port: Seq<char>, nsid: Seq<char>|
            {
                &&& cmdline::uri_of(cmdline::parsed(ipxe::command_line(cfg, plan))) == Some(
                    "nvme-tcp://"@ + plan.portal->0 + ":"@ + port + "/"@ + plan.nqn->0 + "?nsid="@
                        + nsid,
                )
                &&& #[trigger] text::all_digits(port) && text::digits_value(port)
                    == plan.portal_port
                &&& #[trigger] text::all_digits(nsid) && text::digits_value(nsid)
                    == plan.nsid.unwrap_or(1)
            },
{
    law_the_initramfs_reads_the_plan(cfg, plan);
    cmdline::law_the_uri_says_what_is_attached(cmdline::parsed(ipxe::command_line(cfg, plan)));
}

// ---------------------------------------------------------------------------
// One setting more

/// What one more token does to what the tokens say.
proof fn lemma_one_token_more(tokens: Seq<Seq<char>>, name: Seq<char>, value: Seq<char>)
    requires
        text::free_of(name, '='),
        value.len() > 0,
    ensures
        forall|key: Seq<char>| #[trigger]
            cmdline::last_value(tokens.push(name + seq!['='] + value), key) == if key == name {
                Some(value)
            } else {
                cmdline::last_value(tokens, key)
            },
        cmdline::last_mac(tokens.push(name + seq!['='] + value)) == if name == "storm.mac"@ || name
            == "BOOTIF"@ {
            Some(cmdline::normalised(value))
        } else {
            cmdline::last_mac(tokens)
        },
        cmdline::all_named(tokens.push(name + seq!['='] + value)) == cmdline::all_named(tokens)
            + if name == "rd.stormblock.slab"@ {
            cmdline::nonempty(text::split(value, ','))
        } else {
            Seq::empty()
        },
{
    let token = name + seq!['='] + value;
    text::law_splits_once(name, '=', value);
    let more = tokens.push(token);
    assert(more.drop_last() =~= tokens);
    assert(more.last() == token);
}

/// One more setting at the end of a command line sets what it names, to the value it
/// gives, and nothing else.
pub proof fn law_a_setting_sets_what_it_names(before: Seq<char>, name: Seq<char>, value: Seq<char>)
    requires
        is_name(name),
        text::one_word(value),
    ensures
        ({
            let p = cmdline::parsed(before);
            let q = cmdline::parsed(before + " "@ + (name + seq!['='] + value));
            &&& q.portal == (if name == "rd.stormblock.portal"@ {
                Some(value)
            } else {
                p.portal
            })
            &&& q.port == (if name == "rd.stormblock.port"@ {
                text::parse_dec(value, 65535)
            } else {
                p.port
            })
            &&& q.nqn == (if name == "rd.stormblock.nqn"@ {
                Some(value)
            } else {
                p.nqn
            })
            &&& q.nsid == (if name == "rd.stormblock.nsid"@ {
                text::parse_dec(value, 4294967295)
            } else {
                p.nsid
            })
            &&& q.volume == (if name == "stormblock.volume"@ {
                Some(value)
            } else {
                p.volume
            })
            &&& q.local_disk == (if name == "rd.stormblock.local-disk"@ {
                Some(value)
            } else {
                p.local_disk
            })
            &&& q.data_slab == (if name == "rd.stormblock.data-slab"@ {
                Some(value)
            } else {
                p.data_slab
            })
            &&& q.media_dev == (if name == "rd.stormnetboot.media"@ {
                Some(value)
            } else {
                p.media_dev
            })
            &&& q.hostname == (if name == "storm.hostname"@ {
                Some(value)
            } else {
                p.hostname
            })
            &&& q.role == (if name == "storm.role"@ {
                Some(value)
            } else {
                p.role
            })
            &&& q.report_url == (if name == "storm.report"@ {
                Some(value)
            } else {
                p.report_url
            })
            &&& !(name == "storm.mac"@ || name == "BOOTIF"@) ==> q.mac == p.mac
            &&& (name == "storm.mac"@ || name == "BOOTIF"@) ==> q.mac is Some
            &&& name == "rd.stormblock.slab"@ && text::free_of(value, ',') ==> q.slabs
                == p.slabs.push(value)
            &&& name != "rd.stormblock.slab"@ ==> q.slabs == p.slabs
        }),
{
    let token = name + seq!['='] + value;
    assert forall|i: int| 0 <= i < token.len() implies !text::is_white(#[trigger] token[i]) by {
        if i < name.len() {
            assert(token[i] == name[i]);
        } else if i > name.len() {
            assert(token[i] == value[i - name.len() - 1]);
        }
    }
    text::law_a_word_is_its_own(token);
    law_words_add_up(before, token);
    let tokens = text::words(before);
    assert(tokens + seq![token] =~= tokens.push(token));
    lemma_one_token_more(tokens, name, value);
    if name == "rd.stormblock.slab"@ && text::free_of(value, ',') {
        text::law_splits(value, ',', Seq::empty());
        let one = seq![value];
        assert(one.skip(1) =~= Seq::<Seq<char>>::empty());
        assert(cmdline::nonempty(one.skip(1)) =~= Seq::<Seq<char>>::empty());
        assert(cmdline::nonempty(one) =~= one);
        assert(cmdline::all_named(tokens) + one =~= cmdline::all_named(tokens).push(value));
    } else if name != "rd.stormblock.slab"@ {
        assert(cmdline::all_named(tokens) + Seq::<Seq<char>>::empty() =~= cmdline::all_named(
            tokens,
        ));
    }
}

/// A word without an equals sign, and a setting with no value, say nothing.
pub proof fn law_a_bare_word_sets_nothing(before: Seq<char>, word: Seq<char>)
    requires
        is_name(word),
    ensures
        cmdline::parsed(before + " "@ + word) == cmdline::parsed(before),
        cmdline::parsed(before + " "@ + (word + seq!['='])) == cmdline::parsed(before),
{
    let token = word + seq!['='];
    assert forall|i: int| 0 <= i < token.len() implies !text::is_white(#[trigger] token[i]) by {
        if i < word.len() {
            assert(token[i] == word[i]);
        }
    }
    let tokens = text::words(before);
    text::law_a_word_is_its_own(word);
    text::law_a_word_is_its_own(token);
    law_words_add_up(before, word);
    law_words_add_up(before, token);
    text::law_not_found(word, '=');
    text::law_splits_once(word, '=', Seq::empty());
    assert(word + seq!['='] + Seq::<char>::empty() =~= token);
    lemma_says_nothing(tokens, word);
    lemma_says_nothing(tokens, token);
    assert(tokens + seq![word] =~= tokens.push(word));
    assert(tokens + seq![token] =~= tokens.push(token));
}

proof fn lemma_says_nothing(tokens: Seq<Seq<char>>, token: Seq<char>)
    requires
        match text::split_once(token, '=') {
            Some((k, v)) => v.len() == 0,
            None => true,
        },
    ensures
        cmdline::params_of(tokens.push(token)) == cmdline::params_of(tokens),
{
    let more = tokens.push(token);
    assert(more.drop_last() =~= tokens);
    assert(more.last() == token);
    assert(cmdline::all_named(tokens) + Seq::<Seq<char>>::empty() =~= cmdline::all_named(tokens));
    assert(cmdline::params_of(more) =~= cmdline::params_of(tokens));
}

/// Several slabs in one setting are those between its commas, in order, and slabs named
/// by several settings add up.
pub proof fn law_slabs_are_listed_in_order(before: Seq<char>, first: Seq<char>, second: Seq<char>)
    requires
        text::one_word(first),
        text::one_word(second),
        text::free_of(first, ','),
        text::free_of(second, ','),
    ensures
        cmdline::parsed(
            before + " "@ + ("rd.stormblock.slab"@ + seq!['='] + (first + seq![','] + second)),
        ).slabs == cmdline::parsed(before).slabs + seq![first, second],
{
    reveal_strlit("rd.stormblock.slab");
    let value = first + seq![','] + second;
    let name = "rd.stormblock.slab"@;
    let token = name + seq!['='] + value;
    assert forall|i: int| 0 <= i < token.len() implies !text::is_white(#[trigger] token[i]) by {
        if i < name.len() {
            assert(token[i] == name[i]);
        } else if i > name.len() {
            let j = i - name.len() - 1;
            assert(token[i] == value[j]);
            if j < first.len() {
                assert(value[j] == first[j]);
            } else if j > first.len() {
                assert(value[j] == second[j - first.len() - 1]);
            }
        }
    }
    text::law_a_word_is_its_own(token);
    law_words_add_up(before, token);
    let tokens = text::words(before);
    assert(tokens + seq![token] =~= tokens.push(token));
    lemma_one_token_more(tokens, name, value);
    text::law_splits(first, ',', second);
    text::law_splits(second, ',', Seq::empty());
    let pieces = seq![first] + seq![second];
    assert(text::split(value, ',') =~= pieces);
    assert(pieces.skip(1) =~= seq![second]);
    assert(seq![second].skip(1) =~= Seq::<Seq<char>>::empty());
    assert(cmdline::nonempty(seq![second].skip(1)) =~= Seq::<Seq<char>>::empty());
    assert(cmdline::nonempty(seq![second]) =~= seq![second]);
    assert(cmdline::nonempty(pieces) =~= seq![first, second]);
}

/// An address is the same with PXE's hardware type in front and without, with dashes
/// and with colons, in capitals and in small letters; and nothing else is changed in
/// it.
pub proof fn law_an_address_is_read_in_one_form(value: Seq<char>, i: int)
    requires
        !text::starts_with(value, "01-"@),
        0 <= i < value.len(),
    ensures
        cmdline::normalised("01-"@ + value) == cmdline::normalised(value),
        cmdline::normalised(value).len() == value.len(),
        cmdline::normalised(value)[i] == (if value[i] == '-' {
            ':'
        } else if 'A' <= value[i] <= 'Z' {
            ((value[i] as u32) + 32) as char
        } else {
            value[i]
        }),
{
    reveal_strlit("01-");
    let long = "01-"@ + value;
    assert(long.take(3) =~= "01-"@);
    assert(long.skip(3) =~= value);
}

// ---------------------------------------------------------------------------
// What a machine is served

/// Whether a script boots with `line` as the arguments behind the initramfs, from `base`.
pub open spec fn boots_with(
    script: Seq<char>,
    front: Seq<char>,
    base: Seq<char>,
    line: Seq<char>,
) -> bool {
    script == front + "\nset base "@ + base
        + "\nkernel ${base}/boot/vmlinuz initrd=initramfs.img "@ + line
        + "\ninitrd ${base}/boot/initramfs.img\nboot\n"@
}

/// A machine that holds a claim is served a script whose command line the initramfs reads
/// as that claim: its address, port and target, its namespace and its volume, under the
/// name and the role of the machine's record. The script is fetched from the server's own
/// URL and says whose it is.
pub proof fn law_a_claim_is_what_the_machine_attaches(
    cfg: Config,
    mac: Mac,
    record: HostRecord,
    claim: ClaimResponse,
)
    requires
        claim.attach is Some,
        text::one_word(claim.attach->0.address@),
        text::one_word(claim.attach->0.target@),
        text::one_word(claim.volume_name@),
        text::one_word(record.name@),
        fits(text::opt_text(record.role)),
        fits(text::opt_text(cfg.local_disk)),
        cfg.extra_cmdline@.len() == 0,
        record.extra_cmdline is None,
    ensures
        exists|front: Seq<char>, base: Seq<char>, line: Seq<char>|
            {
                let p = cmdline::parsed(line);
                let a = claim.attach->0;
                &&& #[trigger] boots_with(
                    http::served(cfg, Some(mac), Some(record), Some(claim)).body,
                    front,
                    base,
                    line,
                )
                &&& front == "#!ipxe\n\n# "@ + mac::canonical(mac@) + " -> "@ + record.name@
                    + "\n"@
                &&& base.is_prefix_of(cfg.base_url@)
                &&& base.len() > 0 ==> base.last() != '/'
                &&& p.portal == Some(a.address@)
                &&& p.port == Some(a.port as nat)
                &&& p.nqn == Some(a.target@)
                &&& p.nsid is Some <==> a.nsid is Some
                &&& a.nsid is Some ==> p.nsid->0 == a.nsid->0
                &&& p.volume == Some(claim.volume_name@)
                &&& p.hostname == Some(record.name@)
                &&& p.role == text::opt_text(record.role)
                &&& p.local_disk == text::opt_text(cfg.local_disk)
            },
        http::served(cfg, Some(mac), Some(record), Some(claim)).status == 200,
{
    let plan = http::claimed(ipxe::unclaimed(cfg, Some(mac), Some(record)), Some(claim));
    assert(ipxe::extra_parts(cfg, plan.record) =~= Seq::<Seq<char>>::empty());
    law_the_initramfs_reads_the_plan(cfg, plan);
    let front = "#!ipxe\n\n# "@ + mac::canonical(mac@) + " -> "@ + record.name@ + "\n"@;
    let base = text::trim_end_char(cfg.base_url@, '/');
    let line = ipxe::command_line(cfg, plan);
    lemma_slashes(cfg.base_url@);
    let body = http::served(cfg, Some(mac), Some(record), Some(claim)).body;
    reveal_strlit("#!ipxe\n\n# ");
    reveal_strlit("#!ipxe\n\n");
    reveal_strlit("# ");
    assert("#!ipxe\n\n# "@ =~= "#!ipxe\n\n"@ + "# "@);
    assert(ipxe::warning(plan) =~= Seq::<char>::empty());
    assert(body =~= front + "\nset base "@ + base
        + "\nkernel ${base}/boot/vmlinuz initrd=initramfs.img "@ + line
        + "\ninitrd ${base}/boot/initramfs.img\nboot\n"@);
    assert(boots_with(body, front, base, line));
}

/// A machine that nothing is claimed for attaches at its record's portal, and at the
/// server's where its record names none; without either it is told nothing of a root, and
/// the script warns of it.
pub proof fn law_an_unclaimed_machine_is_steered(
    cfg: Config,
    mac: Option<Mac>,
    record: Option<HostRecord>,
)
    requires
        fits(text::opt_text(cfg.portal)),
        fits(text::opt_text(cfg.local_disk)),
        cfg.extra_cmdline@.len() == 0,
        record matches Some(r) ==> text::one_word(r.name@) && fits(text::opt_text(r.role)) && fits(
            text::opt_text(r.portal),
        ) && r.extra_cmdline is None,
    ensures
        exists|front: Seq<char>, base: Seq<char>, line: Seq<char>|
            {
                let p = cmdline::parsed(line);
                let own = record is Some && record->0.portal is Some;
                &&& #[trigger] boots_with(
                    http::served(cfg, mac, record, None).body,
                    front,
                    base,
                    line,
                )
                &&& own ==> p.portal == Some(record->0.portal->0@)
                &&& !own ==> p.portal == text::opt_text(cfg.portal)
                &&& p.portal is Some ==> p.port == Some(cfg.portal_port as nat)
                &&& p.portal is None ==> p.port is None
                &&& p.nqn is None && p.nsid is None && p.volume is None
                &&& p.hostname is Some <==> record is Some
                &&& p.hostname is Some ==> p.hostname->0 == record->0.name@
                &&& p.portal is None <==> "# the initramfs has nowhere to attach root from.\n"@.is_suffix_of(
                    front,
                )
            },
{
    let plan = ipxe::unclaimed(cfg, mac, record);
    assert(http::claimed(plan, None) == plan);
    assert(ipxe::extra_parts(cfg, plan.record) =~= Seq::<Seq<char>>::empty());
    law_the_initramfs_reads_the_plan(cfg, plan);
    let front = "#!ipxe\n\n"@ + ipxe::addressee(plan) + ipxe::warning(plan);
    let base = text::trim_end_char(cfg.base_url@, '/');
    let line = ipxe::command_line(cfg, plan);
    assert(boots_with(http::served(cfg, mac, record, None).body, front, base, line));
    lemma_warning(plan);
}

/// Who a script is for is said in front of the warning, and never ends like it.
proof fn lemma_warning(plan: PlanView)
    requires
        plan.record matches Some(r) ==> text::one_word(r.name@),
    ensures
        plan.portal is None <==> "# the initramfs has nowhere to attach root from.\n"@.is_suffix_of(
            "#!ipxe\n\n"@ + ipxe::addressee(plan) + ipxe::warning(plan),
        ),
{
    reveal_strlit("# the initramfs has nowhere to attach root from.\n");
    reveal_strlit(
        "# WARNING: no NVMe/TCP portal for this host. The kernel will boot but\n# the initramfs has nowhere to attach root from.\n",
    );
    reveal_strlit("# ");
    reveal_strlit("\n");
    reveal_strlit(" -> ");
    reveal_strlit(" (no host record; serving defaults)\n");
    reveal_strlit("# no MAC supplied; serving the default boot\n");
    let end = "# the initramfs has nowhere to attach root from.\n"@;
    let front = "#!ipxe\n\n"@ + ipxe::addressee(plan) + ipxe::warning(plan);
    let n = front.len() as int;
    let tail = front.subrange(n - end.len(), n);
    if plan.portal is None {
        assert(tail =~= end);
    } else if end.is_suffix_of(front) {
        assert(tail == end);
        let from = n - end.len();
        assert forall|k: int| from <= k < n implies #[trigger] front[k] == end[k - from] by {
            assert(front[k] == tail[k - from]);
        }
        assert(front =~= "#!ipxe\n\n"@ + ipxe::addressee(plan));
        assert(front[n - 2] == '.' && front[n - 3] == 'm' && front[n - 4] == 'o');
        assert(front[n - 5] == 'r' && front[n - 6] == 'f' && front[n - 7] == ' ');
        assert(front[n - 8] == 't');
        if let (Some(m), Some(r)) = (plan.mac, plan.record) {
            let name = r.name@;
            let before = "#!ipxe\n\n"@ + ("# "@ + mac::canonical(m@));
            assert(front =~= before + " -> "@ + name + "\n"@);
            assert(front[n - 2 - name.len()] == ' ');
            assert(front[n - 3 - name.len()] == '>');
            if name.len() > 5 {
                assert(front[n - 7] == name[name.len() - 6]);
            }
        }
    }
}

proof fn lemma_slashes(s: Seq<char>)
    ensures
        text::trim_end_char(s, '/').is_prefix_of(s),
        text::trim_end_char(s, '/').len() > 0 ==> text::trim_end_char(s, '/').last() != '/',
    decreases s.len(),
{
    if s.len() > 0 && s.last() == '/' {
        lemma_slashes(s.drop_last());
        let t = text::trim_end_char(s.drop_last(), '/');
        assert(s.subrange(0, t.len() as int) =~= s.drop_last().subrange(0, t.len() as int));
    } else {
        assert(s.subrange(0, s.len() as int) =~= s);
    }
}

} // verus!
