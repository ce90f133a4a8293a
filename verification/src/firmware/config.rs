//! Where to attach, and what the boot media says about it.
//!
//! Nothing about a portal belongs in a compiled binary: configuration lives next
//! to it instead, so that a portal that moves is a text edit on the media.
//!
//! Resolution order, first hit wins:
//!
//!   1. `\stormboot\stormboot.conf` on the volume we booted from
//!   2. compiled-in defaults

use crate::firmware::ipv4;
use crate::strings;
use crate::text;
use vstd::prelude::*;
use vstd::string::StringExecFns;

verus! {

/// Path on the ESP holding both the config and the update stamp.
pub const CONF_PATH: &'static str = "\\stormboot\\stormboot.conf";

/// What the extension needs in order to attach.
#[derive(Debug)]
pub struct Config {
    pub portal: [u8; 4],
    pub port: u16,
    pub nqn: String,
    pub nsid: u32,
    /// Digest of the `BOOTX64.EFI` currently on this media, if it has been
    /// stamped. Absent on a stick written by `dd` and never updated.
    pub stamp: Option<String>,
    /// Where the config came from, for the console line.
    pub source: &'static str,
}

#[verifier::ext_equal]
pub struct ConfigView {
    pub portal: Seq<u8>,
    pub port: u16,
    pub nqn: Seq<char>,
    pub nsid: u32,
    pub stamp: Option<Seq<char>>,
    pub source: Seq<char>,
}

impl View for Config {
    type V = ConfigView;

    open spec fn view(&self) -> ConfigView {
        ConfigView {
            portal: self.portal@,
            port: self.port,
            nqn: self.nqn@,
            nsid: self.nsid,
            stamp: text::opt_text(self.stamp),
            source: self.source@,
        }
    }
}

pub fn parse_ipv4(s: &str) -> (r: Option<[u8; 4]>)
    ensures
        ipv4::opt_address(r) == ipv4::address(s@, true),
{
    ipv4::parse(s, true)
}

/// A value without the quotes around it.
pub open spec fn unquoted(v: Seq<char>) -> Seq<char> {
    text::trim_end_char(text::trim_start_char(v, '"'), '"')
}

/// The value that a line gives for `key`. Comments, and lines that give it no
/// value, give none.
pub open spec fn line_value(line: Seq<char>, key: Seq<char>) -> Option<Seq<char>> {
    let l = text::trim(line);
    if l.len() == 0 || l[0] == '#' {
        None
    } else {
        match text::split_once(l, '=') {
            None => None,
            Some((k, v)) => if text::trim(k) == key && unquoted(text::trim(v)).len() > 0 {
                Some(unquoted(text::trim(v)))
            } else {
                None
            },
        }
    }
}

/// The first value that the lines give for `key`.
pub open spec fn first_value(lines: Seq<Seq<char>>, key: Seq<char>) -> Option<Seq<char>>
    decreases lines.len(),
{
    if lines.len() == 0 {
        None
    } else {
        match line_value(lines[0], key) {
            Some(v) => Some(v),
            None => first_value(lines.skip(1), key),
        }
    }
}

fn value_of(line: &str, key: &str) -> (r: Option<String>)
    ensures
        text::opt_text(r) == line_value(line@, key@),
{
    let l = strings::trim(line);
    let chars = strings::chars_of(l.as_str());
    if chars.len() == 0 || chars[0] == '#' {
        return None;
    }
    match strings::split_once(l.as_str(), '=') {
        None => None,
        Some((k, v)) => {
            let name = strings::trim(k.as_str());
            let trimmed = strings::trim(v.as_str());
            let open = strings::trim_start_char(trimmed.as_str(), '"');
            let value = strings::trim_end_char(open.as_str(), '"');
            if strings::eq(name.as_str(), key) && !strings::is_empty(value.as_str()) {
                Some(value)
            } else {
                None
            }
        },
    }
}

/// Pull `key = value` out of a flat config file, ignoring comments.
pub fn field(body: &str, key: &str) -> (r: Option<String>)
    ensures
        text::opt_text(r) == first_value(text::lines(body@), key@),
{
    let list = strings::lines(body);
    let ghost all = text::texts(list@);
    let mut i: usize = 0;
    assert(all.skip(0) == all);
    while i < list.len()
        invariant
            i <= list@.len(),
            all == text::texts(list@),
            all == text::lines(body@),
            first_value(all, key@) == first_value(all.skip(i as int), key@),
        decreases list@.len() - i,
    {
        assert(all.skip(i as int)[0] == list@[i as int]@);
        if let Some(v) = value_of(list[i].as_str(), key) {
            return Some(v);
        }
        assert(all.skip(i as int).skip(1) == all.skip(i + 1));
        i = i + 1;
    }
    None
}

/// What a config file comes to. Each setting it carries counts on its own: a typo
/// in `nsid` must not silently move the portal back to a compiled value the
/// operator thought they had replaced.
pub open spec fn configured(body: Seq<char>, defaults: ConfigView) -> ConfigView {
    let lines = text::lines(body);
    ConfigView {
        portal: match first_value(lines, "portal"@) {
            Some(s) => match ipv4::address(s, true) {
                Some(a) => a,
                None => defaults.portal,
            },
            None => defaults.portal,
        },
        port: text::number_or(first_value(lines, "port"@), 65535, defaults.port as nat) as u16,
        nqn: match first_value(lines, "nqn"@) {
            Some(n) => n,
            None => defaults.nqn,
        },
        nsid: text::number_or(first_value(lines, "nsid"@), 0xFFFF_FFFF, defaults.nsid as nat) as u32,
        stamp: first_value(lines, "stamp"@),
        source: CONF_PATH@,
    }
}

pub open spec fn compiled(portal: Seq<u8>, port: u16, nqn: Seq<char>, nsid: u32) -> ConfigView {
    ConfigView { portal, port, nqn, nsid, stamp: None, source: "compiled defaults"@ }
}

/// Resolve where to attach, from what the config file holds.
///
/// Never fails: a stick with no config still boots against the compiled defaults,
/// which is what makes a blank stick useful before anyone has edited anything onto
/// it.
pub fn resolve(
    body: Option<&str>,
    default_portal: [u8; 4],
    default_port: u16,
    default_nqn: &str,
    default_nsid: u32,
) -> (r: Config)
    ensures
        r@ == match body {
            Some(b) => configured(
                b@,
                compiled(default_portal@, default_port, default_nqn@, default_nsid),
            ),
            None => compiled(default_portal@, default_port, default_nqn@, default_nsid),
        },
{
    let body = match body {
        Some(b) => b,
        None => return Config {
            portal: default_portal,
            port: default_port,
            nqn: default_nqn.to_owned(),
            nsid: default_nsid,
            stamp: None,
            source: "compiled defaults",
        },
    };
    let portal = match field(body, "portal") {
        Some(s) => match parse_ipv4(s.as_str()) {
            Some(a) => a,
            None => default_portal,
        },
        None => default_portal,
    };
    let port: u64 = strings::number_or(&field(body, "port"), 65535, default_port as u64);
    let nqn = match field(body, "nqn") {
        Some(n) => n,
        None => default_nqn.to_owned(),
    };
    let nsid: u64 = strings::number_or(&field(body, "nsid"), 0xFFFF_FFFF, default_nsid as u64);
    Config {
        portal,
        port: port as u16,
        nqn,
        nsid: nsid as u32,
        stamp: field(body, "stamp"),
        source: CONF_PATH,
    }
}

/// A config file with these settings and this stamp.
pub open spec fn rendered(cfg: ConfigView, stamp: Seq<char>) -> Seq<char> {
    "# stormbootx — edit this rather than rebuilding the binary.\n"@
        + "# Written back by the self-update path; the stamp is the digest of\n"@
        + "# the BOOTX64.EFI currently on this media.\n"@ + "portal = "@ + ipv4::dotted(cfg.portal)
        + "\n"@ + "port   = "@ + text::dec(cfg.port as nat) + "\n"@ + "nqn    = "@ + cfg.nqn + "\n"@
        + "nsid   = "@ + text::dec(cfg.nsid as nat) + "\n"@ + "stamp  = "@ + stamp + "\n"@
}

/// Render a config file, preserving the attach settings and recording a new stamp.
/// Used by the self-update path after it replaces `BOOTX64.EFI`.
pub fn render(cfg: &Config, stamp: &str) -> (r: String)
    ensures
        r@ == rendered(cfg@, stamp@),
{
    let mut out = strings::concat(
        "# stormbootx — edit this rather than rebuilding the binary.\n",
        "# Written back by the self-update path; the stamp is the digest of\n",
    );
    out.append("# the BOOTX64.EFI currently on this media.\n");
    out.append("portal = ");
    out.append(ipv4::show(&cfg.portal).as_str());
    out.append("\n");
    out.append("port   = ");
    out.append(strings::dec(cfg.port as u64).as_str());
    out.append("\n");
    out.append("nqn    = ");
    out.append(cfg.nqn.as_str());
    out.append("\n");
    out.append("nsid   = ");
    out.append(strings::dec(cfg.nsid as u64).as_str());
    out.append("\n");
    out.append("stamp  = ");
    out.append(stamp);
    out.append("\n");
    out
}

// ---------------------------------------------------------------------------
// Laws

/// Whether a value stands on one line and has neither white space nor a quote at
/// either end.
pub open spec fn plain(v: Seq<char>) -> bool {
    &&& text::is_trimmed(v)
    &&& text::free_of(v, '\n')
    &&& v[0] != '"'
    &&& v.last() != '"'
}

/// What a config file is rendered with reads back, whatever the defaults: editing
/// the stamp never moves a machine to another target.
pub proof fn law_rendered_settings_read_back(
    cfg: ConfigView,
    stamp: Seq<char>,
    defaults: ConfigView,
)
    requires
        cfg.portal.len() == 4,
        plain(cfg.nqn),
        plain(stamp),
    ensures
        configured(rendered(cfg, stamp), defaults) == (ConfigView {
            stamp: Some(stamp),
            source: CONF_PATH@,
            ..cfg
        }),
{
    let address = ipv4::dotted(cfg.portal);
    let port = text::dec(cfg.port as nat);
    let nsid = text::dec(cfg.nsid as nat);
    ipv4::law_dotted_reads_back(cfg.portal, true);
    text::law_decimals_read_back(cfg.port as nat, 65535);
    text::law_decimals_read_back(cfg.nsid as nat, 0xFFFF_FFFF);
    text::law_digits_are_plain(port, '\n');
    text::law_digits_are_plain(port, '"');
    text::law_digits_are_plain(nsid, '\n');
    text::law_digits_are_plain(nsid, '"');
    assert(port[0] != '"' && port.last() != '"' && nsid[0] != '"' && nsid.last() != '"');
    lemma_lines(cfg, stamp);
    let lines = text::lines(rendered(cfg, stamp));
    lemma_comments();
    lemma_finds(
        first_comment(),
        second_comment(),
        third_comment(),
        address,
        port,
        cfg.nqn,
        nsid,
        stamp,
    );
    assert(configured(rendered(cfg, stamp), defaults) =~= (ConfigView {
        stamp: Some(stamp),
        source: CONF_PATH@,
        ..cfg
    }));
}

/// What a config file of these lines says.
proof fn lemma_finds(
    c1: Seq<char>,
    c2: Seq<char>,
    c3: Seq<char>,
    address: Seq<char>,
    port: Seq<char>,
    nqn: Seq<char>,
    nsid: Seq<char>,
    stamp: Seq<char>,
)
    requires
        c1.len() > 0,
        c2.len() > 0,
        c3.len() > 0,
        c1[0] == '#',
        c2[0] == '#',
        c3[0] == '#',
        plain(address),
        plain(port),
        plain(nqn),
        plain(nsid),
        plain(stamp),
    ensures
        ({
            let lines = seq![
                c1,
                c2,
                c3,
                "portal = "@ + address,
                "port   = "@ + port,
                "nqn    = "@ + nqn,
                "nsid   = "@ + nsid,
                "stamp  = "@ + stamp,
            ];
            &&& first_value(lines, "portal"@) == Some(address)
            &&& first_value(lines, "port"@) == Some(port)
            &&& first_value(lines, "nqn"@) == Some(nqn)
            &&& first_value(lines, "nsid"@) == Some(nsid)
            &&& first_value(lines, "stamp"@) == Some(stamp)
        }),
{
    let lines = seq![
        c1,
        c2,
        c3,
        "portal = "@ + address,
        "port   = "@ + port,
        "nqn    = "@ + nqn,
        "nsid   = "@ + nsid,
        "stamp  = "@ + stamp,
    ];
    lemma_keys_differ();
    lemma_find(lines, "portal"@, address, port, nqn, nsid, stamp, 3);
    lemma_find(lines, "port"@, address, port, nqn, nsid, stamp, 4);
    lemma_find(lines, "nqn"@, address, port, nqn, nsid, stamp, 5);
    lemma_find(lines, "nsid"@, address, port, nqn, nsid, stamp, 6);
    lemma_find(lines, "stamp"@, address, port, nqn, nsid, stamp, 7);
    lemma_names(address);
    lemma_names(port);
    lemma_names(nqn);
    lemma_names(nsid);
    lemma_names(stamp);
}

/// The first line that gives `key` a value is the one at `n`.
proof fn lemma_find(
    lines: Seq<Seq<char>>,
    key: Seq<char>,
    address: Seq<char>,
    port: Seq<char>,
    nqn: Seq<char>,
    nsid: Seq<char>,
    stamp: Seq<char>,
    n: int,
)
    requires
        lines.len() == 8,
        lines[0].len() > 0,
        lines[1].len() > 0,
        lines[2].len() > 0,
        lines[0][0] == '#',
        lines[1][0] == '#',
        lines[2][0] == '#',
        lines[3] == "portal = "@ + address,
        lines[4] == "port   = "@ + port,
        lines[5] == "nqn    = "@ + nqn,
        lines[6] == "nsid   = "@ + nsid,
        lines[7] == "stamp  = "@ + stamp,
        plain(address),
        plain(port),
        plain(nqn),
        plain(nsid),
        plain(stamp),
        3 <= n < 8,
        n == 3 <==> key == "portal"@,
        n == 4 <==> key == "port"@,
        n == 5 <==> key == "nqn"@,
        n == 6 <==> key == "nsid"@,
        n == 7 <==> key == "stamp"@,
    ensures
        first_value(lines, key) == line_value(lines[n], key),
{
    lemma_names(address);
    lemma_names(port);
    lemma_names(nqn);
    lemma_names(nsid);
    lemma_names(stamp);
    lemma_comment(lines[0], key);
    lemma_comment(lines[1], key);
    lemma_comment(lines[2], key);
    assert forall|i: int| 0 <= i < n implies line_value(#[trigger] lines[i], key) is None by {
        assert(i == 0 || i == 1 || i == 2 || i == 3 || i == 4 || i == 5 || i == 6);
    }
    lemma_search(lines, key, n);
}

/// The line `n` is the first that gives the key a value.
proof fn lemma_search(lines: Seq<Seq<char>>, key: Seq<char>, n: int)
    requires
        0 <= n < lines.len(),
        forall|i: int| 0 <= i < n ==> line_value(#[trigger] lines[i], key) is None,
        line_value(lines[n], key) is Some,
    ensures
        first_value(lines, key) == line_value(lines[n], key),
    decreases n,
{
    if n > 0 {
        let rest = lines.skip(1);
        assert(line_value(lines[0], key) is None);
        assert forall|i: int| 0 <= i < n - 1 implies line_value(#[trigger] rest[i], key) is None by {
            assert(rest[i] == lines[i + 1]);
        }
        assert(rest[n - 1] == lines[n]);
        lemma_search(rest, key, n - 1);
    }
}

/// A line made of a name, an equals sign and a plain value.
proof fn lemma_setting(lit: Seq<char>, spaces: nat, key: Seq<char>, v: Seq<char>, asked: Seq<char>)
    requires
        lit == key + Seq::new(spaces, |i: int| ' ') + seq!['='] + seq![' '],
        text::is_trimmed(key),
        text::free_of(key, '='),
        key[0] != '#',
        plain(v),
    ensures
        line_value(lit + v, asked) == if asked == key {
            Some(v)
        } else {
            None
        },
        text::strip_cr(lit + v) == lit + v,
{
    let head = key + Seq::new(spaces, |i: int| ' ');
    let line = lit + v;
    assert(line =~= head + seq!['='] + (seq![' '] + v));
    assert(line[0] == key[0]);
    assert(line.last() == v.last());
    text::law_trimmed(line);
    assert forall|i: int| 0 <= i < head.len() implies #[trigger] head[i] != '=' by {
        if i < key.len() {
            assert(head[i] == key[i]);
        }
    }
    text::law_splits_once(head, '=', seq![' '] + v);
    text::law_trims_back(key, ' ', spaces);
    text::law_trims_front(' ', v);
    assert(text::trim_start_char(v, '"') == v);
    assert(text::trim_end_char(v, '"') == v);
    assert(unquoted(v) == v);
}

/// A line that starts with `#` gives no key a value.
proof fn lemma_comment(line: Seq<char>, key: Seq<char>)
    requires
        line.len() > 0,
        line[0] == '#',
    ensures
        line_value(line, key) is None,
{
    text::law_trim_keeps_the_first(line);
}

pub open spec fn first_comment() -> Seq<char> {
    "# stormbootx — edit this rather than rebuilding the binary.\n"@.drop_last()
}

pub open spec fn second_comment() -> Seq<char> {
    "# Written back by the self-update path; the stamp is the digest of\n"@.drop_last()
}

pub open spec fn third_comment() -> Seq<char> {
    "# the BOOTX64.EFI currently on this media.\n"@.drop_last()
}

proof fn lemma_comments()
    ensures
        text::free_of(first_comment(), '\n'),
        text::free_of(second_comment(), '\n'),
        text::free_of(third_comment(), '\n'),
        first_comment()[0] == '#',
        second_comment()[0] == '#',
        third_comment()[0] == '#',
        first_comment().len() > 0,
        second_comment().len() > 0,
        third_comment().len() > 0,
        first_comment().last() != '\r',
        second_comment().last() != '\r',
        third_comment().last() != '\r',
        "# stormbootx — edit this rather than rebuilding the binary.\n"@ == first_comment()
            + seq!['\n'],
        "# Written back by the self-update path; the stamp is the digest of\n"@ == second_comment()
            + seq!['\n'],
        "# the BOOTX64.EFI currently on this media.\n"@ == third_comment() + seq!['\n'],
{
    reveal_strlit("# stormbootx — edit this rather than rebuilding the binary.\n");
    reveal_strlit("# Written back by the self-update path; the stamp is the digest of\n");
    reveal_strlit("# the BOOTX64.EFI currently on this media.\n");
    assert("# stormbootx — edit this rather than rebuilding the binary.\n"@ =~= first_comment()
        + seq!['\n']);
    assert("# Written back by the self-update path; the stamp is the digest of\n"@
        =~= second_comment() + seq!['\n']);
    assert("# the BOOTX64.EFI currently on this media.\n"@ =~= third_comment() + seq!['\n']);
}

proof fn lemma_keys_differ()
    ensures
        "portal"@ != "port"@,
        "portal"@ != "nqn"@,
        "portal"@ != "nsid"@,
        "portal"@ != "stamp"@,
        "port"@ != "nqn"@,
        "port"@ != "nsid"@,
        "port"@ != "stamp"@,
        "nqn"@ != "nsid"@,
        "nqn"@ != "stamp"@,
        "nsid"@ != "stamp"@,
{
    reveal_strlit("portal");
    reveal_strlit("port");
    reveal_strlit("nqn");
    reveal_strlit("nsid");
    reveal_strlit("stamp");
    assert("portal"@.len() == 6 && "port"@.len() == 4 && "nqn"@.len() == 3 && "nsid"@.len() == 4
        && "stamp"@.len() == 5);
    assert("port"@[0] == 'p' && "nsid"@[0] == 'n');
}

/// What each line says, for a plain value.
proof fn lemma_names(v: Seq<char>)
    requires
        plain(v),
    ensures
        forall|key: Seq<char>| #[trigger]
            line_value("portal = "@ + v, key) == if key == "portal"@ {
                Some(v)
            } else {
                None
            },
        forall|key: Seq<char>| #[trigger]
            line_value("port   = "@ + v, key) == if key == "port"@ {
                Some(v)
            } else {
                None
            },
        forall|key: Seq<char>| #[trigger]
            line_value("nqn    = "@ + v, key) == if key == "nqn"@ {
                Some(v)
            } else {
                None
            },
        forall|key: Seq<char>| #[trigger]
            line_value("nsid   = "@ + v, key) == if key == "nsid"@ {
                Some(v)
            } else {
                None
            },
        forall|key: Seq<char>| #[trigger]
            line_value("stamp  = "@ + v, key) == if key == "stamp"@ {
                Some(v)
            } else {
                None
            },
{
    lemma_literals();
    assert forall|key: Seq<char>| #[trigger]
        line_value("portal = "@ + v, key) == if key == "portal"@ {
            Some(v)
        } else {
            None
        } by {
        lemma_setting("portal = "@, 1, "portal"@, v, key);
    }
    assert forall|key: Seq<char>| #[trigger]
        line_value("port   = "@ + v, key) == if key == "port"@ {
            Some(v)
        } else {
            None
        } by {
        lemma_setting("port   = "@, 3, "port"@, v, key);
    }
    assert forall|key: Seq<char>| #[trigger]
        line_value("nqn    = "@ + v, key) == if key == "nqn"@ {
            Some(v)
        } else {
            None
        } by {
        lemma_setting("nqn    = "@, 4, "nqn"@, v, key);
    }
    assert forall|key: Seq<char>| #[trigger]
        line_value("nsid   = "@ + v, key) == if key == "nsid"@ {
            Some(v)
        } else {
            None
        } by {
        lemma_setting("nsid   = "@, 3, "nsid"@, v, key);
    }
    assert forall|key: Seq<char>| #[trigger]
        line_value("stamp  = "@ + v, key) == if key == "stamp"@ {
            Some(v)
        } else {
            None
        } by {
        lemma_setting("stamp  = "@, 2, "stamp"@, v, key);
    }
}

/// How a setting's literal is made up.
spec fn made_of(lit: Seq<char>, key: Seq<char>, spaces: nat) -> bool {
    &&& lit == key + Seq::new(spaces, |i: int| ' ') + seq!['='] + seq![' ']
    &&& text::is_trimmed(key)
    &&& text::free_of(key, '=')
    &&& text::free_of(lit, '\n')
    &&& key[0] != '#'
}

proof fn lemma_literals()
    ensures
        made_of("portal = "@, "portal"@, 1),
        made_of("port   = "@, "port"@, 3),
        made_of("nqn    = "@, "nqn"@, 4),
        made_of("nsid   = "@, "nsid"@, 3),
        made_of("stamp  = "@, "stamp"@, 2),
{
    reveal_strlit("portal = ");
    reveal_strlit("port   = ");
    reveal_strlit("nqn    = ");
    reveal_strlit("nsid   = ");
    reveal_strlit("stamp  = ");
    reveal_strlit("portal");
    reveal_strlit("port");
    reveal_strlit("nqn");
    reveal_strlit("nsid");
    reveal_strlit("stamp");
    assert("portal = "@ =~= "portal"@ + Seq::new(1, |i: int| ' ') + seq!['='] + seq![' ']);
    assert("port   = "@ =~= "port"@ + Seq::new(3, |i: int| ' ') + seq!['='] + seq![' ']);
    assert("nqn    = "@ =~= "nqn"@ + Seq::new(4, |i: int| ' ') + seq!['='] + seq![' ']);
    assert("nsid   = "@ =~= "nsid"@ + Seq::new(3, |i: int| ' ') + seq!['='] + seq![' ']);
    assert("stamp  = "@ =~= "stamp"@ + Seq::new(2, |i: int| ' ') + seq!['='] + seq![' ']);
}

proof fn lemma_line_free(lit: Seq<char>, v: Seq<char>)
    requires
        text::free_of(lit, '\n'),
        plain(v),
    ensures
        text::free_of(lit + v, '\n'),
        text::strip_cr(lit + v) == lit + v,
{
    let line = lit + v;
    assert forall|i: int| 0 <= i < line.len() implies #[trigger] line[i] != '\n' by {
        if i < lit.len() {
            assert(line[i] == lit[i]);
        } else {
            assert(line[i] == v[i - lit.len()]);
        }
    }
    assert(line.last() == v.last());
}

proof fn lemma_regroup(x: Seq<char>, lit: Seq<char>, v: Seq<char>, rest: Seq<char>)
    ensures
        (x + lit + v + seq!['\n']) + rest == x + ((lit + v) + seq!['\n'] + rest),
{
    assert((x + lit + v + seq!['\n']) + rest =~= x + ((lit + v) + seq!['\n'] + rest));
}

/// A text of eight lines has those lines.
proof fn lemma_eight_lines(
    a: Seq<char>,
    b: Seq<char>,
    c: Seq<char>,
    d: Seq<char>,
    e: Seq<char>,
    f: Seq<char>,
    g: Seq<char>,
    h: Seq<char>,
)
    requires
        whole_line(a),
        whole_line(b),
        whole_line(c),
        whole_line(d),
        whole_line(e),
        whole_line(f),
        whole_line(g),
        whole_line(h),
    ensures
        ({
            let nl = seq!['\n'];
            let none = Seq::<char>::empty();
            text::lines(
                a + nl + (b + nl + (c + nl + (d + nl + (e + nl + (f + nl + (g + nl + (h + nl
                    + none))))))),
            ) == seq![a, b, c, d, e, f, g, h]
        }),
{
    let nl = seq!['\n'];
    let none = Seq::<char>::empty();
    let r8 = h + nl + none;
    let r7 = g + nl + r8;
    let r6 = f + nl + r7;
    let r5 = e + nl + r6;
    let r4 = d + nl + r5;
    let r3 = c + nl + r4;
    let r2 = b + nl + r3;
    text::law_first_line(h, none);
    text::law_first_line(g, r8);
    text::law_first_line(f, r7);
    text::law_first_line(e, r6);
    text::law_first_line(d, r5);
    text::law_first_line(c, r4);
    text::law_first_line(b, r3);
    text::law_first_line(a, r2);
    assert(text::lines(none) == Seq::<Seq<char>>::empty());
    assert(seq![a] + (seq![b] + (seq![c] + (seq![d] + (seq![e] + (seq![f] + (seq![g] + (seq![h]
        + Seq::<Seq<char>>::empty()))))))) =~= seq![a, b, c, d, e, f, g, h]);
}

/// Whether a text is a line by itself.
spec fn whole_line(s: Seq<char>) -> bool {
    text::free_of(s, '\n') && text::strip_cr(s) == s
}

proof fn lemma_regroup_comments(c1: Seq<char>, c2: Seq<char>, c3: Seq<char>, rest: Seq<char>)
    ensures
        ((c1 + seq!['\n']) + (c2 + seq!['\n']) + (c3 + seq!['\n'])) + rest == c1 + seq!['\n'] + (c2
            + seq!['\n'] + (c3 + seq!['\n'] + rest)),
{
    assert(((c1 + seq!['\n']) + (c2 + seq!['\n']) + (c3 + seq!['\n'])) + rest =~= c1 + seq!['\n'] + (
    c2 + seq!['\n'] + (c3 + seq!['\n'] + rest)));
}

/// The lines of a rendered config file.
proof fn lemma_lines(cfg: ConfigView, stamp: Seq<char>)
    requires
        plain(ipv4::dotted(cfg.portal)),
        plain(text::dec(cfg.port as nat)),
        plain(cfg.nqn),
        plain(text::dec(cfg.nsid as nat)),
        plain(stamp),
    ensures
        text::lines(rendered(cfg, stamp)) == seq![
            first_comment(),
            second_comment(),
            third_comment(),
            "portal = "@ + ipv4::dotted(cfg.portal),
            "port   = "@ + text::dec(cfg.port as nat),
            "nqn    = "@ + cfg.nqn,
            "nsid   = "@ + text::dec(cfg.nsid as nat),
            "stamp  = "@ + stamp,
        ],
{
    reveal_strlit("\n");
    let nl = seq!['\n'];
    assert("\n"@ =~= nl);
    lemma_comments();
    lemma_literals();
    let (c1, c2, c3) = (first_comment(), second_comment(), third_comment());
    let l4 = "portal = "@ + ipv4::dotted(cfg.portal);
    let l5 = "port   = "@ + text::dec(cfg.port as nat);
    let l6 = "nqn    = "@ + cfg.nqn;
    let l7 = "nsid   = "@ + text::dec(cfg.nsid as nat);
    let l8 = "stamp  = "@ + stamp;
    lemma_line_free("portal = "@, ipv4::dotted(cfg.portal));
    lemma_line_free("port   = "@, text::dec(cfg.port as nat));
    lemma_line_free("nqn    = "@, cfg.nqn);
    lemma_line_free("nsid   = "@, text::dec(cfg.nsid as nat));
    lemma_line_free("stamp  = "@, stamp);
    let none = Seq::<char>::empty();
    let r8 = l8 + nl + none;
    let r7 = l7 + nl + r8;
    let r6 = l6 + nl + r7;
    let r5 = l5 + nl + r6;
    let r4 = l4 + nl + r5;
    let r3 = c3 + nl + r4;
    let r2 = c2 + nl + r3;
    let r1 = c1 + nl + r2;
    let x3 = (c1 + nl) + (c2 + nl) + (c3 + nl);
    let x4 = x3 + "portal = "@ + ipv4::dotted(cfg.portal) + nl;
    let x5 = x4 + "port   = "@ + text::dec(cfg.port as nat) + nl;
    let x6 = x5 + "nqn    = "@ + cfg.nqn + nl;
    let x7 = x6 + "nsid   = "@ + text::dec(cfg.nsid as nat) + nl;
    let x8 = x7 + "stamp  = "@ + stamp + nl;
    assert(rendered(cfg, stamp) == x8);
    assert(x8 + none =~= x8);
    lemma_regroup(x7, "stamp  = "@, stamp, none);
    lemma_regroup(x6, "nsid   = "@, text::dec(cfg.nsid as nat), r8);
    lemma_regroup(x5, "nqn    = "@, cfg.nqn, r7);
    lemma_regroup(x4, "port   = "@, text::dec(cfg.port as nat), r6);
    lemma_regroup(x3, "portal = "@, ipv4::dotted(cfg.portal), r5);
    lemma_regroup_comments(c1, c2, c3, r4);
    assert(rendered(cfg, stamp) == r1);
    lemma_eight_lines(c1, c2, c3, l4, l5, l6, l7, l8);
}

} // verus!
