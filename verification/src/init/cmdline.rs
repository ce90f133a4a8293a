//! Kernel command line parsing.
//!
//! The parameter names are the engine's existing contract. Two traps live here and
//! both are load-bearing:
//!
//! * `stormblock.volume` has **no** `rd.` prefix. Every neighbouring parameter does,
//!   so it reads like a typo and gets "corrected" into a name nothing parses.
//! * `rd.stormblock.port` has no default. On the NVMe/TCP path the port is per
//!   export and arrives from the claim; guessing one attaches the wrong thing.

use crate::strings;
use crate::text;
use vstd::prelude::*;
use vstd::string::StringExecFns;

verus! {

/// Everything the initramfs needs, taken from `/proc/cmdline`.
#[derive(Debug, Clone, PartialEq, Eq)]
pub struct BootParams {
    /// NVMe/TCP portal address (host or IP, never `host:port`).
    pub portal: Option<String>,
    /// Portal port. Per-export, so there is no safe default.
    pub port: Option<u16>,
    /// Subsystem NQN to attach.
    pub nqn: Option<String>,
    /// Namespace within that subsystem.
    pub nsid: Option<u32>,
    /// Volume to boot from within the attached slab.
    pub volume: Option<String>,
    /// Local disk to assimilate onto in the background.
    pub local_disk: Option<String>,
    /// Identity pinned at PXE time.
    pub hostname: Option<String>,
    pub role: Option<String>,
    /// Where to report boot progress.
    pub report_url: Option<String>,
    /// This machine's MAC, so reports identify it the same way the server does.
    pub mac: Option<String>,
    /// Local slabs to attach instead of, or alongside, the network root.
    pub slabs: Vec<String>,
    /// The slab holding node identity and per-service data. Attached like any other
    /// slab, but tracked separately because it is the one thing an install must
    /// never format.
    pub data_slab: Option<String>,
    /// The ESP this machine booted from, when it booted from local media rather
    /// than PXE. Absent means the media refresh does not run at all.
    pub media_dev: Option<String>,
}

#[verifier::ext_equal]
pub struct ParamsView {
    pub portal: Option<Seq<char>>,
    pub port: Option<nat>,
    pub nqn: Option<Seq<char>>,
    pub nsid: Option<nat>,
    pub volume: Option<Seq<char>>,
    pub local_disk: Option<Seq<char>>,
    pub hostname: Option<Seq<char>>,
    pub role: Option<Seq<char>>,
    pub report_url: Option<Seq<char>>,
    pub mac: Option<Seq<char>>,
    pub slabs: Seq<Seq<char>>,
    pub data_slab: Option<Seq<char>>,
    pub media_dev: Option<Seq<char>>,
}

impl View for BootParams {
    type V = ParamsView;

    open spec fn view(&self) -> ParamsView {
        ParamsView {
            portal: text::opt_text(self.portal),
            port: match self.port {
                Some(n) => Some(n as nat),
                None => None,
            },
            nqn: text::opt_text(self.nqn),
            nsid: match self.nsid {
                Some(n) => Some(n as nat),
                None => None,
            },
            volume: text::opt_text(self.volume),
            local_disk: text::opt_text(self.local_disk),
            hostname: text::opt_text(self.hostname),
            role: text::opt_text(self.role),
            report_url: text::opt_text(self.report_url),
            mac: text::opt_text(self.mac),
            slabs: text::texts(self.slabs@),
            data_slab: text::opt_text(self.data_slab),
            media_dev: text::opt_text(self.media_dev),
        }
    }
}

impl Default for BootParams {
    fn default() -> (r: Self)
        ensures
            r@ == params_of(Seq::empty()),
    {
        let r = BootParams {
            portal: None,
            port: None,
            nqn: None,
            nsid: None,
            volume: None,
            local_disk: None,
            hostname: None,
            role: None,
            report_url: None,
            mac: None,
            slabs: Vec::new(),
            data_slab: None,
            media_dev: None,
        };
        assert(r@ =~= params_of(Seq::empty()));
        r
    }
}

// ---------------------------------------------------------------------------
// Tokens

/// What `token` sets `key` to: a bare word and an empty value set nothing.
pub open spec fn named(token: Seq<char>, key: Seq<char>) -> Option<Seq<char>> {
    match text::split_once(token, '=') {
        Some((k, v)) if k == key && v.len() > 0 => Some(v),
        _ => None,
    }
}

/// What the last of `tokens` to set `key` sets it to.
pub open spec fn last_value(tokens: Seq<Seq<char>>, key: Seq<char>) -> Option<Seq<char>>
    decreases tokens.len(),
{
    if tokens.len() == 0 {
        None
    } else {
        match named(tokens.last(), key) {
            Some(v) => Some(v),
            None => last_value(tokens.drop_last(), key),
        }
    }
}

pub open spec fn opt_dec(v: Option<Seq<char>>, max: nat) -> Option<nat> {
    match v {
        Some(s) => text::parse_dec(s, max),
        None => None,
    }
}

/// A MAC address as it stands everywhere else: without the hardware type that PXE
/// puts in front of it, with colons, in lowercase.
pub open spec fn normalised(value: Seq<char>) -> Seq<char> {
    let bare = match text::strip_prefix(value, "01-"@) {
        Some(rest) => rest,
        None => value,
    };
    text::to_lower(text::replace(bare, '-', ':'))
}

/// The MAC address that the last of `tokens` to name one names.
pub open spec fn last_mac(tokens: Seq<Seq<char>>) -> Option<Seq<char>>
    decreases tokens.len(),
{
    if tokens.len() == 0 {
        None
    } else {
        match named(tokens.last(), "storm.mac"@) {
            Some(v) => Some(normalised(v)),
            None => match named(tokens.last(), "BOOTIF"@) {
                Some(v) => Some(normalised(v)),
                None => last_mac(tokens.drop_last()),
            },
        }
    }
}

pub open spec fn nonempty(pieces: Seq<Seq<char>>) -> Seq<Seq<char>>
    decreases pieces.len(),
{
    if pieces.len() == 0 {
        Seq::empty()
    } else {
        (if pieces[0].len() > 0 {
            seq![pieces[0]]
        } else {
            Seq::empty()
        }) + nonempty(pieces.skip(1))
    }
}

/// The slabs that one token names, separated by commas.
pub open spec fn slabs_in(token: Seq<char>) -> Seq<Seq<char>> {
    match named(token, "rd.stormblock.slab"@) {
        Some(v) => nonempty(text::split(v, ',')),
        None => Seq::empty(),
    }
}

/// The slabs that `tokens` name, all of them, in order.
pub open spec fn all_named(tokens: Seq<Seq<char>>) -> Seq<Seq<char>>
    decreases tokens.len(),
{
    if tokens.len() == 0 {
        Seq::empty()
    } else {
        all_named(tokens.drop_last()) + slabs_in(tokens.last())
    }
}

pub open spec fn params_of(tokens: Seq<Seq<char>>) -> ParamsView {
    ParamsView {
        portal: last_value(tokens, "rd.stormblock.portal"@),
        port: opt_dec(last_value(tokens, "rd.stormblock.port"@), u16::MAX as nat),
        nqn: last_value(tokens, "rd.stormblock.nqn"@),
        nsid: opt_dec(last_value(tokens, "rd.stormblock.nsid"@), u32::MAX as nat),
        volume: last_value(tokens, "stormblock.volume"@),
        local_disk: last_value(tokens, "rd.stormblock.local-disk"@),
        hostname: last_value(tokens, "storm.hostname"@),
        role: last_value(tokens, "storm.role"@),
        report_url: last_value(tokens, "storm.report"@),
        mac: last_mac(tokens),
        slabs: all_named(tokens),
        data_slab: last_value(tokens, "rd.stormblock.data-slab"@),
        media_dev: last_value(tokens, "rd.stormnetboot.media"@),
    }
}

/// What a command line says.
pub open spec fn parsed(cmdline: Seq<char>) -> ParamsView {
    params_of(text::words(cmdline))
}

fn normalise_bootif(value: &str) -> (r: String)
    ensures
        r@ == normalised(value@),
{
    match strings::strip_prefix(value, "01-") {
        Some(rest) => strings::to_lower(strings::replace(rest.as_str(), '-', ':').as_str()),
        None => strings::to_lower(strings::replace(value, '-', ':').as_str()),
    }
}

/// The value for `wanted` once `key` has been set to `value`.
fn newest(was: Option<String>, key: &str, value: &str, wanted: &str) -> (r: Option<String>)
    ensures
        text::opt_text(r) == if key@ == wanted@ {
            Some(value@)
        } else {
            text::opt_text(was)
        },
{
    if strings::eq(key, wanted) {
        Some(value.to_owned())
    } else {
        was
    }
}

fn add_slabs(slabs: &mut Vec<String>, value: &str)
    ensures
        text::texts(final(slabs)@) == text::texts(old(slabs)@) + nonempty(text::split(value@, ',')),
{
    let pieces = strings::split(value, ',');
    let ghost all = text::texts(pieces@);
    let ghost was = text::texts(slabs@);
    let mut i: usize = 0;
    assert(all.skip(0) == all);
    while i < pieces.len()
        invariant
            i <= pieces@.len(),
            all == text::texts(pieces@),
            text::texts(slabs@) + nonempty(all.skip(i as int)) == was + nonempty(all),
        decreases pieces@.len() - i,
    {
        let ghost rest = nonempty(all.skip(i + 1));
        assert(all.skip(i as int).skip(1) == all.skip(i + 1));
        assert(all[i as int] == pieces@[i as int]@);
        if !strings::is_empty(pieces[i].as_str()) {
            let piece = pieces[i].clone();
            assert(text::texts(slabs@.push(piece)) + rest == text::texts(slabs@) + (seq![piece@]
                + rest));
            slabs.push(piece);
        } else {
            assert(Seq::<Seq<char>>::empty() + rest == rest);
        }
        i = i + 1;
    }
    assert(text::texts(slabs@) + Seq::<Seq<char>>::empty() == text::texts(slabs@));
}

impl BootParams {
    /// Takes in one more token.
    fn accept(self, token: &str, Ghost(before): Ghost<Seq<Seq<char>>>) -> (r: Self)
        requires
            self@ == params_of(before),
        ensures
            r@ == params_of(before.push(token@)),
    {
        let mut p = self;
        let ghost tokens = before.push(token@);
        assert(tokens.drop_last() == before);
        assert(tokens.last() == token@);
        let pair = strings::split_once(token, '=');
        let Some((key, value)) = pair else {
            assert(p@ =~= params_of(tokens));
            return p;
        };
        if strings::is_empty(value.as_str()) {
            assert(p@ =~= params_of(tokens));
            return p;
        }
        let k = key.as_str();
        let v = value.as_str();
        p.portal = newest(p.portal, k, v, "rd.stormblock.portal");
        if strings::eq(k, "rd.stormblock.port") {
            p.port = match strings::parse_dec(v, 65535) {
                Some(n) => Some(n as u16),
                None => None,
            };
        }
        p.nqn = newest(p.nqn, k, v, "rd.stormblock.nqn");
        if strings::eq(k, "rd.stormblock.nsid") {
            p.nsid = match strings::parse_dec(v, 4294967295) {
                Some(n) => Some(n as u32),
                None => None,
            };
        }
        // No `rd.` prefix: this is the engine's existing spelling.
        p.volume = newest(p.volume, k, v, "stormblock.volume");
        p.local_disk = newest(p.local_disk, k, v, "rd.stormblock.local-disk");
        if strings::eq(k, "rd.stormblock.slab") {
            add_slabs(&mut p.slabs, v);
        }
        p.data_slab = newest(p.data_slab, k, v, "rd.stormblock.data-slab");
        p.media_dev = newest(p.media_dev, k, v, "rd.stormnetboot.media");
        p.hostname = newest(p.hostname, k, v, "storm.hostname");
        p.role = newest(p.role, k, v, "storm.role");
        p.report_url = newest(p.report_url, k, v, "storm.report");
        if strings::eq(k, "storm.mac") || strings::eq(k, "BOOTIF") {
            p.mac = Some(normalise_bootif(v));
        }
        assert(p@ =~= params_of(tokens));
        p
    }

    pub fn parse(cmdline: &str) -> (r: Self)
        ensures
            r@ == parsed(cmdline@),
    {
        let tokens = strings::words(cmdline);
        let ghost all = text::texts(tokens@);
        let mut p = BootParams::default();
        let mut i: usize = 0;
        assert(all.take(0) == Seq::<Seq<char>>::empty());
        while i < tokens.len()
            invariant
                i <= tokens@.len(),
                all == text::texts(tokens@),
                p@ == params_of(all.take(i as int)),
            decreases tokens@.len() - i,
        {
            assert(all[i as int] == tokens@[i as int]@);
            assert(all.take(i + 1) == all.take(i as int).push(tokens@[i as int]@));
            p = p.accept(tokens[i].as_str(), Ghost(all.take(i as int)));
            i = i + 1;
        }
        assert(all.take(i as int) == all);
        p
    }
}

// ---------------------------------------------------------------------------
// Where root comes from

/// The URI that the engine takes wherever it takes a device path. Nothing unless
/// portal, port and NQN are all there: a partial set can only produce a URI that
/// attaches something unintended.
pub open spec fn uri_of(p: ParamsView) -> Option<Seq<char>> {
    match (p.portal, p.port, p.nqn) {
        (Some(portal), Some(port), Some(nqn)) => Some(
            "nvme-tcp://"@ + portal + ":"@ + text::dec(port) + "/"@ + nqn + "?nsid="@ + text::dec(
                match p.nsid {
                    Some(n) => n,
                    None => 1,
                },
            ),
        ),
        _ => None,
    }
}

/// The slabs with the data slab behind them, unless it is among them already.
pub open spec fn with_data(slabs: Seq<Seq<char>>, data: Option<Seq<char>>) -> Seq<Seq<char>> {
    match data {
        Some(d) if !slabs.contains(d) => slabs.push(d),
        _ => slabs,
    }
}

/// The slabs but for `d`.
pub open spec fn others(slabs: Seq<Seq<char>>, d: Seq<char>) -> Seq<Seq<char>>
    decreases slabs.len(),
{
    if slabs.len() == 0 {
        Seq::empty()
    } else {
        others(slabs.drop_last(), d) + if slabs.last() == d {
            Seq::empty()
        } else {
            seq![slabs.last()]
        }
    }
}

/// Every slab to attach, in order: the root source first, then the data slab, then
/// any others named. Without a network root the slabs named are the root source.
pub open spec fn slabs_of(p: ParamsView) -> Seq<Seq<char>> {
    match uri_of(p) {
        None => with_data(p.slabs, p.data_slab),
        Some(uri) => match p.data_slab {
            Some(d) if d != uri => seq![uri, d] + others(p.slabs, d),
            _ => seq![uri] + p.slabs,
        },
    }
}

/// The names of the settings that a network boot needs and `p` lacks.
pub open spec fn missing_names(p: ParamsView) -> Seq<Seq<char>> {
    (if p.portal is None {
        seq!["rd.stormblock.portal"@]
    } else {
        Seq::empty()
    }) + (if p.port is None {
        seq!["rd.stormblock.port"@]
    } else {
        Seq::empty()
    }) + (if p.nqn is None {
        seq!["rd.stormblock.nqn"@]
    } else {
        Seq::empty()
    })
}

pub open spec fn strs(v: Seq<&'static str>) -> Seq<Seq<char>> {
    v.map_values(|s: &'static str| s@)
}

/// The root source with the slabs behind it.
fn after_root(uri: String, slabs: &Vec<String>) -> (r: Vec<String>)
    ensures
        text::texts(r@) == seq![uri@] + text::texts(slabs@),
{
    let mut r = strings::clone_texts(slabs);
    r.insert(0, uri);
    assert(text::texts(r@) =~= seq![uri@] + text::texts(slabs@));
    r
}

/// Adds the data slab unless it is there already.
pub(crate) fn add_data(slabs: &mut Vec<String>, data: &Option<String>)
    ensures
        text::texts(final(slabs)@) == with_data(text::texts(old(slabs)@), text::opt_text(*data)),
{
    let Some(d) = data else {
        return ;
    };
    let ghost all = text::texts(slabs@);
    let mut i: usize = 0;
    while i < slabs.len()
        invariant
            i <= slabs@.len(),
            all == text::texts(slabs@),
            *slabs == *old(slabs),
            *data == Some(*d),
            forall|j: int| 0 <= j < i ==> #[trigger] all[j] != d@,
        decreases slabs@.len() - i,
    {
        assert(all[i as int] == slabs@[i as int]@);
        if strings::eq(slabs[i].as_str(), d.as_str()) {
            assert(all.contains(d@));
            return ;
        }
        i = i + 1;
    }
    assert(!all.contains(d@));
    slabs.push(d.clone());
    assert(text::texts(slabs@) =~= all.push(d@));
}

// ---------------------------------------------------------------------------
// Devices

/// How much of `s` it takes to get behind its last `c`; none when there is none.
pub open spec fn behind_last(s: Seq<char>, c: char) -> nat
    decreases s.len(),
{
    if s.len() == 0 || s.last() == c {
        s.len()
    } else {
        behind_last(s.drop_last(), c)
    }
}

/// The name in a path: what stands behind its last slash.
pub open spec fn file_name(path: Seq<char>) -> Seq<char> {
    path.skip(behind_last(path, '/') as int)
}

/// What stands in front of the name in a path.
pub open spec fn directory(path: Seq<char>) -> Seq<char> {
    path.take(behind_last(path, '/') as int)
}

/// The device of a partition such as `nvme0n1p2` or `mmcblk0p1`: a `p` behind a
/// digit and in front of nothing but digits is a partition suffix.
pub open spec fn numbered_device(name: Seq<char>) -> Option<Seq<char>> {
    let k = behind_last(name, 'p') as int;
    if k >= 2 && name.skip(k).len() > 0 && text::all_digits(name.skip(k)) && text::is_digit(
        name[k - 2],
    ) {
        Some(name.take(k - 1))
    } else {
        None
    }
}

/// Whether digits at the end of a name belong to the device itself.
pub open spec fn is_numbered(name: Seq<char>) -> bool {
    text::starts_with(name, "nvme"@) || text::starts_with(name, "mmcblk"@) || text::starts_with(
        name,
        "loop"@,
    )
}

/// The whole device that a path is on. Two naming schemes, and conflating them is
/// the trap: `sda2` is a partition of `sda`, but `nvme0n1` is a whole device whose
/// name simply ends in a digit.
pub open spec fn device(path: Seq<char>) -> Seq<char> {
    match numbered_device(file_name(path)) {
        Some(head) => directory(path) + head,
        None => if is_numbered(file_name(path)) {
            path
        } else {
            directory(path) + text::trim_end_digits(file_name(path))
        },
    }
}

fn position_behind_last(chars: &Vec<char>, c: char) -> (k: usize)
    ensures
        k == behind_last(chars@, c),
        k <= chars@.len(),
        k > 0 ==> chars@[k - 1] == c,
{
    let mut k: usize = chars.len();
    assert(chars@.take(k as int) == chars@);
    while 0 < k && chars[k - 1] != c
        invariant
            k <= chars@.len(),
            behind_last(chars@, c) == behind_last(chars@.take(k as int), c),
        decreases k,
    {
        assert(chars@.take(k as int).drop_last() == chars@.take(k - 1));
        k = k - 1;
    }
    k
}

fn all_digits_from(chars: &Vec<char>, from: usize) -> (r: bool)
    requires
        from <= chars@.len(),
    ensures
        r == text::all_digits(chars@.skip(from as int)),
{
    let ghost rest = chars@.skip(from as int);
    let mut i: usize = from;
    while i < chars.len()
        invariant
            from <= i <= chars@.len(),
            rest == chars@.skip(from as int),
            forall|j: int| 0 <= j < i - from ==> text::is_digit(#[trigger] rest[j]),
        decreases chars@.len() - i,
    {
        assert(rest[i - from] == chars@[i as int]);
        if !strings::is_digit(chars[i]) {
            return false;
        }
        i = i + 1;
    }
    true
}

fn partition_of(name: &str) -> (r: Option<String>)
    ensures
        text::opt_text(r) == numbered_device(name@),
{
    let chars = strings::chars_of(name);
    let k = position_behind_last(&chars, 'p');
    if k >= 2 && k < chars.len() && all_digits_from(&chars, k) && strings::is_digit(chars[k - 2]) {
        assert(chars@.subrange(0, k - 1) == chars@.take(k - 1));
        Some(strings::range(&chars, 0, k - 1))
    } else {
        None
    }
}

/// Reduces a partition path to its whole device, so that `/dev/sda2` and `/dev/sda`
/// come out the same.
pub fn device_base(path: &str) -> (r: String)
    ensures
        r@ == device(path@),
{
    let chars = strings::chars_of(path);
    let k = position_behind_last(&chars, '/');
    assert(chars@.subrange(0, k as int) == chars@.take(k as int));
    assert(chars@.subrange(k as int, chars@.len() as int) == chars@.skip(k as int));
    let prefix = strings::range(&chars, 0, k);
    let name = strings::range(&chars, k, chars.len());
    if let Some(head) = partition_of(name.as_str()) {
        return strings::concat(prefix.as_str(), head.as_str());
    }
    if strings::starts_with(name.as_str(), "nvme") || strings::starts_with(
        name.as_str(),
        "mmcblk",
    ) || strings::starts_with(name.as_str(), "loop") {
        return path.to_owned();
    }
    strings::concat(prefix.as_str(), strings::trim_end_digits(name.as_str()).as_str())
}

/// The whole device of a path whose name carries a partition suffix behind a `p`.
pub open spec fn parent(path: Seq<char>) -> Option<Seq<char>> {
    match numbered_device(file_name(path)) {
        Some(head) => Some(directory(path) + head),
        None => None,
    }
}

fn parent_of(path: &str) -> (r: Option<String>)
    ensures
        text::opt_text(r) == parent(path@),
{
    let chars = strings::chars_of(path);
    let k = position_behind_last(&chars, '/');
    assert(chars@.subrange(0, k as int) == chars@.take(k as int));
    assert(chars@.subrange(k as int, chars@.len() as int) == chars@.skip(k as int));
    let name = strings::range(&chars, k, chars.len());
    match partition_of(name.as_str()) {
        Some(head) => Some(
            strings::concat(strings::range(&chars, 0, k).as_str(), head.as_str()),
        ),
        None => None,
    }
}

/// Whether two paths are on one device. Not every device whose own name ends in a digit
/// can be told by its name, such as `md0` or `nbd0`; so one that carries a partition
/// suffix is held against the other as it stands, too.
pub open spec fn share_a_device(a: Seq<char>, b: Seq<char>) -> bool {
    device(a) == device(b) || parent(a) == Some(b) || parent(b) == Some(a)
}

fn on_one_device(a: &str, b: &str) -> (r: bool)
    ensures
        r == share_a_device(a@, b@),
{
    if strings::eq(device_base(a).as_str(), device_base(b).as_str()) {
        return true;
    }
    if let Some(whole) = parent_of(a) {
        if strings::eq(whole.as_str(), b) {
            return true;
        }
    }
    if let Some(whole) = parent_of(b) {
        if strings::eq(whole.as_str(), a) {
            return true;
        }
    }
    false
}

/// Why a flow-over is refused: it formats its target, and that is the disk with the
/// data slab on it.
pub open spec fn objection(p: ParamsView) -> Option<Seq<char>> {
    match (p.local_disk, p.data_slab) {
        (Some(disk), Some(data)) if share_a_device(disk, data) => Some(
            "refusing flow-over onto "@ + disk + ": it holds the data slab "@ + data
                + ", and formatting it would destroy this node's identity"@,
        ),
        _ => None,
    }
}

impl BootParams {
    /// The `nvme-tcp://` URI of a remote root. This is what makes it an ordinary
    /// slab.
    pub fn nvme_uri(&self) -> (r: Option<String>)
        ensures
            text::opt_text(r) == uri_of(self@),
    {
        let Some(portal) = &self.portal else {
            return None;
        };
        let Some(port) = self.port else {
            return None;
        };
        let Some(nqn) = &self.nqn else {
            return None;
        };
        let nsid: u32 = match self.nsid {
            Some(n) => n,
            None => 1,
        };
        let mut uri = strings::concat("nvme-tcp://", portal.as_str());
        uri.append(":");
        uri.append(strings::dec(port as u64).as_str());
        uri.append("/");
        uri.append(nqn.as_str());
        uri.append("?nsid=");
        uri.append(strings::dec(nsid as u64).as_str());
        Some(uri)
    }

    /// Whether this is a network boot at all.
    pub fn is_network_boot(&self) -> (r: bool)
        ensures
            r == (uri_of(self@) is Some),
    {
        self.nvme_uri().is_some()
    }

    /// Every slab to attach, in order: the root source first, then the data slab,
    /// then any others named.
    ///
    /// The data slab is attached like any other; what makes it special is only that
    /// nothing may format it.
    pub fn all_slabs(&self) -> (r: Vec<String>)
        ensures
            text::texts(r@) == slabs_of(self@),
    {
        let Some(uri) = self.nvme_uri() else {
            let mut slabs = strings::clone_texts(&self.slabs);
            add_data(&mut slabs, &self.data_slab);
            return slabs;
        };
        let Some(data) = &self.data_slab else {
            return after_root(uri, &self.slabs);
        };
        if strings::eq(data.as_str(), uri.as_str()) {
            return after_root(uri, &self.slabs);
        }
        let mut slabs: Vec<String> = Vec::new();
        slabs.push(uri);
        slabs.push(data.clone());
        let ghost first = text::texts(slabs@);
        let mut i: usize = 0;
        assert(first =~= seq![uri@, data@]);
        assert(first + Seq::<Seq<char>>::empty() =~= first);
        while i < self.slabs.len()
            invariant
                i <= self.slabs@.len(),
                text::texts(slabs@) == first + others(self@.slabs.take(i as int), data@),
            decreases self.slabs@.len() - i,
        {
            let ghost next = self@.slabs.take(i + 1);
            let ghost was = text::texts(slabs@);
            assert(next.drop_last() == self@.slabs.take(i as int));
            assert(next.last() == self.slabs@[i as int]@);
            if !strings::eq(self.slabs[i].as_str(), data.as_str()) {
                slabs.push(self.slabs[i].clone());
                assert(text::texts(slabs@) =~= was + seq![next.last()]);
            }
            assert(text::texts(slabs@) =~= first + others(next, data@));
            i = i + 1;
        }
        assert(self@.slabs.take(i as int) == self@.slabs);
        slabs
    }

    /// Refuses a flow-over that would destroy the data slab. Devices are compared,
    /// so that a data slab on `/dev/sda2` also protects against a flow-over onto
    /// `/dev/sda`.
    pub fn check_local_disk(&self) -> (r: Result<(), String>)
        ensures
            match r {
                Ok(()) => objection(self@) is None,
                Err(said) => objection(self@) == Some(said@),
            },
    {
        let Some(disk) = &self.local_disk else {
            return Ok(());
        };
        let Some(data) = &self.data_slab else {
            return Ok(());
        };
        if on_one_device(disk.as_str(), data.as_str()) {
            let mut said = strings::concat("refusing flow-over onto ", disk.as_str());
            said.append(": it holds the data slab ");
            said.append(data.as_str());
            said.append(", and formatting it would destroy this node's identity");
            return Err(said);
        }
        Ok(())
    }

    /// What is missing for a network boot.
    pub fn missing(&self) -> (r: Vec<&'static str>)
        ensures
            strs(r@) == missing_names(self@),
    {
        let mut missing: Vec<&'static str> = Vec::new();
        if self.portal.is_none() {
            missing.push("rd.stormblock.portal");
        }
        if self.port.is_none() {
            missing.push("rd.stormblock.port");
        }
        if self.nqn.is_none() {
            missing.push("rd.stormblock.nqn");
        }
        assert(strs(missing@) =~= missing_names(self@));
        missing
    }
}

// ---------------------------------------------------------------------------
// Laws

/// The root source of a network boot comes first.
pub proof fn law_the_root_source_comes_first(p: ParamsView)
    requires
        uri_of(p) is Some,
    ensures
        slabs_of(p).len() > 0,
        slabs_of(p)[0] == uri_of(p)->0,
{
}

/// The data slab is attached, and attached once, whether or not it is also named as
/// a slab.
pub proof fn law_the_data_slab_is_attached_once(p: ParamsView)
    requires
        p.data_slab is Some,
        p.data_slab != uri_of(p),
        p.slabs.no_duplicates(),
    ensures
        slabs_of(p).to_multiset().count(p.data_slab->0) == 1,
{
    broadcast use vstd::seq_lib::group_to_multiset_ensures;

    let d = p.data_slab->0;
    match uri_of(p) {
        Some(uri) => {
            let first = seq![uri, d];
            let rest = others(p.slabs, d);
            lemma_others(p.slabs, d);
            vstd::seq_lib::lemma_multiset_commutative(first, rest);
            assert(first =~= Seq::empty().push(uri).push(d));
            assert(!rest.contains(d));
            assert(rest.to_multiset().count(d) == 0);
            assert(first.to_multiset().count(d) == 1);
        },
        None => {
            if p.slabs.contains(d) {
                p.slabs.lemma_multiset_has_no_duplicates();
                assert(p.slabs.to_multiset().count(d) > 0);
                assert(p.slabs.to_multiset().contains(d));
            } else {
                assert(p.slabs.to_multiset().count(d) == 0);
            }
        },
    }
}

proof fn lemma_others(slabs: Seq<Seq<char>>, d: Seq<char>)
    ensures
        !others(slabs, d).contains(d),
    decreases slabs.len(),
{
    if slabs.len() > 0 {
        lemma_others(slabs.drop_last(), d);
        let head = others(slabs.drop_last(), d);
        if others(slabs, d).contains(d) {
            let i = choose|i: int| 0 <= i < others(slabs, d).len() && others(slabs, d)[i] == d;
            if i < head.len() {
                assert(head[i] == d);
            }
        }
    }
}

/// Characters that are no `c` move nothing behind the last `c`.
proof fn lemma_behind_last(s: Seq<char>, more: Seq<char>, c: char)
    requires
        text::free_of(more, c),
    ensures
        behind_last(s + more, c) == behind_last(s, c),
        behind_last(s, c) <= s.len(),
    decreases more.len(), s.len(),
{
    let t = s + more;
    if more.len() > 0 {
        assert(t.last() == more.last());
        assert(t.drop_last() =~= s + more.drop_last());
        lemma_behind_last(s, more.drop_last(), c);
    } else {
        assert(t =~= s);
        if s.len() > 0 && s.last() != c {
            lemma_behind_last(s.drop_last(), more, c);
            assert(s.drop_last() + more =~= s.drop_last());
        }
    }
}

/// A path that goes on without a slash goes on in its name.
proof fn lemma_longer_name(path: Seq<char>, more: Seq<char>)
    requires
        text::free_of(more, '/'),
    ensures
        file_name(path + more) == file_name(path) + more,
        directory(path + more) == directory(path),
        directory(path) + file_name(path) == path,
{
    lemma_behind_last(path, more, '/');
    let k = behind_last(path, '/') as int;
    assert((path + more).skip(k) =~= path.skip(k) + more);
    assert((path + more).take(k) =~= path.take(k));
    assert(path.take(k) + path.skip(k) =~= path);
}

/// What a word starts with does not come from digits behind it.
proof fn lemma_no_word_from_digits(name: Seq<char>, digits: Seq<char>, word: Seq<char>)
    requires
        text::all_digits(digits),
        forall|i: int| 0 <= i < word.len() ==> !text::is_digit(#[trigger] word[i]),
    ensures
        text::starts_with(name + digits, word) == text::starts_with(name, word),
{
    let all = name + digits;
    if word.len() <= name.len() {
        assert(all.take(word.len() as int) =~= name.take(word.len() as int));
    } else if text::starts_with(all, word) {
        assert(all.take(word.len() as int)[name.len() as int] == digits[0]);
        assert(text::is_digit(word[name.len() as int]));
    }
}

proof fn lemma_still_not_numbered(name: Seq<char>, digits: Seq<char>)
    requires
        text::all_digits(digits),
    ensures
        is_numbered(name + digits) == is_numbered(name),
{
    reveal_strlit("nvme");
    reveal_strlit("mmcblk");
    reveal_strlit("loop");
    lemma_no_word_from_digits(name, digits, "nvme"@);
    lemma_no_word_from_digits(name, digits, "mmcblk"@);
    lemma_no_word_from_digits(name, digits, "loop"@);
}

proof fn lemma_digits_trimmed(name: Seq<char>, digits: Seq<char>)
    requires
        name.len() > 0,
        !text::is_digit(name.last()),
        text::all_digits(digits),
    ensures
        text::trim_end_digits(name + digits) == name,
    decreases digits.len(),
{
    let t = name + digits;
    if digits.len() == 0 {
        assert(t =~= name);
    } else {
        assert(t.last() == digits.last());
        assert(t.drop_last() =~= name + digits.drop_last());
        lemma_digits_trimmed(name, digits.drop_last());
    }
}

/// A disk such as `/dev/sda` and its partitions, such as `/dev/sda2`, are one device.
/// A name that ends in a digit and a `p` is left out: digits behind that make a
/// partition of another device.
pub proof fn law_partitions_share_their_disk(disk: Seq<char>, digits: Seq<char>)
    requires
        disk.len() > 0,
        disk.last() != '/',
        !text::is_digit(disk.last()),
        !(disk.len() > 1 && disk.last() == 'p' && text::is_digit(disk[disk.len() - 2])),
        !is_numbered(file_name(disk)),
        text::all_digits(digits),
    ensures
        device(disk) == disk,
        device(disk + digits) == disk,
{
    lemma_partitions(disk, digits);
    lemma_partitions(disk, Seq::empty());
    assert(disk + Seq::<char>::empty() =~= disk);
}

proof fn lemma_partitions(disk: Seq<char>, digits: Seq<char>)
    requires
        disk.len() > 0,
        disk.last() != '/',
        !text::is_digit(disk.last()),
        !(disk.len() > 1 && disk.last() == 'p' && text::is_digit(disk[disk.len() - 2])),
        !is_numbered(file_name(disk)),
        text::all_digits(digits),
    ensures
        device(disk + digits) == disk,
{
    lemma_longer_name(disk, digits);
    lemma_behind_last(disk, Seq::empty(), '/');
    let at = behind_last(disk, '/') as int;
    let name = file_name(disk);
    if at == disk.len() {
        lemma_last_before(disk, '/');
    }
    assert(name.len() > 0 && name.last() == disk.last());
    let long = name + digits;
    lemma_behind_last(name, digits, 'p');
    let k = behind_last(name, 'p') as int;
    if numbered_device(long) is Some {
        if k < name.len() {
            assert(long.skip(k)[name.len() - 1 - k] == name.last());
        } else {
            lemma_last_before(name, 'p');
            assert(name[k - 2] == disk[disk.len() - 2]);
        }
    }
    lemma_still_not_numbered(name, digits);
    lemma_digits_trimmed(name, digits);
}

proof fn lemma_last_before(s: Seq<char>, c: char)
    ensures
        behind_last(s, c) > 0 ==> s[behind_last(s, c) - 1] == c,
        behind_last(s, c) <= s.len(),
    decreases s.len(),
{
    if s.len() > 0 && s.last() != c {
        lemma_last_before(s.drop_last(), c);
    }
}

/// A device whose name ends in a digit, such as `/dev/nvme0n1`, and its partitions,
/// such as `/dev/nvme0n1p2`, are one device.
pub proof fn law_numbered_partitions_share_their_device(disk: Seq<char>, digits: Seq<char>)
    requires
        disk.len() > 0,
        text::is_digit(disk.last()),
        digits.len() > 0,
        text::all_digits(digits),
    ensures
        device(disk + seq!['p'] + digits) == disk,
        parent(disk + seq!['p'] + digits) == Some(disk),
        share_a_device(disk, disk + seq!['p'] + digits),
        is_numbered(file_name(disk)) && numbered_device(file_name(disk)) is None ==> device(disk)
            == disk,
{
    let suffix = seq!['p'] + digits;
    assert(disk + seq!['p'] + digits =~= disk + suffix);
    lemma_longer_name(disk, suffix);
    let name = file_name(disk);
    lemma_last_before(disk, '/');
    assert(name.len() > 0 && name.last() == disk.last());
    let short = name + seq!['p'];
    assert(name + suffix =~= short + digits);
    lemma_behind_last(short, digits, 'p');
    assert(behind_last(short, 'p') == short.len());
    let k = short.len() as int;
    assert((short + digits).skip(k) =~= digits);
    assert((short + digits)[k - 2] == name.last());
    assert((short + digits).take(k - 1) =~= name);
}

/// A flow-over is refused exactly when its target and the data slab are on one device.
pub proof fn law_the_data_slab_is_never_formatted(p: ParamsView)
    ensures
        objection(p) is Some <==> p.local_disk is Some && p.data_slab is Some && share_a_device(
            p.local_disk->0,
            p.data_slab->0,
        ),
{
}

/// No partition hides the disk it is on: neither one that is digits behind a name, nor
/// one that is a `p` and digits behind a name that ends in a digit itself, whatever that
/// name is. It does not matter which of the two the flow-over is aimed at.
pub proof fn law_a_partition_protects_its_disk(p: ParamsView, disk: Seq<char>, digits: Seq<char>)
    requires
        p.local_disk is Some,
        p.data_slab is Some,
        disk.len() > 0,
        digits.len() > 0,
        text::all_digits(digits),
        ({
            let partition = if text::is_digit(disk.last()) {
                disk + seq!['p'] + digits
            } else {
                disk + digits
            };
            ||| p.local_disk == Some(disk) && p.data_slab == Some(partition)
            ||| p.local_disk == Some(partition) && p.data_slab == Some(disk)
        }),
        !text::is_digit(disk.last()) ==> disk.last() != '/' && !is_numbered(file_name(disk)) && !(
        disk.len() > 1 && disk.last() == 'p' && text::is_digit(disk[disk.len() - 2])),
    ensures
        objection(p) is Some,
{
    if text::is_digit(disk.last()) {
        law_numbered_partitions_share_their_device(disk, digits);
    } else {
        law_partitions_share_their_disk(disk, digits);
    }
}

/// A setting that is missing is what keeps a boot from being a network boot.
pub proof fn law_what_is_missing_explains_it(p: ParamsView)
    ensures
        uri_of(p) is None <==> missing_names(p).len() > 0,
{
}

/// Where two texts that go on behind a mark are the same, and the mark stands in
/// neither front, the fronts are the same and so are the ends.
proof fn lemma_parts(a: Seq<char>, b: Seq<char>, c: char, x: Seq<char>, y: Seq<char>)
    requires
        text::free_of(a, c),
        text::free_of(b, c),
        a + seq![c] + x == b + seq![c] + y,
    ensures
        a == b,
        x == y,
{
    text::law_splits_once(a, c, x);
    text::law_splits_once(b, c, y);
}

/// The namespace that a boot attaches: the one named, or the first.
pub open spec fn namespace(p: ParamsView) -> nat {
    match p.nsid {
        Some(n) => n,
        None => 1,
    }
}

/// The URI in its parts: the portal and the port that the command line names, the NQN,
/// and behind it the namespace, each number in decimal.
pub proof fn law_the_uri_says_what_is_attached(p: ParamsView)
    requires
        p.portal is Some,
        p.port is Some,
        p.nqn is Some,
    ensures
        exists|port: Seq<char>, nsid: Seq<char>|
            {
                &&& uri_of(p) == Some(
                    "nvme-tcp://"@ + p.portal->0 + ":"@ + port + "/"@ + p.nqn->0 + "?nsid="@ + nsid,
                )
                &&& port.len() > 0 && #[trigger] text::all_digits(port) && text::digits_value(port)
                    == p.port->0
                &&& nsid.len() > 0 && #[trigger] text::all_digits(nsid) && text::digits_value(nsid)
                    == p.nsid.unwrap_or(1)
            },
{
    let port = text::dec(p.port->0);
    let nsid = text::dec(namespace(p));
    text::law_decimals_read_back(p.port->0, p.port->0);
    text::law_decimals_read_back(namespace(p), namespace(p));
    assert(text::all_digits(port) && text::all_digits(nsid));
}

/// The URI determines what is attached: two boots with the same URI attach the same
/// namespace of the same subsystem at the same portal and port. A portal with a colon
/// in it, or an NQN with a question mark, could be read in two ways.
pub proof fn law_the_uri_determines_what_is_attached(p: ParamsView, q: ParamsView)
    requires
        uri_of(p) is Some,
        uri_of(p) == uri_of(q),
        text::free_of(p.portal->0, ':'),
        text::free_of(q.portal->0, ':'),
        text::free_of(p.nqn->0, '?'),
        text::free_of(q.nqn->0, '?'),
    ensures
        p.portal == q.portal,
        p.port == q.port,
        p.nqn == q.nqn,
        p.nsid.unwrap_or(1) == q.nsid.unwrap_or(1),
{
    let mark = seq!['n', 's', 'i', 'd', '='];
    let rest_p = p.nqn->0 + seq!['?'] + (mark + text::dec(namespace(p)));
    let rest_q = q.nqn->0 + seq!['?'] + (mark + text::dec(namespace(q)));
    let tail_p = text::dec(p.port->0) + seq!['/'] + rest_p;
    let tail_q = text::dec(q.port->0) + seq!['/'] + rest_q;
    lemma_uri_parts(p);
    lemma_uri_parts(q);
    lemma_parts(p.portal->0, q.portal->0, ':', tail_p, tail_q);
    lemma_decimal_parts(p.port->0, q.port->0, rest_p, rest_q);
    lemma_parts(
        p.nqn->0,
        q.nqn->0,
        '?',
        mark + text::dec(namespace(p)),
        mark + text::dec(namespace(q)),
    );
    lemma_same_number(mark, namespace(p), namespace(q));
}

proof fn lemma_uri_parts(p: ParamsView)
    requires
        uri_of(p) is Some,
    ensures
        uri_of(p)->0.skip(11) == p.portal->0 + seq![':'] + (text::dec(p.port->0) + seq!['/'] + (
        p.nqn->0 + seq!['?'] + (seq!['n', 's', 'i', 'd', '='] + text::dec(namespace(p))))),
{
    reveal_strlit("nvme-tcp://");
    reveal_strlit(":");
    reveal_strlit("/");
    reveal_strlit("?nsid=");
    let portal = p.portal->0;
    let port = text::dec(p.port->0);
    let nqn = p.nqn->0;
    let id = text::dec(namespace(p));
    let mark = seq!['n', 's', 'i', 'd', '='];
    let one = "nvme-tcp://"@ + portal + ":"@ + port;
    assert("?nsid="@ =~= seq!['?'] + mark);
    assert(uri_of(p)->0 == one + "/"@ + nqn + "?nsid="@ + id);
    assert(nqn + "?nsid="@ + id =~= nqn + seq!['?'] + (mark + id));
    assert(one + "/"@ + nqn + "?nsid="@ + id =~= one + seq!['/'] + (nqn + "?nsid="@ + id));
    let rest = nqn + seq!['?'] + (mark + id);
    assert((one + seq!['/'] + rest).skip(11) =~= portal + seq![':'] + (port + seq!['/'] + rest));
}

proof fn lemma_decimal_parts(a: nat, b: nat, x: Seq<char>, y: Seq<char>)
    requires
        text::dec(a) + seq!['/'] + x == text::dec(b) + seq!['/'] + y,
    ensures
        a == b,
        x == y,
{
    text::law_decimals_read_back(a, a);
    text::law_decimals_read_back(b, b);
    text::law_digits_are_plain(text::dec(a), '/');
    text::law_digits_are_plain(text::dec(b), '/');
    lemma_parts(text::dec(a), text::dec(b), '/', x, y);
}

proof fn lemma_same_number(mark: Seq<char>, a: nat, b: nat)
    requires
        mark + text::dec(a) == mark + text::dec(b),
    ensures
        a == b,
{
    text::law_decimals_read_back(a, a);
    text::law_decimals_read_back(b, b);
    assert((mark + text::dec(a)).skip(mark.len() as int) =~= text::dec(a));
    assert((mark + text::dec(b)).skip(mark.len() as int) =~= text::dec(b));
}

/// The namespace on the command line is the one attached: what stands behind the NQN
/// in the URI reads back as the number that was named, and as 1 where none was.
pub proof fn law_the_namespace_reads_back(p: ParamsView)
    requires
        uri_of(p) is Some,
    ensures
        ({
            let front = "nvme-tcp://"@ + p.portal->0 + ":"@ + text::dec(p.port->0) + "/"@ + p.nqn->0
                + "?nsid="@;
            &&& text::starts_with(uri_of(p)->0, front)
            &&& text::parse_dec(uri_of(p)->0.skip(front.len() as int), namespace(p)) == Some(
                p.nsid.unwrap_or(1),
            )
        }),
{
    let front = "nvme-tcp://"@ + p.portal->0 + ":"@ + text::dec(p.port->0) + "/"@ + p.nqn->0
        + "?nsid="@;
    let id = text::dec(namespace(p));
    assert(uri_of(p)->0 =~= front + id);
    assert(uri_of(p)->0.take(front.len() as int) =~= front);
    assert(uri_of(p)->0.skip(front.len() as int) =~= id);
    text::law_decimals_read_back(namespace(p), namespace(p));
}

} // verus!
