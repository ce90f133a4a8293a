//! Hardware inventory, read on the running node.
//!
//! There is no inspection boot and no second reboot: the machine is already running
//! the system it will keep, so describing itself is a matter of reading files. What
//! those files mean is here; reading them is up to the caller.

use crate::strings;
use crate::text;
use vstd::prelude::*;

verus! {

#[derive(Debug, Clone, PartialEq, Eq)]
pub struct Inventory {
    pub cpus: usize,
    pub memory_kb: u64,
    pub product: Option<String>,
    pub serial: Option<String>,
    pub disks: Vec<String>,
}

#[verifier::ext_equal]
pub struct InventoryView {
    pub cpus: usize,
    pub memory_kb: u64,
    pub product: Option<Seq<char>>,
    pub serial: Option<Seq<char>>,
    pub disks: Seq<Seq<char>>,
}

impl View for Inventory {
    type V = InventoryView;

    open spec fn view(&self) -> InventoryView {
        InventoryView {
            cpus: self.cpus,
            memory_kb: self.memory_kb,
            product: text::opt_text(self.product),
            serial: text::opt_text(self.serial),
            disks: text::texts(self.disks@),
        }
    }
}

// ---------------------------------------------------------------------------
// The summary

pub open spec fn part(wanted: bool, s: Seq<char>) -> Seq<Seq<char>> {
    if wanted {
        seq![s]
    } else {
        Seq::empty()
    }
}

/// What is known, piece by piece.
pub open spec fn summary_parts(v: InventoryView) -> Seq<Seq<char>> {
    part(v.cpus > 0, text::dec(v.cpus as nat) + " cpu"@) + part(
        v.memory_kb > 0,
        text::dec((v.memory_kb / 1024 / 1024) as nat) + " GiB"@,
    ) + part(v.disks.len() > 0, text::dec(v.disks.len()) + " disk(s)"@) + match v.product {
        Some(product) => seq![product],
        None => Seq::empty(),
    }
}

pub open spec fn summary(v: InventoryView) -> Seq<char> {
    if summary_parts(v).len() == 0 {
        "inventory unavailable"@
    } else {
        text::join(summary_parts(v), ", "@)
    }
}

impl Default for Inventory {
    fn default() -> (r: Self)
        ensures
            r@ == (InventoryView {
                cpus: 0,
                memory_kb: 0,
                product: None,
                serial: None,
                disks: Seq::empty(),
            }),
    {
        Inventory { cpus: 0, memory_kb: 0, product: None, serial: None, disks: Vec::new() }
    }
}

/// One more part at the end.
proof fn lemma_part_added(parts: Seq<String>, s: String)
    ensures
        text::texts(parts.push(s)) == text::texts(parts) + seq![s@],
{
}

impl Inventory {
    /// One line an operator can read in a console row.
    pub fn summary(&self) -> (r: String)
        ensures
            r@ == summary(self@),
    {
        let mut parts: Vec<String> = Vec::new();
        let disks: usize = self.disks.len();
        assert(self@.disks.len() == disks);
        if self.cpus > 0 {
            let s = strings::concat(strings::dec(self.cpus as u64).as_str(), " cpu");
            proof {
                lemma_part_added(parts@, s);
            }
            parts.push(s);
        }
        assert(text::texts(parts@) == part(
            self.cpus > 0,
            text::dec(self.cpus as nat) + " cpu"@,
        ));
        let ghost first = text::texts(parts@);
        if self.memory_kb > 0 {
            let s = strings::concat(
                strings::dec(self.memory_kb / 1024 / 1024).as_str(),
                " GiB",
            );
            proof {
                lemma_part_added(parts@, s);
            }
            parts.push(s);
        }
        assert(text::texts(parts@) == first + part(
            self.memory_kb > 0,
            text::dec((self.memory_kb / 1024 / 1024) as nat) + " GiB"@,
        ));
        let ghost second = text::texts(parts@);
        if disks > 0 {
            let s = strings::concat(strings::dec(disks as u64).as_str(), " disk(s)");
            proof {
                lemma_part_added(parts@, s);
            }
            parts.push(s);
        }
        assert(text::texts(parts@) == second + part(
            disks > 0,
            text::dec(disks as nat) + " disk(s)"@,
        ));
        let ghost third = text::texts(parts@);
        if let Some(product) = &self.product {
            let s = product.clone();
            proof {
                lemma_part_added(parts@, s);
            }
            parts.push(s);
        }
        assert(text::texts(parts@) == summary_parts(self@));
        if parts.len() == 0 {
            "inventory unavailable".to_owned()
        } else {
            strings::join(&parts, ", ")
        }
    }
}

// ---------------------------------------------------------------------------
// What the files say

/// How many of `lines` start with `prefix`.
pub open spec fn count_with(lines: Seq<Seq<char>>, prefix: Seq<char>) -> nat
    decreases lines.len(),
{
    if lines.len() == 0 {
        0
    } else {
        (if text::starts_with(lines[0], prefix) {
            1nat
        } else {
            0
        }) + count_with(lines.skip(1), prefix)
    }
}

/// The first of `lines` that starts with `prefix`.
pub open spec fn first_with(lines: Seq<Seq<char>>, prefix: Seq<char>) -> Option<Seq<char>>
    decreases lines.len(),
{
    if lines.len() == 0 {
        None
    } else if text::starts_with(lines[0], prefix) {
        Some(lines[0])
    } else {
        first_with(lines.skip(1), prefix)
    }
}

/// How many processors `/proc/cpuinfo` lists.
pub open spec fn cpus(cpuinfo: Option<Seq<char>>) -> nat {
    match cpuinfo {
        Some(s) => count_with(text::lines(s), "processor"@),
        None => 0,
    }
}

/// The total memory that `/proc/meminfo` states, in KiB.
pub open spec fn memory_kb(meminfo: Option<Seq<char>>) -> nat {
    match meminfo {
        None => 0,
        Some(s) => match first_with(text::lines(s), "MemTotal:"@) {
            None => 0,
            Some(line) => if text::words(line).len() > 1 {
                text::number_or(Some(text::words(line)[1]), u64::MAX as nat, 0)
            } else {
                0
            },
        },
    }
}

/// What firmware that was never programmed says of itself.
pub open spec fn is_placeholder(value: Seq<char>) -> bool {
    let v = text::to_lower(value);
    ||| v == text::to_lower("To Be Filled By O.E.M."@)
    ||| v == text::to_lower("System Serial Number"@)
    ||| v == text::to_lower("Default string"@)
    ||| v == text::to_lower("Not Specified"@)
    ||| v == text::to_lower("None"@)
}

/// What a DMI field says of the machine. A placeholder recorded as a serial number
/// is worse than no serial number.
pub open spec fn dmi_value(contents: Option<Seq<char>>) -> Option<Seq<char>> {
    match contents {
        Some(s) if text::trim(s).len() > 0 && !is_placeholder(text::trim(s)) => Some(text::trim(s)),
        _ => None,
    }
}

/// Real disks only: no loop, ram, or the ublk device serving our own root.
pub open spec fn is_disk(name: Seq<char>) -> bool {
    &&& !text::starts_with(name, "loop"@)
    &&& !text::starts_with(name, "ram"@)
    &&& !text::starts_with(name, "zram"@)
    &&& !text::starts_with(name, "ublk"@)
    &&& !text::starts_with(name, "dm-"@)
}

/// The names of real disks.
pub open spec fn real_disks(names: Seq<Seq<char>>) -> Seq<Seq<char>>
    decreases names.len(),
{
    if names.len() == 0 {
        Seq::empty()
    } else {
        (if is_disk(names[0]) {
            seq![names[0]]
        } else {
            Seq::empty()
        }) + real_disks(names.skip(1))
    }
}

/// Whether `found` is the real disks among `names`, each as often, in order.
pub open spec fn lists_disks(found: Seq<Seq<char>>, names: Seq<Seq<char>>) -> bool {
    &&& text::in_order(found)
    &&& found.to_multiset() == real_disks(names).to_multiset()
}

fn count_cpus(cpuinfo: Option<&str>) -> (r: usize)
    ensures
        r == cpus(text::opt_str(cpuinfo)),
{
    let Some(s) = cpuinfo else {
        return 0;
    };
    let lines = strings::lines(s);
    let ghost all = text::texts(lines@);
    let len: usize = lines.len();
    let mut n: usize = 0;
    let mut i: usize = 0;
    assert(all.skip(0) == all);
    while i < len
        invariant
            i <= len == lines@.len(),
            n <= i,
            all == text::texts(lines@),
            n + count_with(all.skip(i as int), "processor"@) == count_with(all, "processor"@),
        decreases len - i,
    {
        assert(all.skip(i as int).skip(1) == all.skip(i + 1));
        assert(all[i as int] == lines@[i as int]@);
        if strings::starts_with(lines[i].as_str(), "processor") {
            n = n + 1;
        }
        i = i + 1;
    }
    n
}

fn line_with(s: &str, prefix: &str) -> (r: Option<String>)
    ensures
        text::opt_text(r) == first_with(text::lines(s@), prefix@),
{
    let lines = strings::lines(s);
    let ghost all = text::texts(lines@);
    let mut i: usize = 0;
    assert(all.skip(0) == all);
    while i < lines.len()
        invariant
            i <= lines@.len(),
            all == text::texts(lines@),
            all == text::lines(s@),
            first_with(all, prefix@) == first_with(all.skip(i as int), prefix@),
        decreases lines@.len() - i,
    {
        assert(all.skip(i as int).skip(1) == all.skip(i + 1));
        assert(all[i as int] == lines@[i as int]@);
        if strings::starts_with(lines[i].as_str(), prefix) {
            return Some(lines[i].clone());
        }
        i = i + 1;
    }
    None
}

fn total_memory_kb(meminfo: Option<&str>) -> (r: u64)
    ensures
        r == memory_kb(text::opt_str(meminfo)),
{
    let Some(s) = meminfo else {
        return 0;
    };
    let Some(line) = line_with(s, "MemTotal:") else {
        return 0;
    };
    let words = strings::words(line.as_str());
    assert(text::texts(words@).len() == words@.len());
    if words.len() < 2 {
        return 0;
    }
    assert(text::texts(words@)[1] == words@[1]@);
    match strings::parse_dec(words[1].as_str(), u64::MAX) {
        Some(n) => n,
        None => 0,
    }
}

fn dmi(contents: Option<&str>) -> (r: Option<String>)
    ensures
        text::opt_text(r) == dmi_value(text::opt_str(contents)),
{
    let Some(s) = contents else {
        return None;
    };
    let value = strings::trim(s);
    let v = value.as_str();
    if strings::is_empty(v) || strings::eq_ignore_case(v, "To Be Filled By O.E.M.")
        || strings::eq_ignore_case(v, "System Serial Number") || strings::eq_ignore_case(
        v,
        "Default string",
    ) || strings::eq_ignore_case(v, "Not Specified") || strings::eq_ignore_case(v, "None") {
        return None;
    }
    Some(value)
}

fn block_devices(names: &Vec<String>) -> (r: Vec<String>)
    ensures
        lists_disks(text::texts(r@), text::texts(names@)),
{
    let ghost all = text::texts(names@);
    let mut disks: Vec<String> = Vec::new();
    let mut i: usize = 0;
    assert(all.skip(0) == all);
    assert(text::texts(disks@) + real_disks(all) == real_disks(all));
    while i < names.len()
        invariant
            i <= names@.len(),
            all == text::texts(names@),
            text::texts(disks@) + real_disks(all.skip(i as int)) == real_disks(all),
        decreases names@.len() - i,
    {
        let name = names[i].as_str();
        let ghost rest = real_disks(all.skip(i + 1));
        assert(all.skip(i as int).skip(1) == all.skip(i + 1));
        assert(all[i as int] == name@);
        if !strings::starts_with(name, "loop") && !strings::starts_with(name, "ram")
            && !strings::starts_with(name, "zram") && !strings::starts_with(name, "ublk")
            && !strings::starts_with(name, "dm-") {
            let kept = names[i].clone();
            assert(text::texts(disks@.push(kept)) + rest == text::texts(disks@) + (seq![kept@]
                + rest));
            disks.push(kept);
        } else {
            assert(Seq::<Seq<char>>::empty() + rest == rest);
        }
        i = i + 1;
    }
    assert(text::texts(disks@) + Seq::<Seq<char>>::empty() == text::texts(disks@));
    strings::sort(disks)
}

/// What the machine says of itself, from the contents of `/proc/cpuinfo`,
/// `/proc/meminfo` and the DMI product name and serial number, each where it could
/// be read, and from the names under `/sys/block`. Everything degrades to a default
/// rather than failing.
pub fn collect(
    cpuinfo: Option<&str>,
    meminfo: Option<&str>,
    product_name: Option<&str>,
    product_serial: Option<&str>,
    block: &Vec<String>,
) -> (r: Inventory)
    ensures
        r@.cpus == cpus(text::opt_str(cpuinfo)),
        r@.memory_kb == memory_kb(text::opt_str(meminfo)),
        r@.product == dmi_value(text::opt_str(product_name)),
        r@.serial == dmi_value(text::opt_str(product_serial)),
        lists_disks(r@.disks, text::texts(block@)),
{
    Inventory {
        cpus: count_cpus(cpuinfo),
        memory_kb: total_memory_kb(meminfo),
        product: dmi(product_name),
        serial: dmi(product_serial),
        disks: block_devices(block),
    }
}

// ---------------------------------------------------------------------------
// The MAC address

/// A network interface, with the contents of its address file where it has one.
#[derive(Debug, Clone)]
pub struct Interface {
    pub name: String,
    pub address: Option<String>,
}

#[verifier::ext_equal]
pub struct InterfaceView {
    pub name: Seq<char>,
    pub address: Option<Seq<char>>,
}

impl View for Interface {
    type V = InterfaceView;

    open spec fn view(&self) -> InterfaceView {
        InterfaceView { name: self.name@, address: text::opt_text(self.address) }
    }
}

pub open spec fn interfaces(v: Seq<Interface>) -> Seq<InterfaceView> {
    v.map_values(|i: Interface| i@)
}

/// The interface that the first default route among `lines` goes out of.
pub open spec fn default_route(lines: Seq<Seq<char>>) -> Option<Seq<char>>
    decreases lines.len(),
{
    if lines.len() == 0 {
        None
    } else if text::words(lines[0]).len() > 1 && text::words(lines[0])[1] == "00000000"@ {
        Some(text::words(lines[0])[0])
    } else {
        default_route(lines.skip(1))
    }
}

/// The interface that the default route in `/proc/net/route` goes out of. The first
/// line there is a heading.
pub open spec fn default_interface(route: Seq<char>) -> Option<Seq<char>> {
    let lines = text::lines(route);
    if lines.len() == 0 {
        None
    } else {
        default_route(lines.skip(1))
    }
}

/// The MAC address in the contents of an address file, unless there is none.
pub open spec fn mac_of(address: Option<Seq<char>>) -> Option<Seq<char>> {
    match address {
        None => None,
        Some(s) => {
            let mac = text::to_lower(text::trim(s));
            if mac.len() > 0 && mac != "00:00:00:00:00:00"@ {
                Some(mac)
            } else {
                None
            }
        },
    }
}

/// The MAC address of the first interface with that name.
pub open spec fn mac_named(v: Seq<InterfaceView>, name: Seq<char>) -> Option<Seq<char>>
    decreases v.len(),
{
    if v.len() == 0 {
        None
    } else if v[0].name == name {
        mac_of(v[0].address)
    } else {
        mac_named(v.skip(1), name)
    }
}

/// Whether an interface can stand in for the default route's.
pub open spec fn stands_in(i: InterfaceView) -> bool {
    i.name != "lo"@ && mac_of(i.address) is Some
}

/// Whether `at` is the interface to fall back to: no other that could stand in comes
/// before it by name.
pub open spec fn falls_back_to(v: Seq<InterfaceView>, at: int) -> bool {
    &&& 0 <= at < v.len()
    &&& stands_in(v[at])
    &&& forall|j: int|
        0 <= j < v.len() && stands_in(#[trigger] v[j]) ==> !text::precedes(v[j].name, v[at].name)
}

/// Whether `mac` is the address to fall back to: that of the first interface by name
/// that can stand in, if any can.
pub open spec fn fallen_back(mac: Option<Seq<char>>, v: Seq<InterfaceView>) -> bool {
    match mac {
        Some(m) => exists|at: int| #[trigger]
            falls_back_to(v, at) && mac_of(v[at].address) == Some(m),
        None => forall|j: int| 0 <= j < v.len() ==> !stands_in(#[trigger] v[j]),
    }
}

/// Whether `mac` identifies the node: the MAC address of the interface that holds the
/// default route. Where that has none, or where there is no default route yet, it is
/// that of the first interface by name that has one, which on a netbooted machine is
/// almost always the one that booted it. A routing table that cannot be read gives no
/// answer.
pub open spec fn identifies(
    mac: Option<Seq<char>>,
    route: Option<Seq<char>>,
    v: Seq<InterfaceView>,
) -> bool {
    match route {
        None => mac is None,
        Some(s) => match default_interface(s) {
            None => fallen_back(mac, v),
            Some(name) => match mac_named(v, name) {
                Some(m) => mac == Some(m),
                None => fallen_back(mac, v),
            },
        },
    }
}

fn route_interface(route: &str) -> (r: Option<String>)
    ensures
        text::opt_text(r) == default_interface(route@),
{
    let lines = strings::lines(route);
    let ghost all = text::texts(lines@);
    if lines.len() == 0 {
        assert(all.len() == 0);
        return None;
    }
    let mut i: usize = 1;
    while i < lines.len()
        invariant
            1 <= i <= lines@.len(),
            all == text::texts(lines@),
            all == text::lines(route@),
            default_interface(route@) == default_route(all.skip(i as int)),
        decreases lines@.len() - i,
    {
        assert(all.skip(i as int).skip(1) == all.skip(i + 1));
        assert(all[i as int] == lines@[i as int]@);
        let words = strings::words(lines[i].as_str());
        let ghost w = text::texts(words@);
        assert(w.len() == words@.len());
        if words.len() > 1 {
            assert(w[0] == words@[0]@ && w[1] == words@[1]@);
            if strings::eq(words[1].as_str(), "00000000") {
                return Some(words[0].clone());
            }
        }
        i = i + 1;
    }
    None
}

fn read_mac(address: &Option<String>) -> (r: Option<String>)
    ensures
        text::opt_text(r) == mac_of(text::opt_text(*address)),
{
    let Some(s) = address else {
        return None;
    };
    let mac = strings::to_lower(strings::trim(s.as_str()).as_str());
    if strings::is_empty(mac.as_str()) || strings::eq(mac.as_str(), "00:00:00:00:00:00") {
        None
    } else {
        Some(mac)
    }
}

fn find_mac(v: &Vec<Interface>, name: &str) -> (r: Option<String>)
    ensures
        text::opt_text(r) == mac_named(interfaces(v@), name@),
{
    let ghost all = interfaces(v@);
    let mut i: usize = 0;
    assert(all.skip(0) == all);
    while i < v.len()
        invariant
            i <= v@.len(),
            all == interfaces(v@),
            mac_named(all, name@) == mac_named(all.skip(i as int), name@),
        decreases v@.len() - i,
    {
        assert(all.skip(i as int).skip(1) == all.skip(i + 1));
        assert(all[i as int] == v@[i as int]@);
        if strings::eq(v[i].name.as_str(), name) {
            return read_mac(&v[i].address);
        }
        i = i + 1;
    }
    None
}

/// The MAC address of the first interface by name that has one.
fn fallback(v: &Vec<Interface>) -> (r: Option<String>)
    ensures
        match r {
            Some(mac) => exists|at: int| #[trigger]
                falls_back_to(interfaces(v@), at) && mac_of(interfaces(v@)[at].address) == Some(
                    mac@,
                ),
            None => forall|j: int| 0 <= j < v@.len() ==> !stands_in(#[trigger] interfaces(v@)[j]),
        },
{
    let ghost all = interfaces(v@);
    let mut best: Option<(usize, String)> = None;
    let mut i: usize = 0;
    while i < v.len()
        invariant
            i <= v@.len(),
            all == interfaces(v@),
            match best {
                Some((at, mac)) => {
                    &&& at < i
                    &&& falls_back_to(all.take(i as int), at as int)
                    &&& mac_of(all[at as int].address) == Some(mac@)
                },
                None => forall|j: int| 0 <= j < i ==> !stands_in(#[trigger] all[j]),
            },
        decreases v@.len() - i,
    {
        let ghost was = all.take(i as int);
        let ghost now = all.take(i + 1);
        assert(all[i as int] == v@[i as int]@);
        assert(now == was.push(all[i as int]));
        let mac = read_mac(&v[i].address);
        if strings::eq(v[i].name.as_str(), "lo") || mac.is_none() {
            assert(!stands_in(all[i as int]));
            proof {
                if let Some((at, _)) = best {
                    assert(now[at as int] == was[at as int]);
                    assert forall|j: int| 0 <= j < now.len() && stands_in(
                        #[trigger] now[j],
                    ) implies !text::precedes(now[j].name, now[at as int].name) by {
                        assert(j < i);
                        assert(now[j] == was[j]);
                    }
                    assert(falls_back_to(now, at as int));
                }
            }
        } else {
            assert(stands_in(all[i as int]));
            let better = match &best {
                Some((at, _)) => strings::precedes(v[i].name.as_str(), v[*at].name.as_str()),
                None => true,
            };
            proof {
                match best {
                    Some((at, _)) => {
                        assert(all[at as int] == v@[at as int]@);
                        assert(now[at as int] == was[at as int]);
                        assert(was[at as int] == all[at as int]);
                        let kept: int = if better {
                            i as int
                        } else {
                            at as int
                        };
                        if better {
                            text::law_order_is_one_way(all[i as int].name, all[at as int].name);
                        }
                        assert forall|j: int| 0 <= j < now.len() && stands_in(
                            #[trigger] now[j],
                        ) implies !text::precedes(now[j].name, now[kept].name) by {
                            if j < i {
                                assert(now[j] == was[j]);
                                if better {
                                    text::law_order_carries_over(
                                        now[kept].name,
                                        was[at as int].name,
                                        was[j].name,
                                    );
                                }
                            } else if better {
                                lemma_not_before_itself(now[j].name);
                            }
                        }
                        assert(falls_back_to(now, kept));
                    },
                    None => {
                        assert forall|j: int| 0 <= j < now.len() && stands_in(
                            #[trigger] now[j],
                        ) implies !text::precedes(now[j].name, now[i as int].name) by {
                            assert(now[j] == all[j]);
                            lemma_not_before_itself(now[j].name);
                        }
                        assert(falls_back_to(now, i as int));
                    },
                }
            }
            if better {
                if let Some(m) = mac {
                    best = Some((i, m));
                }
            }
        }
        i = i + 1;
    }
    assert(all.take(i as int) == all);
    match best {
        Some((at, mac)) => {
            assert(falls_back_to(all, at as int));
            Some(mac)
        },
        None => None,
    }
}

proof fn lemma_not_before_itself(a: Seq<char>)
    ensures
        !text::precedes(a, a),
{
    if text::precedes(a, a) {
        text::law_order_is_one_way(a, a);
    }
}

/// The MAC address of the interface holding the default route, which is the one
/// that booted the machine, from the contents of `/proc/net/route`, where it could
/// be read, and from the interfaces under `/sys/class/net`.
pub fn primary_mac(route: Option<&str>, found: &Vec<Interface>) -> (r: Option<String>)
    ensures
        identifies(text::opt_text(r), text::opt_str(route), interfaces(found@)),
{
    let Some(s) = route else {
        return None;
    };
    let Some(name) = route_interface(s) else {
        return fallback(found);
    };
    match find_mac(found, name.as_str()) {
        Some(mac) => Some(mac),
        None => fallback(found),
    }
}

// ---------------------------------------------------------------------------
// Laws

/// Every disk an inventory lists is a real one that the machine has, and every real
/// one the machine has is listed.
pub proof fn law_disks_are_the_real_ones(found: Seq<Seq<char>>, names: Seq<Seq<char>>)
    requires
        lists_disks(found, names),
    ensures
        forall|d: Seq<char>| #[trigger]
            found.contains(d) <==> names.contains(d) && is_disk(d),
{
    broadcast use vstd::seq_lib::group_to_multiset_ensures;

    assert forall|d: Seq<char>| #[trigger] found.contains(d) implies names.contains(d) && is_disk(
        d,
    ) by {
        assert(found.to_multiset().count(d) > 0);
        assert(real_disks(names).contains(d));
        lemma_real(names, d);
    }
    assert forall|d: Seq<char>| names.contains(d) && is_disk(d) implies #[trigger] found.contains(
        d,
    ) by {
        lemma_real(names, d);
        assert(real_disks(names).to_multiset().count(d) > 0);
    }
}

proof fn lemma_real(names: Seq<Seq<char>>, d: Seq<char>)
    ensures
        real_disks(names).contains(d) <==> names.contains(d) && is_disk(d),
    decreases names.len(),
{
    if names.len() > 0 {
        let rest = names.skip(1);
        let first = if is_disk(names[0]) {
            seq![names[0]]
        } else {
            Seq::empty()
        };
        lemma_real(rest, d);
        assert(real_disks(names) == first + real_disks(rest));
        if real_disks(names).contains(d) {
            let i = choose|i: int| 0 <= i < real_disks(names).len() && real_disks(names)[i] == d;
            if i >= first.len() {
                assert(real_disks(rest)[i - first.len()] == d);
                assert(rest.contains(d));
                let k = choose|k: int| 0 <= k < rest.len() && rest[k] == d;
                assert(names[k + 1] == d);
            }
        }
        if names.contains(d) && is_disk(d) {
            let k = choose|k: int| 0 <= k < names.len() && names[k] == d;
            if k > 0 {
                assert(rest[k - 1] == d);
                assert(rest.contains(d));
                let i = choose|i: int| 0 <= i < real_disks(rest).len() && real_disks(rest)[i] == d;
                assert(real_disks(names)[i + first.len()] == d);
            } else {
                assert(real_disks(names)[0] == d);
            }
        }
    }
}

/// A node is identified by an address that one of its interfaces has, and never by
/// one of zeros.
pub proof fn law_an_identity_is_an_address(
    mac: Option<Seq<char>>,
    route: Option<Seq<char>>,
    v: Seq<InterfaceView>,
)
    requires
        identifies(mac, route, v),
    ensures
        match mac {
            Some(m) => m.len() > 0 && m != "00:00:00:00:00:00"@ && exists|at: int|
                0 <= at < v.len() && mac_of((#[trigger] v[at]).address) == Some(m),
            None => true,
        },
{
    if let Some(m) = mac {
        let held = default_interface(route->0);
        if held is Some && mac_named(v, held->0) is Some {
            lemma_named(v, held->0);
        } else {
            let at = choose|at: int| #[trigger]
                falls_back_to(v, at) && mac_of(v[at].address) == Some(m);
            assert(mac_of(v[at].address) == Some(m));
        }
    }
}

/// A machine with a readable routing table and an address on any real interface has an
/// identity, default route or not.
pub proof fn law_an_address_is_an_identity(
    mac: Option<Seq<char>>,
    route: Seq<char>,
    v: Seq<InterfaceView>,
    i: int,
)
    requires
        identifies(mac, Some(route), v),
        0 <= i < v.len(),
        stands_in(v[i]),
    ensures
        mac is Some,
{
}

proof fn lemma_named(v: Seq<InterfaceView>, name: Seq<char>)
    requires
        mac_named(v, name) is Some,
    ensures
        exists|at: int|
            0 <= at < v.len() && mac_of((#[trigger] v[at]).address) == mac_named(v, name),
    decreases v.len(),
{
    if v[0].name == name {
        assert(mac_of(v[0].address) == mac_named(v, name));
    } else {
        lemma_named(v.skip(1), name);
        let at = choose|at: int|
            0 <= at < v.skip(1).len() && mac_of((#[trigger] v.skip(1)[at]).address) == mac_named(
                v.skip(1),
                name,
            );
        assert(v[at + 1] == v.skip(1)[at]);
    }
}

/// A line that starts with `processor` is one more processor, and no other line is.
pub proof fn law_a_processor_is_a_line(line: Seq<char>, rest: Seq<char>)
    requires
        text::free_of(line, '\n'),
        text::free_of(line, '\r'),
    ensures
        "processor"@.is_prefix_of(line) ==> cpus(Some(line + seq!['\n'] + rest)) == cpus(Some(rest))
            + 1,
        !"processor"@.is_prefix_of(line) ==> cpus(Some(line + seq!['\n'] + rest)) == cpus(
            Some(rest),
        ),
        cpus(Some(Seq::empty())) == 0,
        cpus(None) == 0,
{
    let p = "processor"@;
    let all = text::lines(line + seq!['\n'] + rest);
    text::law_first_line(line, rest);
    assert(text::strip_cr(line) == line);
    assert(all =~= seq![line] + text::lines(rest));
    assert(all.skip(1) =~= text::lines(rest));
    if p.len() <= line.len() {
        assert(line.subrange(0, p.len() as int) =~= line.take(p.len() as int));
    }
}

/// The memory is the number behind `MemTotal:`, on the first line that starts so; the lines
/// in front of it make no difference.
pub proof fn law_memory_is_what_its_line_says(kb: nat, line: Seq<char>, rest: Seq<char>)
    requires
        kb <= u64::MAX,
        text::free_of(line, '\n'),
        text::free_of(line, '\r'),
        !"MemTotal:"@.is_prefix_of(line),
    ensures
        memory_kb(
            Some("MemTotal:"@ + seq![' '] + (text::dec(kb) + seq![' '] + "kB"@) + seq!['\n'] + rest),
        ) == kb,
        memory_kb(Some(line + seq!['\n'] + rest)) == memory_kb(Some(rest)),
        memory_kb(None) == 0,
{
    reveal_strlit("MemTotal:");
    reveal_strlit("kB");
    let p = "MemTotal:"@;
    let d = text::dec(kb);
    text::law_decimals_read_back(kb, u64::MAX as nat);
    text::law_digits_are_plain(d, '\n');
    let total = p + seq![' '] + (d + seq![' '] + "kB"@);
    assert forall|i: int| 0 <= i < total.len() implies #[trigger] total[i] != '\n' by {
        if p.len() < i && i - p.len() - 1 < d.len() {
            assert(total[i] == d[i - p.len() - 1]);
        }
    }
    text::law_first_line(total, rest);
    assert(total.last() == 'B');
    let all = text::lines(total + seq!['\n'] + rest);
    assert(all =~= seq![total] + text::lines(rest));
    assert(total.take(p.len() as int) =~= p);
    assert(text::one_word(p));
    text::law_the_first_word_comes_first(p, ' ', d + seq![' '] + "kB"@);
    text::law_digits_are_plain(d, ' ');
    text::law_the_first_word_comes_first(d, ' ', "kB"@);
    assert(text::words(total) =~= seq![p] + (seq![d] + text::words("kB"@)));
    let other = text::lines(line + seq!['\n'] + rest);
    text::law_first_line(line, rest);
    assert(text::strip_cr(line) == line);
    assert(other =~= seq![line] + text::lines(rest));
    assert(other.skip(1) =~= text::lines(rest));
    if p.len() <= line.len() {
        assert(line.subrange(0, p.len() as int) =~= line.take(p.len() as int));
    }
}

/// What the board says of itself counts without the white space around it, unless it says
/// nothing or is one of the fillers that boards are shipped with, in whatever case.
pub proof fn law_a_filler_is_no_value(contents: Seq<char>)
    ensures
        dmi_value(None) is None,
        dmi_value(Some(contents)) is Some ==> dmi_value(Some(contents))->0 == text::trim(contents)
            && text::trim(contents).len() > 0,
        dmi_value(Some(contents)) is None <==> text::trim(contents).len() == 0 || text::to_lower(
            text::trim(contents),
        ) == "to be filled by o.e.m."@ || text::to_lower(text::trim(contents))
            == "system serial number"@ || text::to_lower(text::trim(contents)) == "default string"@
            || text::to_lower(text::trim(contents)) == "not specified"@ || text::to_lower(
            text::trim(contents),
        ) == "none"@,
{
    reveal_strlit("To Be Filled By O.E.M.");
    reveal_strlit("to be filled by o.e.m.");
    reveal_strlit("System Serial Number");
    reveal_strlit("system serial number");
    reveal_strlit("Default string");
    reveal_strlit("default string");
    reveal_strlit("Not Specified");
    reveal_strlit("not specified");
    reveal_strlit("None");
    reveal_strlit("none");
    assert(text::to_lower("To Be Filled By O.E.M."@) =~= "to be filled by o.e.m."@);
    assert(text::to_lower("System Serial Number"@) =~= "system serial number"@);
    assert(text::to_lower("Default string"@) =~= "default string"@);
    assert(text::to_lower("Not Specified"@) =~= "not specified"@);
    assert(text::to_lower("None"@) =~= "none"@);
}

/// What only looks like a disk is left out: loops, memory, the engine's own devices and the
/// mapper's.
pub proof fn law_what_is_no_disk(rest: Seq<char>)
    ensures
        !is_disk("loop"@ + rest),
        !is_disk("ram"@ + rest),
        !is_disk("zram"@ + rest),
        !is_disk("ublk"@ + rest),
        !is_disk("dm-"@ + rest),
        is_disk("sd"@ + rest),
        is_disk("nvme"@ + rest),
        is_disk("vd"@ + rest),
{
    assert(("loop"@ + rest).take("loop"@.len() as int) =~= "loop"@);
    assert(("ram"@ + rest).take("ram"@.len() as int) =~= "ram"@);
    assert(("zram"@ + rest).take("zram"@.len() as int) =~= "zram"@);
    assert(("ublk"@ + rest).take("ublk"@.len() as int) =~= "ublk"@);
    assert(("dm-"@ + rest).take("dm-"@.len() as int) =~= "dm-"@);
    reveal_strlit("loop");
    reveal_strlit("ram");
    reveal_strlit("zram");
    reveal_strlit("ublk");
    reveal_strlit("dm-");
    reveal_strlit("sd");
    reveal_strlit("nvme");
    reveal_strlit("vd");
    lemma_disk_by_its_first("sd"@ + rest);
    lemma_disk_by_its_first("nvme"@ + rest);
    lemma_disk_by_its_first("vd"@ + rest);
}

proof fn lemma_disk_by_its_first(name: Seq<char>)
    requires
        name.len() > 0,
        name[0] != 'l' && name[0] != 'r' && name[0] != 'z' && name[0] != 'u' && name[0] != 'd',
    ensures
        is_disk(name),
{
    reveal_strlit("loop");
    reveal_strlit("ram");
    reveal_strlit("zram");
    reveal_strlit("ublk");
    reveal_strlit("dm-");
    if text::starts_with(name, "loop"@) {
        assert(name.take(4)[0] == 'l');
    }
    if text::starts_with(name, "ram"@) {
        assert(name.take(3)[0] == 'r');
    }
    if text::starts_with(name, "zram"@) {
        assert(name.take(4)[0] == 'z');
    }
    if text::starts_with(name, "ublk"@) {
        assert(name.take(4)[0] == 'u');
    }
    if text::starts_with(name, "dm-"@) {
        assert(name.take(3)[0] == 'd');
    }
}

/// The default interface is the one on the first line below the heading whose destination
/// is all zeros.
pub proof fn law_the_default_route_names_the_interface(route: Seq<char>, i: int)
    requires
        1 <= i < text::lines(route).len(),
        text::words(text::lines(route)[i]).len() > 1,
        text::words(text::lines(route)[i])[1] == "00000000"@,
        forall|j: int|
            1 <= j < i ==> text::words(#[trigger] text::lines(route)[j]).len() < 2 || text::words(
                text::lines(route)[j],
            )[1] != "00000000"@,
    ensures
        default_interface(route) == Some(text::words(text::lines(route)[i])[0]),
{
    let below = text::lines(route).skip(1);
    assert(below[i - 1] == text::lines(route)[i]);
    assert forall|j: int| 0 <= j < i - 1 implies text::words(#[trigger] below[j]).len() < 2
        || text::words(below[j])[1] != "00000000"@ by {
        assert(below[j] == text::lines(route)[j + 1]);
    }
    lemma_default_route(below, i - 1);
}

proof fn lemma_default_route(lines: Seq<Seq<char>>, i: int)
    requires
        0 <= i < lines.len(),
        text::words(lines[i]).len() > 1,
        text::words(lines[i])[1] == "00000000"@,
        forall|j: int|
            0 <= j < i ==> text::words(#[trigger] lines[j]).len() < 2 || text::words(lines[j])[1]
                != "00000000"@,
    ensures
        default_route(lines) == Some(text::words(lines[i])[0]),
    decreases lines.len(),
{
    if i > 0 {
        assert(text::words(lines[0]).len() < 2 || text::words(lines[0])[1] != "00000000"@);
        let rest = lines.skip(1);
        assert(rest[i - 1] == lines[i]);
        assert forall|j: int| 0 <= j < i - 1 implies text::words(#[trigger] rest[j]).len() < 2
            || text::words(rest[j])[1] != "00000000"@ by {
            assert(rest[j] == lines[j + 1]);
        }
        lemma_default_route(rest, i - 1);
    }
}

/// The machine is identified by the interface that its default route goes through, where
/// that one has an address: in small letters, without the white space around it.
pub proof fn law_the_default_interface_identifies_the_machine(
    mac: Option<Seq<char>>,
    route: Seq<char>,
    v: Seq<InterfaceView>,
    i: int,
)
    requires
        identifies(mac, Some(route), v),
        0 <= i < v.len(),
        default_interface(route) == Some(v[i].name),
        forall|j: int| 0 <= j < i ==> (#[trigger] v[j]).name != v[i].name,
        v[i].address is Some,
        text::trim(v[i].address->0).len() > 0,
        text::to_lower(text::trim(v[i].address->0)) != "00:00:00:00:00:00"@,
    ensures
        mac == Some(text::to_lower(text::trim(v[i].address->0))),
{
    lemma_named_at(v, i);
    assert(text::to_lower(text::trim(v[i].address->0)).len() > 0);
}

proof fn lemma_named_at(v: Seq<InterfaceView>, i: int)
    requires
        0 <= i < v.len(),
        forall|j: int| 0 <= j < i ==> (#[trigger] v[j]).name != v[i].name,
    ensures
        mac_named(v, v[i].name) == mac_of(v[i].address),
    decreases v.len(),
{
    if i > 0 {
        assert(v[0].name != v[i].name);
        let rest = v.skip(1);
        assert(rest[i - 1] == v[i]);
        assert forall|j: int| 0 <= j < i - 1 implies (#[trigger] rest[j]).name != rest[i - 1].name by {
            assert(rest[j] == v[j + 1]);
        }
        lemma_named_at(rest, i - 1);
    }
}

/// Without a default route, the first interface by name that has an address identifies the
/// machine, and the loopback never does.
pub proof fn law_the_first_interface_stands_in(
    mac: Option<Seq<char>>,
    route: Seq<char>,
    v: Seq<InterfaceView>,
    other: int,
)
    requires
        identifies(mac, Some(route), v),
        default_interface(route) is None,
        mac is Some,
        0 <= other < v.len(),
        v[other].name != "lo"@,
        mac_of(v[other].address) is Some,
    ensures
        exists|at: int|
            0 <= at < v.len() && (#[trigger] v[at]).name != "lo"@ && mac_of(v[at].address) == mac
                && !text::precedes(v[other].name, v[at].name),
{
    let at = choose|at: int| #[trigger]
        falls_back_to(v, at) && mac_of(v[at].address) == Some(mac->0);
    assert(stands_in(v[at]));
    assert(stands_in(v[other]));
}

/// A summary has a part for what is known and for nothing else, and says so where nothing
/// is.
pub proof fn law_a_summary_says_what_is_known(v: InventoryView)
    ensures
        summary_parts(v).len() == (if v.cpus > 0 {
            1int
        } else {
            0
        }) + (if v.memory_kb > 0 {
            1int
        } else {
            0
        }) + (if v.disks.len() > 0 {
            1int
        } else {
            0
        }) + (if v.product is Some {
            1int
        } else {
            0
        }),
        v.cpus == 0 && v.memory_kb == 0 && v.disks.len() == 0 && v.product is None ==> summary(v)
            == "inventory unavailable"@,
        v.cpus > 0 ==> summary_parts(v)[0] == text::dec(v.cpus as nat) + " cpu"@,
        v.cpus == 0 && v.memory_kb > 0 ==> summary_parts(v)[0] == text::dec(
            (v.memory_kb / 1048576) as nat,
        ) + " GiB"@,
        v.product is Some ==> summary_parts(v).last() == v.product->0,
        v.product is None && v.disks.len() > 0 ==> summary_parts(v).last() == text::dec(
            v.disks.len(),
        ) + " disk(s)"@,
        summary_parts(v).len() > 0 ==> summary(v) == text::join(summary_parts(v), ", "@),
{
    assert(v.memory_kb / 1024 / 1024 == v.memory_kb / 1048576);
}

} // verus!
