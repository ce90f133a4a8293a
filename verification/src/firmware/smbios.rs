//! The machine's own name for itself.
//!
//! Dell's service tag is SMBIOS Type 1 (System Information) "Serial Number",
//! published by the firmware. Reading it costs no network, no DHCP, no BMC and no
//! configuration, which is why it is a better boot identity than a MAC address: a
//! NIC can be swapped. The service tag is the chassis.

use crate::bytes;
use crate::strings;
use crate::text;
use vstd::prelude::*;

verus! {

// ---------------------------------------------------------------------------
// Entry points

/// `_SM3_` in ASCII.
pub open spec fn anchor3() -> Seq<u8> {
    seq![0x5f, 0x53, 0x4d, 0x33, 0x5f]
}

/// `_SM_` in ASCII.
pub open spec fn anchor() -> Seq<u8> {
    seq![0x5f, 0x53, 0x4d, 0x5f]
}

/// `_SM3_` entry point: the structure table address is a 64-bit field at 0x10. Zero
/// where it is no such entry point.
pub fn smbios3_table(entry: &[u8]) -> (r: u64)
    requires
        entry@.len() >= 0x18,
    ensures
        r == if entry@.take(5) == anchor3() {
            bytes::le64_at(entry@, 0x10)
        } else {
            0
        },
{
    let matches = entry[0] == 0x5f && entry[1] == 0x53 && entry[2] == 0x4d && entry[3] == 0x33
        && entry[4] == 0x5f;
    proof {
        let head = entry@.take(5);
        if matches {
            assert(head =~= anchor3());
        } else {
            assert(head[0] == entry@[0] && head[1] == entry@[1] && head[2] == entry@[2] && head[3]
                == entry@[3] && head[4] == entry@[4]);
        }
    }
    if matches {
        bytes::le64(entry, 0x10)
    } else {
        0
    }
}

/// `_SM_` entry point: a 32-bit table address at 0x18. Zero where it is no such
/// entry point.
pub fn smbios_table(entry: &[u8]) -> (r: u64)
    requires
        entry@.len() >= 0x1c,
    ensures
        r == if entry@.take(4) == anchor() {
            bytes::le32_at(entry@, 0x18)
        } else {
            0
        },
{
    let matches = entry[0] == 0x5f && entry[1] == 0x53 && entry[2] == 0x4d && entry[3] == 0x5f;
    proof {
        let head = entry@.take(4);
        if matches {
            assert(head =~= anchor());
        } else {
            assert(head[0] == entry@[0] && head[1] == entry@[1] && head[2] == entry@[2] && head[3]
                == entry@[3]);
        }
    }
    if matches {
        bytes::le32(entry, 0x18) as u64
    } else {
        0
    }
}

/// How many bytes the table of an `_SM3_` entry point takes at most: a 32-bit field at
/// 0x0c.
pub fn smbios3_extent(entry: &[u8]) -> (r: u32)
    requires
        entry@.len() >= 0x18,
    ensures
        r == bytes::le32_at(entry@, 0x0c),
{
    bytes::le32(entry, 0x0c)
}

/// How many bytes the table of an `_SM_` entry point takes: a 16-bit field at 0x16.
pub fn smbios_extent(entry: &[u8]) -> (r: u16)
    requires
        entry@.len() >= 0x1c,
    ensures
        r == bytes::le16_at(entry@, 0x16),
{
    bytes::le16(entry, 0x16)
}

/// An entry of the firmware's configuration table, with the structure table that
/// it leads to. Zero leads nowhere.
#[derive(Debug, Clone, Copy, PartialEq, Eq, Structural)]
pub enum EntryPoint {
    Smbios3(u64),
    Smbios(u64),
    Other,
}

/// The structure table to read, when `table` is the one at hand. The 64-bit entry
/// point is preferred, and the legacy one is the fallback: machines that publish
/// both agree, but only SMBIOS 3 is guaranteed on UEFI.
pub open spec fn selected(entries: Seq<EntryPoint>, table: u64) -> u64
    decreases entries.len(),
{
    if entries.len() == 0 {
        table
    } else {
        match entries[0] {
            EntryPoint::Smbios3(t) => if t != 0 {
                t
            } else {
                selected(entries.skip(1), table)
            },
            EntryPoint::Smbios(t) => selected(
                entries.skip(1),
                if table == 0 {
                    t
                } else {
                    table
                },
            ),
            EntryPoint::Other => selected(entries.skip(1), table),
        }
    }
}

pub fn select_table(entries: &[EntryPoint]) -> (r: u64)
    ensures
        r == selected(entries@, 0),
{
    let mut table: u64 = 0;
    let mut i: usize = 0;
    assert(entries@.skip(0) == entries@);
    while i < entries.len()
        invariant
            i <= entries@.len(),
            selected(entries@, 0) == selected(entries@.skip(i as int), table),
        decreases entries@.len() - i,
    {
        assert(entries@.skip(i as int)[0] == entries@[i as int]);
        assert(entries@.skip(i as int).skip(1) == entries@.skip(i + 1));
        match entries[i] {
            EntryPoint::Smbios3(t) => {
                if t != 0 {
                    return t;
                }
            },
            EntryPoint::Smbios(t) => {
                if table == 0 {
                    table = t;
                }
            },
            EntryPoint::Other => {},
        }
        i = i + 1;
    }
    table
}

// ---------------------------------------------------------------------------
// The structure table

/// Structures looked at before the table is given up on: a malformed one cannot
/// spin forever in firmware.
pub const MAX_STRUCTURES: usize = 2048;

/// The most characters a string is read for.
pub const MAX_STRING: usize = 128;

/// Where the next zero byte is, from `p`; the length of the table when there is
/// none.
pub open spec fn zero_from(t: Seq<u8>, p: int) -> int
    decreases t.len() - p,
{
    if p < 0 || p >= t.len() {
        t.len() as int
    } else if t[p] == 0 {
        p
    } else {
        zero_from(t, p + 1)
    }
}

/// Where the next two zero bytes in a row end, from `p`.
pub open spec fn past_double_zero(t: Seq<u8>, p: int) -> Option<int>
    decreases t.len() - p,
{
    if p < 0 || p + 1 >= t.len() {
        None
    } else if t[p] == 0 && t[p + 1] == 0 {
        Some(p + 2)
    } else {
        past_double_zero(t, p + 1)
    }
}

/// Where the string of that 1-based index starts, in the strings from `p`.
pub open spec fn string_start(t: Seq<u8>, p: int, index: nat) -> int
    decreases index,
{
    if index <= 1 {
        p
    } else {
        zero_from(t, string_start(t, p, (index - 1) as nat)) + 1
    }
}

/// Where reading a string that starts at `p` stops: at its zero, or once it has
/// been read for long enough.
pub open spec fn string_stop(t: Seq<u8>, p: int) -> int {
    if zero_from(t, p) <= p + MAX_STRING {
        zero_from(t, p)
    } else {
        p + MAX_STRING
    }
}

/// Bytes as characters, each one its own code point.
pub open spec fn latin(b: Seq<u8>) -> Seq<char> {
    b.map_values(|x: u8| x as char)
}

/// Whether reading a string that starts at `p` takes a byte past the table: it has
/// no zero there, and the table ends before it has been read for long enough.
pub open spec fn runs_off(t: Seq<u8>, p: int) -> bool {
    zero_from(t, p) >= t.len() && p + MAX_STRING > t.len()
}

/// The string of that index, in the strings from `p`. Index 0 means that none is
/// supplied, and a string that runs off the table is none.
pub open spec fn string_at(t: Seq<u8>, p: int, index: u8) -> Option<Seq<char>> {
    let from = string_start(t, p, index as nat);
    if index == 0 || runs_off(t, from) {
        None
    } else {
        let s = text::trim(latin(t.subrange(from, string_stop(t, from))));
        if s.len() > 0 {
            Some(s)
        } else {
            None
        }
    }
}

/// The Serial Number of the first Type 1 structure, from the structure at `p` on.
///
/// Every structure is a fixed-length formatted section followed by a string table
/// of NUL-terminated strings terminated by a double NUL. A string field inside the
/// formatted section holds a 1-based index into that table, not an offset.
pub open spec fn serial_from(t: Seq<u8>, p: int, budget: nat) -> Option<Seq<char>>
    decreases budget,
{
    if budget == 0 || p < 0 || p + 1 >= t.len() {
        None
    } else if t[p + 1] < 4 || t[p] == 127 {
        None
    } else if t[p] == 1 {
        if p + 7 < t.len() {
            string_at(t, p + t[p + 1], t[p + 7])
        } else {
            None
        }
    } else {
        match past_double_zero(t, p + t[p + 1]) {
            Some(next) => serial_from(t, next, (budget - 1) as nat),
            None => None,
        }
    }
}

fn find_zero(t: &[u8], p: usize) -> (r: usize)
    requires
        p <= t@.len(),
    ensures
        r == zero_from(t@, p as int),
        p <= r <= t@.len(),
{
    let mut q: usize = p;
    while q < t.len() && t[q] != 0
        invariant
            p <= q <= t@.len(),
            zero_from(t@, p as int) == zero_from(t@, q as int),
        decreases t@.len() - q,
    {
        q = q + 1;
    }
    q
}

/// Past the end of a string there is no further string.
proof fn lemma_off_the_end(t: Seq<u8>, p: int, i: nat, index: nat)
    requires
        0 <= p,
        1 <= i <= index,
        string_start(t, p, i) >= t.len(),
    ensures
        string_start(t, p, index) >= t.len(),
    decreases index,
{
    if i < index {
        lemma_off_the_end(t, p, i, (index - 1) as nat);
    }
}

fn smbios_string(t: &[u8], p: usize, index: u8) -> (r: Option<String>)
    requires
        p <= t@.len(),
    ensures
        text::opt_text(r) == string_at(t@, p as int, index),
{
    if index == 0 {
        return None;
    }
    let mut from: usize = p;
    let mut i: u8 = 1;
    while i < index
        invariant
            1 <= i <= index,
            from <= t@.len(),
            p <= t@.len(),
            from == string_start(t@, p as int, i as nat),
        decreases index - i,
    {
        let end = find_zero(t, from);
        i = i + 1;
        if end == t.len() {
            assert(string_start(t@, p as int, i as nat) >= t@.len());
            proof {
                lemma_off_the_end(t@, p as int, i as nat, index as nat);
            }
            return None;
        }
        from = end + 1;
    }
    let end = find_zero(t, from);
    if end == t.len() && end - from < MAX_STRING {
        return None;
    }
    let stop: usize = if end - from <= MAX_STRING {
        end
    } else {
        from + MAX_STRING
    };
    let mut raw = String::new();
    let mut k: usize = from;
    while k < stop
        invariant
            from <= k <= stop <= t@.len(),
            raw@ == latin(t@.subrange(from as int, k as int)),
        decreases stop - k,
    {
        raw.push(t[k] as char);
        k = k + 1;
        assert(latin(t@.subrange(from as int, k as int)) =~= latin(
            t@.subrange(from as int, k - 1),
        ).push(t@[k - 1] as char));
    }
    strings::nonempty(strings::trim(raw.as_str()))
}

fn skip_strings(t: &[u8], p: usize) -> (r: Option<usize>)
    ensures
        match r {
            Some(next) => past_double_zero(t@, p as int) == Some(next as int) && next <= t@.len(),
            None => past_double_zero(t@, p as int) is None,
        },
{
    if p >= t.len() {
        return None;
    }
    let n: usize = t.len();
    let mut q: usize = p;
    while q < n - 1
        invariant
            q < n == t@.len(),
            past_double_zero(t@, p as int) == past_double_zero(t@, q as int),
        decreases n - q,
    {
        if t[q] == 0 && t[q + 1] == 0 {
            return Some(q + 2);
        }
        q = q + 1;
    }
    None
}

/// The system serial number (the service tag on Dell hardware) that a structure
/// table holds.
pub fn service_tag(table: &[u8]) -> (r: Option<String>)
    ensures
        text::opt_text(r) == serial_from(table@, 0, MAX_STRUCTURES as nat),
{
    let n: usize = table.len();
    let mut p: usize = 0;
    let mut budget: usize = MAX_STRUCTURES;
    while budget > 0
        invariant
            p <= n == table@.len(),
            serial_from(table@, 0, MAX_STRUCTURES as nat) == serial_from(
                table@,
                p as int,
                budget as nat,
            ),
        decreases budget,
    {
        if n - p < 2 {
            return None;
        }
        let stype: u8 = table[p];
        let len: usize = table[p + 1] as usize;
        if len < 4 || stype == 127 {
            return None;
        }
        if stype == 1 {
            if n - p <= 7 {
                return None;
            }
            if n - p < len {
                proof {
                    lemma_beyond(table@, p + len, table@[p + 7]);
                }
                return None;
            }
            return smbios_string(table, p + len, table[p + 7]);
        }
        if n - p < len {
            return None;
        }
        match skip_strings(table, p + len) {
            Some(next) => {
                p = next;
            },
            None => return None,
        }
        budget = budget - 1;
    }
    None
}

/// There is no string beyond the table.
proof fn lemma_beyond(t: Seq<u8>, p: int, index: u8)
    requires
        p >= t.len(),
    ensures
        string_at(t, p, index) is None,
{
    if index > 0 {
        lemma_off_the_end(t, p, 1, index as nat);
    }
}

// ---------------------------------------------------------------------------
// Laws

/// Where a 64-bit entry point leads to a table, the table that is read is one that
/// a 64-bit entry point leads to.
pub proof fn law_the_64_bit_entry_point_is_preferred(entries: Seq<EntryPoint>, table: u64, i: int)
    requires
        0 <= i < entries.len(),
        entries[i] matches EntryPoint::Smbios3(t) && t != 0,
    ensures
        selected(entries, table) != 0,
        exists|j: int|
            0 <= j < entries.len() && #[trigger] entries[j] == EntryPoint::Smbios3(
                selected(entries, table),
            ),
    decreases entries.len(),
{
    let found = entries[0] is Smbios3 && entries[0]->Smbios3_0 != 0;
    if found {
        assert(entries[0] == EntryPoint::Smbios3(selected(entries, table)));
    } else {
        let rest = entries.skip(1);
        assert(rest[i - 1] == entries[i]);
        let carried = match entries[0] {
            EntryPoint::Smbios3(_) => table,
            EntryPoint::Smbios(t) => if table == 0 {
                t
            } else {
                table
            },
            EntryPoint::Other => table,
        };
        law_the_64_bit_entry_point_is_preferred(rest, carried, i - 1);
        let j = choose|j: int|
            0 <= j < rest.len() && #[trigger] rest[j] == EntryPoint::Smbios3(
                selected(rest, carried),
            );
        assert(entries[j + 1] == rest[j]);
    }
}

/// Where no 64-bit entry point leads anywhere, a legacy one that does is the one read.
pub proof fn law_the_legacy_entry_point_is_the_fallback(
    entries: Seq<EntryPoint>,
    table: u64,
    i: int,
)
    requires
        forall|j: int|
            0 <= j < entries.len() ==> !((#[trigger] entries[j]) matches EntryPoint::Smbios3(t) && t
                != 0),
        table != 0 || 0 <= i < entries.len() && (entries[i] matches EntryPoint::Smbios(t) && t
            != 0),
    ensures
        selected(entries, table) != 0,
        table != 0 ==> selected(entries, table) == table,
        table == 0 ==> exists|j: int|
            0 <= j < entries.len() && #[trigger] entries[j] == EntryPoint::Smbios(
                selected(entries, table),
            ),
    decreases entries.len(),
{
    if entries.len() > 0 {
        let rest = entries.skip(1);
        assert forall|j: int| 0 <= j < rest.len() implies !((#[trigger] rest[j])
            matches EntryPoint::Smbios3(t) && t != 0) by {
            assert(rest[j] == entries[j + 1]);
        }
        let carried = match entries[0] {
            EntryPoint::Smbios(t) => if table == 0 {
                t
            } else {
                table
            },
            _ => table,
        };
        if carried == 0 {
            assert(rest[i - 1] == entries[i]);
        }
        law_the_legacy_entry_point_is_the_fallback(rest, carried, i - 1);
        if table == 0 {
            if carried != 0 {
                assert(entries[0] == EntryPoint::Smbios(selected(entries, table)));
            } else {
                let j = choose|j: int|
                    0 <= j < rest.len() && #[trigger] rest[j] == EntryPoint::Smbios(
                        selected(rest, carried),
                    );
                assert(entries[j + 1] == rest[j]);
            }
        }
    }
}

/// A system structure gives the serial number that its eighth byte points at: the string of
/// that number behind its formatted part, up to the zero that ends it.
pub proof fn law_a_system_structure_gives_its_serial(t: Seq<u8>, p: int, end: int)
    requires
        0 <= p,
        p + 7 < t.len(),
        t[p] == 1,
        t[p + 1] >= 4,
        t[p + 7] == 1,
        p + t[p + 1] <= end < t.len(),
        end <= p + t[p + 1] + 128,
        t[end] == 0,
        forall|i: int| p + t[p + 1] <= i < end ==> #[trigger] t[i] != 0,
    ensures
        ({
            let s = text::trim(
                Seq::new((end - p - t[p + 1]) as nat, |i: int| t[p + t[p + 1] + i] as char),
            );
            serial_from(t, p, 64) == if s.len() > 0 {
                Some(s)
            } else {
                None
            }
        }),
{
    let from = p + t[p + 1];
    lemma_zero_at(t, from, end);
    assert(latin(t.subrange(from, end)) =~= Seq::new((end - from) as nat, |i: int| t[from + i] as char));
}

proof fn lemma_zero_at(t: Seq<u8>, p: int, end: int)
    requires
        0 <= p <= end < t.len(),
        t[end] == 0,
        forall|i: int| p <= i < end ==> #[trigger] t[i] != 0,
    ensures
        zero_from(t, p) == end,
    decreases end - p,
{
    if p < end {
        assert(t[p] != 0);
        lemma_zero_at(t, p + 1, end);
    }
}

/// A structure of another kind is passed over: the serial is that of what stands behind the
/// two zeros that end it.
pub proof fn law_other_structures_are_passed_over(t: Seq<u8>, p: int, budget: nat)
    requires
        budget > 0,
        0 <= p,
        p + 1 < t.len(),
        t[p + 1] >= 4,
        t[p] != 1,
        t[p] != 127,
        p + t[p + 1] + 1 < t.len(),
        t[p + t[p + 1]] == 0,
        t[p + t[p + 1] + 1] == 0,
    ensures
        serial_from(t, p, budget) == serial_from(t, p + t[p + 1] + 2, (budget - 1) as nat),
{
}

} // verus!
