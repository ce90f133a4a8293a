//! IPv4 addresses in dotted form.

use crate::strings;
use crate::text;
use vstd::prelude::*;
use vstd::string::StringExecFns;

verus! {

/// The octet that a part of an address spells. Where `loose`, white space around
/// it does not count.
pub open spec fn part(s: Seq<char>, loose: bool) -> Option<nat> {
    text::parse_dec(
        if loose {
            text::trim(s)
        } else {
            s
        },
        255,
    )
}

/// The four octets that `s` spells.
pub open spec fn address(s: Seq<char>, loose: bool) -> Option<Seq<u8>> {
    let parts = text::split(text::trim(s), '.');
    if parts.len() == 4 && part(parts[0], loose) is Some && part(parts[1], loose) is Some && part(
        parts[2],
        loose,
    ) is Some && part(parts[3], loose) is Some {
        Some(
            seq![
                part(parts[0], loose)->0 as u8,
                part(parts[1], loose)->0 as u8,
                part(parts[2], loose)->0 as u8,
                part(parts[3], loose)->0 as u8,
            ],
        )
    } else {
        None
    }
}

pub open spec fn opt_address(o: Option<[u8; 4]>) -> Option<Seq<u8>> {
    match o {
        Some(a) => Some(a@),
        None => None,
    }
}

fn parse_part(s: &str, loose: bool) -> (r: Option<u8>)
    ensures
        match r {
            Some(n) => part(s@, loose) == Some(n as nat),
            None => part(s@, loose) is None,
        },
{
    let trimmed = if loose {
        strings::trim(s)
    } else {
        s.to_owned()
    };
    match strings::parse_dec(trimmed.as_str(), 255) {
        Some(n) => Some(n as u8),
        None => None,
    }
}

pub fn parse(s: &str, loose: bool) -> (r: Option<[u8; 4]>)
    ensures
        opt_address(r) == address(s@, loose),
{
    let trimmed = strings::trim(s);
    let parts = strings::split(trimmed.as_str(), '.');
    let ghost pieces = text::texts(parts@);
    if parts.len() != 4 {
        return None;
    }
    assert(pieces[0] == parts@[0]@ && pieces[1] == parts@[1]@ && pieces[2] == parts@[2]@
        && pieces[3] == parts@[3]@);
    let a = parse_part(parts[0].as_str(), loose);
    let b = parse_part(parts[1].as_str(), loose);
    let c = parse_part(parts[2].as_str(), loose);
    let d = parse_part(parts[3].as_str(), loose);
    match (a, b, c, d) {
        (Some(a), Some(b), Some(c), Some(d)) => {
            let r = [a, b, c, d];
            assert(r@ =~= seq![a, b, c, d]);
            Some(r)
        },
        _ => None,
    }
}

/// An address in dotted form.
pub open spec fn dotted(a: Seq<u8>) -> Seq<char> {
    text::dec(a[0] as nat) + "."@ + text::dec(a[1] as nat) + "."@ + text::dec(a[2] as nat) + "."@
        + text::dec(a[3] as nat)
}

pub fn show(a: &[u8; 4]) -> (r: String)
    ensures
        r@ == dotted(a@),
{
    let mut out = strings::dec(a[0] as u64);
    out.append(".");
    out.append(strings::dec(a[1] as u64).as_str());
    out.append(".");
    out.append(strings::dec(a[2] as u64).as_str());
    out.append(".");
    out.append(strings::dec(a[3] as u64).as_str());
    out
}

// ---------------------------------------------------------------------------
// Laws

/// What an address is written as is trimmed, stands on one line, and reads back.
pub proof fn law_dotted_reads_back(a: Seq<u8>, loose: bool)
    requires
        a.len() == 4,
    ensures
        address(dotted(a), loose) == Some(a),
        text::is_trimmed(dotted(a)),
        text::free_of(dotted(a), '\n'),
        text::free_of(dotted(a), '"'),
        text::free_of(dotted(a), '='),
{
    reveal_strlit(".");
    let d0 = text::dec(a[0] as nat);
    let d1 = text::dec(a[1] as nat);
    let d2 = text::dec(a[2] as nat);
    let d3 = text::dec(a[3] as nat);
    text::law_decimals_read_back(a[0] as nat, 255);
    text::law_decimals_read_back(a[1] as nat, 255);
    text::law_decimals_read_back(a[2] as nat, 255);
    text::law_decimals_read_back(a[3] as nat, 255);
    lemma_octet(d0);
    lemma_octet(d1);
    lemma_octet(d2);
    lemma_octet(d3);
    let dot = seq!['.'];
    let t3 = d2 + dot + d3;
    let t2 = d1 + dot + t3;
    let t1 = d0 + dot + t2;
    let s = dotted(a);
    assert("."@ =~= dot);
    assert(s =~= t1);
    text::law_splits(d0, '.', t2);
    text::law_splits(d1, '.', t3);
    text::law_splits(d2, '.', d3);
    text::law_splits(d3, '.', d3);
    assert(text::split(t1, '.') =~= seq![d0, d1, d2, d3]);
    assert(s[0] == d0[0]);
    assert(s.last() == d3.last());
    text::law_trimmed(s);
    assert(part(d0, loose) == Some(a[0] as nat));
    assert(part(d1, loose) == Some(a[1] as nat));
    assert(part(d2, loose) == Some(a[2] as nat));
    assert(part(d3, loose) == Some(a[3] as nat));
    assert(address(s, loose)->0 =~= a);
    assert forall|i: int| 0 <= i < s.len() implies (text::is_digit(#[trigger] s[i]) || s[i] == '.') by {
        let n0 = d0.len() as int;
        let n1 = n0 + 1 + d1.len();
        let n2 = n1 + 1 + d2.len();
        if i < n0 {
            assert(s[i] == d0[i]);
        } else if n0 < i < n1 {
            assert(s[i] == d1[i - n0 - 1]);
        } else if n1 < i < n2 {
            assert(s[i] == d2[i - n1 - 1]);
        } else if i > n2 {
            assert(s[i] == d3[i - n2 - 1]);
        }
    }
}

proof fn lemma_octet(d: Seq<char>)
    requires
        d.len() > 0,
        text::all_digits(d),
    ensures
        text::free_of(d, '.'),
        text::is_trimmed(d),
        text::trim(d) == d,
{
    text::law_digits_are_plain(d, '.');
    text::law_trimmed(d);
}

/// An address is four numbers below 256 with dots between them; with fewer or more parts it
/// is none.
pub proof fn law_an_address_has_four_octets(s: Seq<char>, loose: bool)
    ensures
        address(s, loose) is Some ==> address(s, loose)->0.len() == 4 && text::split(
            text::trim(s),
            '.',
        ).len() == 4,
        text::free_of(text::trim(s), '.') ==> address(s, loose) is None,
{
    if text::free_of(text::trim(s), '.') {
        text::law_splits(text::trim(s), '.', Seq::empty());
    }
}

} // verus!
