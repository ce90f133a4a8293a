//! MAC address normalisation.
//!
//! A MAC arrives in several spellings: iPXE's `${net0/mac}` uses colons, DHCP
//! tooling often uses dashes, some BMCs report bare hex, and Cisco-style dotted
//! quads turn up in inventory exports. A host must resolve to the same identity
//! whichever one asked, so every MAC is normalised the moment it arrives and
//! stored only in canonical form.

use crate::strings;
use crate::text;
use vstd::prelude::*;
use vstd::string::StringExecFns;

verus! {

/// A MAC in canonical form: its six octets as one number, the first octet the
/// most significant. Addresses compare as their octets do, first one first.
#[derive(Debug, Clone, Copy, PartialEq, Eq, Structural, PartialOrd, Ord, Hash)]
pub struct Mac(u64);

#[derive(Debug, Clone, Copy, PartialEq, Eq, Structural)]
pub enum MacParseError {
    /// Not 12 hex digits once separators are removed.
    WrongLength(usize),
    /// A character that is neither hex nor a recognised separator.
    NotHex(char),
}

/// What may stand between the digits of an address.
pub open spec fn is_separator(c: char) -> bool {
    c == ':' || c == '-' || c == '.' || c == '_' || c == ' '
}

/// The characters of `s` that are not separators.
pub open spec fn digits(s: Seq<char>) -> Seq<char>
    decreases s.len(),
{
    if s.len() == 0 {
        s
    } else if is_separator(s.last()) {
        digits(s.drop_last())
    } else {
        digits(s.drop_last()).push(s.last())
    }
}

/// The first character of `s` that is neither a separator nor a hex digit.
pub open spec fn first_bad(s: Seq<char>) -> Option<char>
    decreases s.len(),
{
    if s.len() == 0 {
        None
    } else if !is_separator(s[0]) && text::hex_value(s[0]) is None {
        Some(s[0])
    } else {
        first_bad(s.skip(1))
    }
}

/// The octet that two hex digits spell.
pub open spec fn octet(high: char, low: char) -> int {
    match (text::hex_value(high), text::hex_value(low)) {
        (Some(h), Some(l)) => (16 * h + l) as int,
        _ => -1,
    }
}

/// `octets` are the six that twelve hex digits spell.
pub open spec fn spells(digits: Seq<char>, octets: Seq<u8>) -> bool {
    &&& digits.len() == 12
    &&& octets.len() == 6
    &&& forall|i: int|
        0 <= i < 6 ==> #[trigger] octets[i] as int == octet(digits[2 * i], digits[2 * i + 1])
}

/// What reading `s` as an address comes to.
pub open spec fn parsed(s: Seq<char>) -> Result<Mac, MacParseError> {
    match first_bad(s) {
        Some(c) => Err(MacParseError::NotHex(c)),
        None => if digits(s).len() != 12 {
            Err(MacParseError::WrongLength(digits(s).len() as usize))
        } else {
            Ok(choose|mac: Mac| #[trigger] mac.valid() && spells(digits(s), mac@))
        },
    }
}

/// Six octets in lowercase hex, separated by colons.
pub open spec fn canonical(octets: Seq<u8>) -> Seq<char> {
    text::hex2(octets[0]) + ":"@ + text::hex2(octets[1]) + ":"@ + text::hex2(octets[2]) + ":"@
        + text::hex2(octets[3]) + ":"@ + text::hex2(octets[4]) + ":"@ + text::hex2(octets[5])
}

impl MacParseError {
    /// What to tell whoever sent the address.
    pub open spec fn says(self) -> Seq<char> {
        match self {
            MacParseError::WrongLength(n) => "expected 12 hex digits, found "@ + text::dec(
                n as nat,
            ),
            MacParseError::NotHex(c) => "invalid character "@ + strings::debug_char_text(c)
                + " in MAC"@,
        }
    }

    pub fn message(&self) -> (r: String)
        ensures
            r@ == self.says(),
    {
        match self {
            MacParseError::WrongLength(n) => {
                let mut out = "expected 12 hex digits, found ".to_owned();
                out.append(strings::dec(*n as u64).as_str());
                out
            },
            MacParseError::NotHex(c) => {
                let mut out = "invalid character ".to_owned();
                out.append(strings::debug_char(*c).as_str());
                out.append(" in MAC");
                out
            },
        }
    }
}

impl View for Mac {
    type V = Seq<u8>;

    closed spec fn view(&self) -> Seq<u8> {
        seq![
            (self.0 / 0x100_0000_0000 % 256) as u8,
            (self.0 / 0x1_0000_0000 % 256) as u8,
            (self.0 / 0x100_0000 % 256) as u8,
            (self.0 / 0x1_0000 % 256) as u8,
            (self.0 / 0x100 % 256) as u8,
            (self.0 % 256) as u8,
        ]
    }
}

impl Mac {
    /// That the address holds six octets and nothing more. Every address does.
    #[verifier::type_invariant]
    pub closed spec fn valid(self) -> bool {
        self.0 < 0x1_0000_0000_0000
    }

    /// Where the address stands in the order of addresses.
    pub closed spec fn rank(self) -> nat {
        self.0 as nat
    }

    pub fn parse(input: &str) -> (r: Result<Self, MacParseError>)
        ensures
            match r {
                Ok(mac) => first_bad(input@) is None && spells(digits(input@), mac@) && mac.valid(),
                Err(MacParseError::NotHex(c)) => first_bad(input@) == Some(c),
                Err(MacParseError::WrongLength(n)) => first_bad(input@) is None && digits(
                    input@,
                ).len() == n && n != 12,
            },
            r == parsed(input@),
    {
        let chars = strings::chars_of(input);
        let mut nibbles: Vec<u8> = Vec::new();
        let mut i: usize = 0;
        assert(chars@.skip(0) == chars@);
        while i < chars.len()
            invariant
                i <= chars@.len(),
                chars@ == input@,
                first_bad(input@) == first_bad(input@.skip(i as int)),
                nibbles@.len() == digits(input@.take(i as int)).len(),
                forall|j: int|
                    0 <= j < nibbles@.len() ==> nibbles@[j] < 16 && text::hex_value(
                        digits(input@.take(i as int))[j],
                    ) == Some(#[trigger] nibbles@[j] as nat),
            decreases chars@.len() - i,
        {
            let ch = chars[i];
            let ghost next = input@.take(i + 1);
            assert(next.drop_last() == input@.take(i as int));
            assert(next.last() == ch);
            assert(input@.skip(i as int).skip(1) == input@.skip(i + 1));
            assert(input@.skip(i as int)[0] == ch);
            i = i + 1;
            if ch == ':' || ch == '-' || ch == '.' || ch == '_' || ch == ' ' {
                continue ;
            }
            match strings::hex_value(ch) {
                Some(digit) => nibbles.push(digit),
                None => return Err(MacParseError::NotHex(ch)),
            }
        }
        assert(input@.take(i as int) == input@);
        if nibbles.len() != 12 {
            return Err(MacParseError::WrongLength(nibbles.len()));
        }
        let a: u8 = nibbles[0] * 16 + nibbles[1];
        let b: u8 = nibbles[2] * 16 + nibbles[3];
        let c: u8 = nibbles[4] * 16 + nibbles[5];
        let d: u8 = nibbles[6] * 16 + nibbles[7];
        let e: u8 = nibbles[8] * 16 + nibbles[9];
        let g: u8 = nibbles[10] * 16 + nibbles[11];
        let mac = Self::of_octets(a, b, c, d, e, g);
        proof {
            let ds = digits(input@);
            let ns = nibbles@;
            assert(ns[0] < 16 && ns[1] < 16 && ns[2] < 16 && ns[3] < 16 && ns[4] < 16 && ns[5] < 16
                && ns[6] < 16 && ns[7] < 16 && ns[8] < 16 && ns[9] < 16 && ns[10] < 16 && ns[11]
                < 16);
            assert(mac@ == seq![a, b, c, d, e, g]);
            assert forall|k: int| 0 <= k < 6 implies #[trigger] mac@[k] as int == octet(
                ds[2 * k],
                ds[2 * k + 1],
            ) by {
                assert(mac@[k] == ns[2 * k] * 16 + ns[2 * k + 1]);
            }
        }
        proof {
            law_digits_name_one_address(digits(input@), mac, parsed(input@)->Ok_0);
        }
        Ok(mac)
    }

    /// The address with these octets.
    fn of_octets(a: u8, b: u8, c: u8, d: u8, e: u8, g: u8) -> (mac: Self)
        ensures
            mac@ == seq![a, b, c, d, e, g],
            mac.valid(),
    {
        let v: u64 = (a as u64) << 40 | (b as u64) << 32 | (c as u64) << 24 | (d as u64) << 16 | (
        e as u64) << 8 | g as u64;
        proof {
            lemma_octets(v, a, b, c, d, e, g);
        }
        Mac(v)
    }

    pub fn octets(&self) -> (r: [u8; 6])
        ensures
            r@ == self@,
    {
        let v: u64 = self.0;
        let r = [
            (v / 0x100_0000_0000 % 256) as u8,
            (v / 0x1_0000_0000 % 256) as u8,
            (v / 0x100_0000 % 256) as u8,
            (v / 0x1_0000 % 256) as u8,
            (v / 0x100 % 256) as u8,
            (v % 256) as u8,
        ];
        assert(r@ == self@);
        r
    }

    /// The canonical spelling: lowercase, colon-separated.
    pub fn to_text(&self) -> (r: String)
        ensures
            r@ == canonical(self@),
    {
        let o = self.octets();
        let mut out = strings::hex2(o[0]);
        out.append(":");
        out.append(strings::hex2(o[1]).as_str());
        out.append(":");
        out.append(strings::hex2(o[2]).as_str());
        out.append(":");
        out.append(strings::hex2(o[3]).as_str());
        out.append(":");
        out.append(strings::hex2(o[4]).as_str());
        out.append(":");
        out.append(strings::hex2(o[5]).as_str());
        out
    }

    /// Whether this address stands before `other`.
    pub fn before(&self, other: &Mac) -> (r: bool)
        ensures
            r == (self.rank() < other.rank()),
    {
        self.0 < other.0
    }
}

// ---------------------------------------------------------------------------
// Laws

/// The order of addresses tells any two of them apart.
pub proof fn law_rank_is_identity(a: Mac, b: Mac)
    ensures
        a.rank() == b.rank() <==> a == b,
{
}

/// An address is its octets.
pub proof fn law_octets_are_identity(a: Mac, b: Mac)
    requires
        a.valid(),
        b.valid(),
    ensures
        a@ == b@ <==> a == b,
{
    if a@ == b@ {
        let (v, w) = (a.0, b.0);
        assert(a@[0] == b@[0] && a@[1] == b@[1] && a@[2] == b@[2] && a@[3] == b@[3] && a@[4] == b@[4]
            && a@[5] == b@[5]);
        assert(v == w) by (bit_vector)
            requires
                v < 0x1_0000_0000_0000,
                w < 0x1_0000_0000_0000,
                v / 0x100_0000_0000 % 256 == w / 0x100_0000_0000 % 256,
                v / 0x1_0000_0000 % 256 == w / 0x1_0000_0000 % 256,
                v / 0x100_0000 % 256 == w / 0x100_0000 % 256,
                v / 0x1_0000 % 256 == w / 0x1_0000 % 256,
                v / 0x100 % 256 == w / 0x100 % 256,
                v % 256 == w % 256,
        ;
    }
}

/// Twelve digits spell one address.
pub proof fn law_digits_name_one_address(digits: Seq<char>, a: Mac, b: Mac)
    requires
        a.valid(),
        b.valid(),
        spells(digits, a@),
        spells(digits, b@),
    ensures
        a == b,
{
    assert forall|i: int| 0 <= i < 6 implies a@[i] == b@[i] by {
        assert(a@[i] as int == octet(digits[2 * i], digits[2 * i + 1]));
        assert(b@[i] as int == octet(digits[2 * i], digits[2 * i + 1]));
    }
    assert(a@ =~= b@);
    law_octets_are_identity(a, b);
}

/// Spellings that differ only in separators and in the case of their digits
/// name the same host.
pub proof fn law_every_spelling_is_the_same_identity(first: Seq<char>, second: Seq<char>)
    requires
        parsed(first) is Ok,
        text::to_lower(digits(first)) == text::to_lower(digits(second)),
    ensures
        parsed(second) == parsed(first),
{
    let (x, y) = (digits(first), digits(second));
    assert(text::to_lower(x).len() == x.len() && text::to_lower(y).len() == y.len());
    lemma_good_digits(first);
    assert forall|i: int| 0 <= i < 12 implies text::hex_value(#[trigger] y[i]) == text::hex_value(
        x[i],
    ) && text::hex_value(y[i]) is Some by {
        assert(text::to_lower(x)[i] == text::to_lower(y)[i]);
        assert(text::lower(x[i]) == text::lower(y[i]));
    }
    lemma_no_bad(second);
    assert forall|m: Mac| #[trigger] m.valid() implies spells(x, m@) == spells(y, m@) by {
        assert forall|i: int| 0 <= i < 6 implies octet(x[2 * i], x[2 * i + 1]) == #[trigger] octet(
            y[2 * i],
            y[2 * i + 1],
        ) by {
            assert(text::hex_value(y[2 * i]) == text::hex_value(x[2 * i]));
            assert(text::hex_value(y[2 * i + 1]) == text::hex_value(x[2 * i + 1]));
        }
        if spells(x, m@) {
            assert forall|i: int| 0 <= i < 6 implies #[trigger] m@[i] as int == octet(
                y[2 * i],
                y[2 * i + 1],
            ) by {
                assert(m@[i] as int == octet(x[2 * i], x[2 * i + 1]));
            }
        }
        if spells(y, m@) {
            assert forall|i: int| 0 <= i < 6 implies #[trigger] m@[i] as int == octet(
                x[2 * i],
                x[2 * i + 1],
            ) by {
                assert(m@[i] as int == octet(y[2 * i], y[2 * i + 1]));
            }
        }
    }
    let a = lemma_some_address(x);
    assert(spells(y, a@));
    law_digits_name_one_address(x, a, parsed(first)->Ok_0);
    law_digits_name_one_address(y, a, parsed(second)->Ok_0);
}

/// Twelve hex digits spell some address.
proof fn lemma_some_address(d: Seq<char>) -> (mac: Mac)
    requires
        d.len() == 12,
        forall|i: int| 0 <= i < 12 ==> text::hex_value(#[trigger] d[i]) is Some,
    ensures
        mac.valid(),
        spells(d, mac@),
{
    let (a, b, c) = (octet(d[0], d[1]) as u8, octet(d[2], d[3]) as u8, octet(d[4], d[5]) as u8);
    let (e, f, g) = (octet(d[6], d[7]) as u8, octet(d[8], d[9]) as u8, octet(d[10], d[11]) as u8);
    let v = (a as u64) << 40 | (b as u64) << 32 | (c as u64) << 24 | (e as u64) << 16 | (f as u64)
        << 8 | g as u64;
    lemma_octets(v, a, b, c, e, f, g);
    let mac = Mac(v);
    assert(mac@ =~= seq![a, b, c, e, f, g]);
    assert forall|i: int| 0 <= i < 6 implies #[trigger] mac@[i] as int == octet(
        d[2 * i],
        d[2 * i + 1],
    ) by {
        assert(text::hex_value(d[2 * i]) is Some && text::hex_value(d[2 * i + 1]) is Some);
        assert(i == 0 || i == 1 || i == 2 || i == 3 || i == 4 || i == 5);
    }
    mac
}

/// Six octets put together come apart again.
proof fn lemma_octets(v: u64, a: u8, b: u8, c: u8, d: u8, e: u8, g: u8)
    by (bit_vector)
    requires
        v == (a as u64) << 40 | (b as u64) << 32 | (c as u64) << 24 | (d as u64) << 16 | (e as u64)
            << 8 | g as u64,
    ensures
        v < 0x1_0000_0000_0000,
        v / 0x100_0000_0000 % 256 == a,
        v / 0x1_0000_0000 % 256 == b,
        v / 0x100_0000 % 256 == c,
        v / 0x1_0000 % 256 == d,
        v / 0x100 % 256 == e,
        v % 256 == g,
{
}

/// A text without a bad character has only hex digits between its separators.
proof fn lemma_good_digits(s: Seq<char>)
    requires
        first_bad(s) is None,
    ensures
        forall|i: int| 0 <= i < digits(s).len() ==> text::hex_value(#[trigger] digits(s)[i]) is Some,
    decreases s.len(),
{
    if s.len() > 0 {
        lemma_first_bad_prefix(s);
        lemma_first_bad_add(s.drop_last(), seq![s.last()]);
        assert(s.drop_last() + seq![s.last()] == s);
        lemma_good_digits(s.drop_last());
    }
}

/// No text has a bad character that a longer one starting with it has not.
proof fn lemma_first_bad_prefix(s: Seq<char>)
    requires
        s.len() > 0,
        first_bad(s) is None,
    ensures
        first_bad(s.drop_last()) is None,
    decreases s.len(),
{
    if s.len() > 1 {
        lemma_first_bad_prefix(s.skip(1));
        assert(s.skip(1).drop_last() == s.drop_last().skip(1));
        assert(s.drop_last()[0] == s[0]);
    }
}

/// A text with only hex digits between its separators has no bad character.
proof fn lemma_no_bad(s: Seq<char>)
    requires
        forall|i: int| 0 <= i < digits(s).len() ==> text::hex_value(#[trigger] digits(s)[i]) is Some,
    ensures
        first_bad(s) is None,
    decreases s.len(),
{
    if s.len() > 0 {
        let rest = s.drop_last();
        assert forall|i: int| 0 <= i < digits(rest).len() implies text::hex_value(
            #[trigger] digits(rest)[i],
        ) is Some by {
            assert(digits(s)[i] == digits(rest)[i]);
        }
        lemma_no_bad(rest);
        lemma_first_bad_add(rest, seq![s.last()]);
        assert(rest + seq![s.last()] == s);
        if !is_separator(s.last()) {
            assert(digits(s)[digits(s).len() - 1] == s.last());
        }
        assert(seq![s.last()].skip(1) == Seq::<char>::empty());
        reveal_with_fuel(first_bad, 2);
    }
}

/// The digits of two texts put together.
proof fn lemma_digits_add(a: Seq<char>, b: Seq<char>)
    ensures
        digits(a + b) == digits(a) + digits(b),
    decreases b.len(),
{
    if b.len() == 0 {
        assert(a + b == a);
        assert(digits(a) + digits(b) == digits(a));
    } else {
        lemma_digits_add(a, b.drop_last());
        assert((a + b).drop_last() == a + b.drop_last());
        assert((a + b).last() == b.last());
        if !is_separator(b.last()) {
            assert((digits(a) + digits(b.drop_last())).push(b.last()) == digits(a) + digits(
                b.drop_last(),
            ).push(b.last()));
        }
    }
}

/// A text made of good characters has no bad one in front of what follows it.
proof fn lemma_first_bad_add(a: Seq<char>, b: Seq<char>)
    requires
        first_bad(a) is None,
    ensures
        first_bad(a + b) == first_bad(b),
    decreases a.len(),
{
    if a.len() == 0 {
        assert(a + b == b);
    } else {
        lemma_first_bad_add(a.skip(1), b);
        assert((a + b)[0] == a[0]);
        assert((a + b).skip(1) == a.skip(1) + b);
    }
}

proof fn lemma_hex2(b: u8)
    ensures
        digits(text::hex2(b)) == text::hex2(b),
        first_bad(text::hex2(b)) is None,
        octet(text::hex2(b)[0], text::hex2(b)[1]) == b,
{
    let s = text::hex2(b);
    reveal_with_fuel(digits, 3);
    reveal_with_fuel(first_bad, 3);
    assert(s.drop_last() == seq![s[0]]);
    assert(s.drop_last().drop_last() == Seq::<char>::empty());
    assert(digits(s.drop_last()) == seq![s[0]]);
    assert(digits(s) == s);
    assert(s.skip(1) == seq![s[1]]);
    assert(s.skip(1).skip(1) == Seq::<char>::empty());
}

proof fn lemma_colon()
    ensures
        digits(":"@) == Seq::<char>::empty(),
        first_bad(":"@) is None,
{
    reveal_strlit(":");
    reveal_with_fuel(digits, 2);
    reveal_with_fuel(first_bad, 2);
    assert(":"@.drop_last() == Seq::<char>::empty());
    assert(":"@.skip(1) == Seq::<char>::empty());
}

/// Behind what has been spelled so far, a colon and one more octet.
proof fn lemma_one_more(a: Seq<char>, b: u8)
    requires
        first_bad(a) is None,
    ensures
        first_bad(a + ":"@ + text::hex2(b)) is None,
        digits(a + ":"@ + text::hex2(b)) == digits(a) + text::hex2(b),
{
    lemma_colon();
    lemma_hex2(b);
    lemma_first_bad_add(a, ":"@);
    lemma_first_bad_add(a + ":"@, text::hex2(b));
    lemma_digits_add(a, ":"@);
    lemma_digits_add(a + ":"@, text::hex2(b));
    assert(digits(a) + Seq::<char>::empty() == digits(a));
}

/// What an address is written as reads back as that address.
pub proof fn law_text_reads_back(mac: Mac)
    requires
        mac.valid(),
    ensures
        parsed(canonical(mac@)) == Ok::<Mac, MacParseError>(mac),
{
    let o = mac@;
    let s0 = text::hex2(o[0]);
    let s1 = s0 + ":"@ + text::hex2(o[1]);
    let s2 = s1 + ":"@ + text::hex2(o[2]);
    let s3 = s2 + ":"@ + text::hex2(o[3]);
    let s4 = s3 + ":"@ + text::hex2(o[4]);
    let s5 = s4 + ":"@ + text::hex2(o[5]);
    lemma_hex2(o[0]);
    lemma_one_more(s0, o[1]);
    lemma_one_more(s1, o[2]);
    lemma_one_more(s2, o[3]);
    lemma_one_more(s3, o[4]);
    lemma_one_more(s4, o[5]);
    assert(s5 == canonical(o));
    let d = digits(s5);
    assert(d == text::hex2(o[0]) + text::hex2(o[1]) + text::hex2(o[2]) + text::hex2(o[3])
        + text::hex2(o[4]) + text::hex2(o[5]));
    lemma_hex2(o[1]);
    lemma_hex2(o[2]);
    lemma_hex2(o[3]);
    lemma_hex2(o[4]);
    lemma_hex2(o[5]);
    assert(d[0] == text::hex2(o[0])[0] && d[1] == text::hex2(o[0])[1]);
    assert(d[2] == text::hex2(o[1])[0] && d[3] == text::hex2(o[1])[1]);
    assert(d[4] == text::hex2(o[2])[0] && d[5] == text::hex2(o[2])[1]);
    assert(d[6] == text::hex2(o[3])[0] && d[7] == text::hex2(o[3])[1]);
    assert(d[8] == text::hex2(o[4])[0] && d[9] == text::hex2(o[4])[1]);
    assert(d[10] == text::hex2(o[5])[0] && d[11] == text::hex2(o[5])[1]);
    assert forall|i: int| 0 <= i < 6 implies #[trigger] o[i] as int == octet(
        d[2 * i],
        d[2 * i + 1],
    ) by {
        assert(i == 0 || i == 1 || i == 2 || i == 3 || i == 4 || i == 5);
    }
    assert(spells(d, mac@));
    law_digits_name_one_address(d, mac, parsed(s5)->Ok_0);
}

/// The first stray character of two texts is that of the one, or else of the other.
proof fn lemma_first_bad_of_both(a: Seq<char>, b: Seq<char>)
    ensures
        first_bad(a + b) == match first_bad(a) {
            Some(c) => Some(c),
            None => first_bad(b),
        },
    decreases a.len(),
{
    if a.len() == 0 {
        assert(a + b =~= b);
    } else {
        assert((a + b)[0] == a[0]);
        assert((a + b).skip(1) =~= a.skip(1) + b);
        lemma_first_bad_of_both(a.skip(1), b);
    }
}

/// What stands between the digits makes no difference, wherever it stands: a colon, a
/// hyphen, a dot, an underscore or a space.
pub proof fn law_separators_make_no_difference(a: Seq<char>, c: char, b: Seq<char>)
    requires
        c == ':' || c == '-' || c == '.' || c == '_' || c == ' ',
    ensures
        parsed(a + seq![c] + b) == parsed(a + b),
{
    lemma_digits_add(a + seq![c], b);
    lemma_digits_add(a, seq![c]);
    lemma_digits_add(a, b);
    lemma_first_bad_of_both(a + seq![c], b);
    lemma_first_bad_of_both(a, seq![c]);
    lemma_first_bad_of_both(a, b);
    assert(seq![c].drop_last() =~= Seq::<char>::empty());
    assert(digits(Seq::<char>::empty()) =~= Seq::<char>::empty());
    assert(first_bad(Seq::<char>::empty()) is None);
    assert(seq![c].last() == c && seq![c][0] == c);
    assert(digits(seq![c]) =~= Seq::<char>::empty());
    assert(seq![c].skip(1) =~= Seq::<char>::empty());
    assert(first_bad(seq![c]) is None);
    assert(digits(a) + digits(seq![c]) =~= digits(a));
}

/// Twelve hex digits are an address, octet by octet, first one first; fewer or more are
/// none, and the error says how many there were. A character that is neither a digit nor
/// a separator is named, and no address comes of it.
pub proof fn law_twelve_digits_are_an_address(s: Seq<char>, i: int)
    requires
        forall|k: int| 0 <= k < s.len() ==> text::hex_value(#[trigger] s[k]) is Some,
        0 <= i < 6,
    ensures
        parsed(s) is Ok <==> s.len() == 12,
        s.len() == 12 ==> (parsed(s)->Ok_0)@.len() == 6 && (parsed(s)->Ok_0)@[i] == 16
            * text::hex_value(s[2 * i])->0 + text::hex_value(s[2 * i + 1])->0,
        s.len() != 12 && s.len() <= usize::MAX ==> parsed(s) == Err::<Mac, MacParseError>(
            MacParseError::WrongLength(s.len() as usize),
        ),
{
    lemma_plain(s);
    lemma_no_bad(s);
    if s.len() == 12 {
        let m = lemma_some_address(s);
        assert(m.valid() && spells(digits(s), m@));
        let read = parsed(s)->Ok_0;
        assert(spells(s, read@));
        assert(read@[i] as int == octet(s[2 * i], s[2 * i + 1]));
    }
}

proof fn lemma_plain(s: Seq<char>)
    requires
        forall|k: int| 0 <= k < s.len() ==> text::hex_value(#[trigger] s[k]) is Some,
    ensures
        digits(s) == s,
    decreases s.len(),
{
    if s.len() > 0 {
        let rest = s.drop_last();
        assert forall|k: int| 0 <= k < rest.len() implies text::hex_value(#[trigger] rest[k])
            is Some by {
            assert(rest[k] == s[k]);
        }
        lemma_plain(rest);
        assert(s[s.len() - 1] == s.last());
        assert(rest.push(s.last()) =~= s);
    }
}

/// The first character that belongs in no address is what is objected to.
pub proof fn law_a_stray_character_is_named(a: Seq<char>, c: char, b: Seq<char>)
    requires
        first_bad(a) is None,
        text::hex_value(c) is None,
        c != ':' && c != '-' && c != '.' && c != '_' && c != ' ',
    ensures
        parsed(a + seq![c] + b) == Err::<Mac, MacParseError>(MacParseError::NotHex(c)),
{
    lemma_first_bad_of_both(a + seq![c], b);
    lemma_first_bad_of_both(a, seq![c]);
    assert(seq![c][0] == c);
}

/// An address is written as seventeen characters: pairs of small hex digits with colons
/// between them.
pub proof fn law_an_address_is_written_in_pairs(octets: Seq<u8>, i: int)
    requires
        octets.len() == 6,
        0 <= i < 6,
    ensures
        canonical(octets).len() == 17,
        text::hex_value(canonical(octets)[3 * i]) == Some((octets[i] / 16) as nat),
        text::hex_value(canonical(octets)[3 * i + 1]) == Some((octets[i] % 16) as nat),
        i < 5 ==> canonical(octets)[3 * i + 2] == ':',
        text::to_lower(canonical(octets)) == canonical(octets),
{
    reveal_strlit(":");
    let c = canonical(octets);
    lemma_hex2(octets[0]);
    lemma_hex2(octets[1]);
    lemma_hex2(octets[2]);
    lemma_hex2(octets[3]);
    lemma_hex2(octets[4]);
    lemma_hex2(octets[5]);
    assert(i == 0 || i == 1 || i == 2 || i == 3 || i == 4 || i == 5);
    assert(c[3 * i] == text::hex2(octets[i])[0]);
    assert(c[3 * i + 1] == text::hex2(octets[i])[1]);
    assert forall|k: int| 0 <= k < 17 implies text::lower(#[trigger] c[k]) == c[k] by {
        if k % 3 == 2 {
            assert(c[k] == ':');
        } else {
            let j = k / 3;
            assert(j == 0 || j == 1 || j == 2 || j == 3 || j == 4 || j == 5);
            assert(c[k] == text::hex2(octets[j])[k % 3]);
        }
    }
    assert(text::to_lower(c) =~= c);
}

} // verus!
