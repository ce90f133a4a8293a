//! Strings: the operations of `text`, carried out.

use crate::text;
use vstd::prelude::*;
use vstd::string::StringExecFns;

verus! {

/// `String::push` appends the character to the string.
pub assume_specification[ String::push ](s: &mut String, c: char)
    ensures
        final(s)@ == old(s)@.push(c),
;

/// What the `Debug` form of a string is: the string between double quotes, with
/// the characters that would not read well there escaped.
pub uninterp spec fn debug_text(s: Seq<char>) -> Seq<char>;

/// The `Debug` form of `str`, from std's `format!`. It depends on the string
/// alone; which characters it escapes is not stated.
#[verifier::external_body]
pub(crate) fn debug(s: &str) -> (r: String)
    ensures
        r@ == debug_text(s@),
{
    format!("{s:?}")
}

/// What the `Debug` form of a character is: the character between single
/// quotes, escaped where it would not read well there.
pub uninterp spec fn debug_char_text(c: char) -> Seq<char>;

/// The `Debug` form of `char`, from std's `format!`. It depends on the character
/// alone; which characters it escapes is not stated.
#[verifier::external_body]
pub(crate) fn debug_char(c: char) -> (r: String)
    ensures
        r@ == debug_char_text(c),
{
    format!("{c:?}")
}

// ---------------------------------------------------------------------------
// Characters

pub fn is_white(c: char) -> (r: bool)
    ensures
        r == text::is_white(c),
{
    let n: u32 = c as u32;
    (0x09 <= n && n <= 0x0d) || n == 0x20 || n == 0x85 || n == 0xa0 || n == 0x1680 || (0x2000 <= n
        && n <= 0x200a) || n == 0x2028 || n == 0x2029 || n == 0x202f || n == 0x205f || n == 0x3000
}

pub fn is_digit(c: char) -> (r: bool)
    ensures
        r == text::is_digit(c),
{
    '0' <= c && c <= '9'
}

pub fn hex_value(c: char) -> (r: Option<u8>)
    ensures
        match r {
            Some(v) => text::hex_value(c) == Some(v as nat) && v < 16,
            None => text::hex_value(c) is None,
        },
{
    if '0' <= c && c <= '9' {
        Some((c as u32 - '0' as u32) as u8)
    } else if 'a' <= c && c <= 'f' {
        Some((c as u32 - 'a' as u32 + 10) as u8)
    } else if 'A' <= c && c <= 'F' {
        Some((c as u32 - 'A' as u32 + 10) as u8)
    } else {
        None
    }
}

pub fn hex_digit(n: u8) -> (r: char)
    requires
        n < 16,
    ensures
        r == text::hex_digit(n as nat),
{
    if n < 10 {
        (48 + n) as char
    } else {
        (97 + (n - 10)) as char
    }
}

pub fn lower(c: char) -> (r: char)
    ensures
        r == text::lower(c),
{
    if 'A' <= c && c <= 'Z' {
        (c as u8 + 32) as char
    } else {
        c
    }
}

// ---------------------------------------------------------------------------
// Strings as characters, and back

pub fn chars_of(s: &str) -> (r: Vec<char>)
    ensures
        r@ == s@,
{
    let mut out: Vec<char> = Vec::new();
    for c in it: s.chars()
        invariant
            it.seq() == s@,
            out@ == s@.take(it.index()),
    {
        out.push(c);
        assert(s@.take(it.index() + 1) == s@.take(it.index()).push(c));
    }
    assert(s@.take(s@.len() as int) == s@);
    out
}

/// The characters of `chars` from `from` up to `to`, as a string.
pub fn range(chars: &Vec<char>, from: usize, to: usize) -> (r: String)
    requires
        from <= to <= chars@.len(),
    ensures
        r@ == chars@.subrange(from as int, to as int),
{
    let mut out = String::new();
    let mut i: usize = from;
    while i < to
        invariant
            from <= i <= to <= chars@.len(),
            out@ == chars@.subrange(from as int, i as int),
        decreases to - i,
    {
        out.push(chars[i]);
        i = i + 1;
        assert(chars@.subrange(from as int, i as int) == chars@.subrange(
            from as int,
            i - 1,
        ).push(chars@[i - 1]));
    }
    out
}

pub fn eq(a: &str, b: &str) -> (r: bool)
    ensures
        r == (a@ == b@),
{
    a.to_owned() == b.to_owned()
}

pub fn concat(a: &str, b: &str) -> (r: String)
    ensures
        r@ == a@ + b@,
{
    let mut out = a.to_owned();
    out.append(b);
    out
}

// ---------------------------------------------------------------------------
// Positions

/// Where white space first stands at or behind `from`.
fn white_from(chars: &Vec<char>, from: usize) -> (k: usize)
    requires
        from <= chars@.len(),
    ensures
        from <= k <= chars@.len(),
        k - from == text::index_of_white(chars@.skip(from as int)),
{
    let mut k: usize = from;
    while k < chars.len() && !is_white(chars[k])
        invariant
            from <= k <= chars@.len(),
            text::index_of_white(chars@.skip(from as int)) == (k - from) + text::index_of_white(
                chars@.skip(k as int),
            ),
        decreases chars@.len() - k,
    {
        assert(chars@.skip(k as int).skip(1) == chars@.skip(k + 1));
        k = k + 1;
    }
    k
}

/// Where `c` first stands at or behind `from`.
fn index_from(chars: &Vec<char>, from: usize, c: char) -> (k: usize)
    requires
        from <= chars@.len(),
    ensures
        from <= k <= chars@.len(),
        k - from == text::index_of(chars@.skip(from as int), c),
{
    let mut k: usize = from;
    while k < chars.len() && chars[k] != c
        invariant
            from <= k <= chars@.len(),
            text::index_of(chars@.skip(from as int), c) == (k - from) + text::index_of(
                chars@.skip(k as int),
                c,
            ),
        decreases chars@.len() - k,
    {
        assert(chars@.skip(k as int).skip(1) == chars@.skip(k + 1));
        k = k + 1;
    }
    k
}

/// Whether `pattern` stands at `at`.
fn stands_at(chars: &Vec<char>, at: usize, pattern: &Vec<char>) -> (r: bool)
    requires
        at <= chars@.len(),
    ensures
        r == text::starts_with(chars@.skip(at as int), pattern@),
{
    let ghost rest = chars@.skip(at as int);
    if chars.len() - at < pattern.len() {
        return false;
    }
    let mut i: usize = 0;
    while i < pattern.len()
        invariant
            i <= pattern@.len() <= chars@.len() - at,
            chars@.len() <= usize::MAX,
            rest == chars@.skip(at as int),
            forall|j: int| 0 <= j < i ==> #[trigger] rest[j] == pattern@[j],
        decreases pattern@.len() - i,
    {
        if chars[at + i] != pattern[i] {
            assert(rest.take(pattern@.len() as int)[i as int] == rest[i as int]);
            assert(rest[i as int] == chars@[at + i]);
            return false;
        }
        assert(rest[i as int] == chars@[at + i]);
        i = i + 1;
    }
    assert(rest.take(pattern@.len() as int) == pattern@);
    true
}

/// Where `pattern` first stands.
fn position(chars: &Vec<char>, pattern: &Vec<char>) -> (r: Option<usize>)
    ensures
        match r {
            Some(k) => k + pattern@.len() <= chars@.len() && text::find(chars@, pattern@) == Some(
                k as nat,
            ),
            None => text::find(chars@, pattern@) is None,
        },
{
    let mut k: usize = 0;
    assert(chars@.skip(0) == chars@);
    loop
        invariant
            k <= chars@.len(),
            match text::find(chars@.skip(k as int), pattern@) {
                Some(i) => text::find(chars@, pattern@) == Some(k as nat + i),
                None => text::find(chars@, pattern@) is None,
            },
        decreases chars@.len() - k,
    {
        if stands_at(chars, k, pattern) {
            return Some(k);
        }
        if k == chars.len() {
            return None;
        }
        assert(chars@.skip(k as int).skip(1) == chars@.skip(k + 1));
        k = k + 1;
    }
}

// ---------------------------------------------------------------------------
// Trimming

fn start_of(chars: &Vec<char>) -> (i: usize)
    ensures
        i <= chars@.len(),
        text::trim_start(chars@) == chars@.skip(i as int),
{
    let mut i: usize = 0;
    assert(chars@.skip(0) == chars@);
    while i < chars.len() && is_white(chars[i])
        invariant
            i <= chars@.len(),
            text::trim_start(chars@) == text::trim_start(chars@.skip(i as int)),
        decreases chars@.len() - i,
    {
        assert(chars@.skip(i as int).skip(1) == chars@.skip(i + 1));
        i = i + 1;
    }
    i
}

fn end_of(chars: &Vec<char>, from: usize) -> (j: usize)
    requires
        from <= chars@.len(),
    ensures
        from <= j <= chars@.len(),
        text::trim_end(chars@.skip(from as int)) == chars@.subrange(from as int, j as int),
{
    let mut j: usize = chars.len();
    assert(chars@.skip(from as int) == chars@.subrange(from as int, j as int));
    while from < j && is_white(chars[j - 1])
        invariant
            from <= j <= chars@.len(),
            text::trim_end(chars@.skip(from as int)) == text::trim_end(
                chars@.subrange(from as int, j as int),
            ),
        decreases j,
    {
        assert(chars@.subrange(from as int, j as int).drop_last() == chars@.subrange(
            from as int,
            j - 1,
        ));
        j = j - 1;
    }
    j
}

pub fn trim(s: &str) -> (r: String)
    ensures
        r@ == text::trim(s@),
{
    let chars = chars_of(s);
    let from = start_of(&chars);
    let to = end_of(&chars, from);
    range(&chars, from, to)
}

pub fn trim_start(s: &str) -> (r: String)
    ensures
        r@ == text::trim_start(s@),
{
    let chars = chars_of(s);
    let from = start_of(&chars);
    assert(chars@.subrange(from as int, chars@.len() as int) == chars@.skip(from as int));
    range(&chars, from, chars.len())
}

pub fn trim_start_char(s: &str, c: char) -> (r: String)
    ensures
        r@ == text::trim_start_char(s@, c),
{
    let chars = chars_of(s);
    let mut i: usize = 0;
    assert(chars@.skip(0) == chars@);
    while i < chars.len() && chars[i] == c
        invariant
            i <= chars@.len(),
            text::trim_start_char(chars@, c) == text::trim_start_char(chars@.skip(i as int), c),
        decreases chars@.len() - i,
    {
        assert(chars@.skip(i as int).skip(1) == chars@.skip(i + 1));
        i = i + 1;
    }
    assert(chars@.subrange(i as int, chars@.len() as int) == chars@.skip(i as int));
    range(&chars, i, chars.len())
}

pub fn trim_end_char(s: &str, c: char) -> (r: String)
    ensures
        r@ == text::trim_end_char(s@, c),
{
    let chars = chars_of(s);
    let mut j: usize = chars.len();
    assert(chars@.take(j as int) == chars@);
    while 0 < j && chars[j - 1] == c
        invariant
            j <= chars@.len(),
            text::trim_end_char(chars@, c) == text::trim_end_char(chars@.take(j as int), c),
        decreases j,
    {
        assert(chars@.take(j as int).drop_last() == chars@.take(j - 1));
        j = j - 1;
    }
    range(&chars, 0, j)
}

pub fn trim_end_digits(s: &str) -> (r: String)
    ensures
        r@ == text::trim_end_digits(s@),
{
    let chars = chars_of(s);
    let mut j: usize = chars.len();
    assert(chars@.take(j as int) == chars@);
    while 0 < j && is_digit(chars[j - 1])
        invariant
            j <= chars@.len(),
            text::trim_end_digits(chars@) == text::trim_end_digits(chars@.take(j as int)),
        decreases j,
    {
        assert(chars@.take(j as int).drop_last() == chars@.take(j - 1));
        j = j - 1;
    }
    range(&chars, 0, j)
}

pub fn starts_with(s: &str, prefix: &str) -> (r: bool)
    ensures
        r == text::starts_with(s@, prefix@),
{
    let chars = chars_of(s);
    assert(chars@.skip(0) == chars@);
    stands_at(&chars, 0, &chars_of(prefix))
}

pub fn strip_prefix(s: &str, prefix: &str) -> (r: Option<String>)
    ensures
        text::opt_text(r) == text::strip_prefix(s@, prefix@),
{
    let chars = chars_of(s);
    let pattern = chars_of(prefix);
    assert(chars@.skip(0) == chars@);
    if stands_at(&chars, 0, &pattern) {
        assert(chars@.subrange(pattern@.len() as int, chars@.len() as int) == chars@.skip(
            pattern@.len() as int,
        ));
        Some(range(&chars, pattern.len(), chars.len()))
    } else {
        None
    }
}

pub fn trim_prefixes(s: &str, prefix: &str) -> (r: String)
    ensures
        r@ == text::trim_prefixes(s@, prefix@),
{
    let chars = chars_of(s);
    let pattern = chars_of(prefix);
    let len: usize = chars.len();
    let mut i: usize = 0;
    assert(chars@.skip(0) == chars@);
    while pattern.len() > 0 && stands_at(&chars, i, &pattern)
        invariant
            i <= chars@.len() == len,
            text::trim_prefixes(chars@, pattern@) == text::trim_prefixes(
                chars@.skip(i as int),
                pattern@,
            ),
        decreases chars@.len() - i,
    {
        assert(chars@.skip(i as int).skip(pattern@.len() as int) == chars@.skip(
            i + pattern@.len(),
        ));
        i = i + pattern.len();
    }
    assert(chars@.subrange(i as int, chars@.len() as int) == chars@.skip(i as int));
    range(&chars, i, len)
}

// ---------------------------------------------------------------------------
// Splitting

pub fn contains(s: &str, pattern: &str) -> (r: bool)
    ensures
        r == (text::find(s@, pattern@) is Some),
{
    position(&chars_of(s), &chars_of(pattern)).is_some()
}

pub fn split_once(s: &str, c: char) -> (r: Option<(String, String)>)
    ensures
        match r {
            Some((a, b)) => text::split_once(s@, c) == Some((a@, b@)),
            None => text::split_once(s@, c) is None,
        },
{
    let chars = chars_of(s);
    assert(chars@.skip(0) == chars@);
    let k = index_from(&chars, 0, c);
    if k < chars.len() {
        assert(chars@.subrange(0, k as int) == chars@.take(k as int));
        assert(chars@.subrange(k + 1, chars@.len() as int) == chars@.skip(k + 1));
        Some((range(&chars, 0, k), range(&chars, k + 1, chars.len())))
    } else {
        None
    }
}

pub fn before(s: &str, pattern: &str) -> (r: String)
    ensures
        r@ == text::before(s@, pattern@),
{
    let chars = chars_of(s);
    match position(&chars, &chars_of(pattern)) {
        Some(k) => {
            assert(chars@.subrange(0, k as int) == chars@.take(k as int));
            range(&chars, 0, k)
        },
        None => s.to_owned(),
    }
}

pub fn after(s: &str, pattern: &str) -> (r: Option<String>)
    ensures
        text::opt_text(r) == text::after(s@, pattern@),
{
    let chars = chars_of(s);
    let wanted = chars_of(pattern);
    let len: usize = chars.len();
    match position(&chars, &wanted) {
        Some(k) => {
            let from: usize = k + wanted.len();
            assert(chars@.subrange(from as int, chars@.len() as int) == chars@.skip(from as int));
            Some(range(&chars, from, len))
        },
        None => None,
    }
}

pub fn second_piece(s: &str, pattern: &str) -> (r: Option<String>)
    ensures
        text::opt_text(r) == text::second_piece(s@, pattern@),
{
    match after(s, pattern) {
        Some(rest) => Some(before(rest.as_str(), pattern)),
        None => None,
    }
}

/// One more piece moves from the rest to what has been split off.
proof fn lemma_moved(out: Seq<String>, piece: String, rest: Seq<Seq<char>>)
    ensures
        text::texts(out.push(piece)) + rest == text::texts(out) + (seq![piece@] + rest),
{
}

pub fn split(s: &str, c: char) -> (r: Vec<String>)
    ensures
        text::texts(r@) == text::split(s@, c),
{
    let chars = chars_of(s);
    let mut out: Vec<String> = Vec::new();
    let mut from: usize = 0;
    assert(chars@.skip(0) == chars@);
    assert(text::texts(out@) + text::split(chars@, c) == text::split(chars@, c));
    loop
        invariant
            from <= chars@.len(),
            chars@ == s@,
            text::texts(out@) + text::split(chars@.skip(from as int), c) == text::split(chars@, c),
        decreases chars@.len() - from,
    {
        let ghost rest = chars@.skip(from as int);
        let k = index_from(&chars, from, c);
        let piece = range(&chars, from, k);
        if k < chars.len() {
            assert(rest.take(k - from) == piece@);
            assert(rest.skip(k - from + 1) == chars@.skip(k + 1));
            proof {
                lemma_moved(out@, piece, text::split(chars@.skip(k + 1), c));
            }
            out.push(piece);
            from = k + 1;
        } else {
            assert(rest == piece@);
            assert(text::split(rest, c) == seq![piece@]);
            proof {
                lemma_moved(out@, piece, Seq::empty());
                assert(seq![piece@] + Seq::<Seq<char>>::empty() == seq![piece@]);
            }
            out.push(piece);
            assert(text::texts(out@) + Seq::<Seq<char>>::empty() == text::texts(out@));
            return out;
        }
    }
}

/// The line from `from` up to the line feed at `to`, without a carriage return.
fn line_range(chars: &Vec<char>, from: usize, to: usize) -> (r: String)
    requires
        from <= to <= chars@.len(),
    ensures
        r@ == text::strip_cr(chars@.subrange(from as int, to as int)),
{
    let ghost line = chars@.subrange(from as int, to as int);
    if from < to && chars[to - 1] == '\r' {
        assert(line.drop_last() == chars@.subrange(from as int, to - 1));
        range(chars, from, to - 1)
    } else {
        range(chars, from, to)
    }
}

pub fn lines(s: &str) -> (r: Vec<String>)
    ensures
        text::texts(r@) == text::lines(s@),
{
    let chars = chars_of(s);
    let mut out: Vec<String> = Vec::new();
    let mut from: usize = 0;
    assert(chars@.skip(0) == chars@);
    assert(text::texts(out@) + text::lines(chars@) == text::lines(chars@));
    while from < chars.len()
        invariant
            from <= chars@.len(),
            text::texts(out@) + text::lines(chars@.skip(from as int)) == text::lines(chars@),
        decreases chars@.len() - from,
    {
        let ghost rest = chars@.skip(from as int);
        let k = index_from(&chars, from, '\n');
        if k < chars.len() {
            let line = line_range(&chars, from, k);
            assert(rest.take(k - from) == chars@.subrange(from as int, k as int));
            assert(rest.skip(k - from + 1) == chars@.skip(k + 1));
            proof {
                lemma_moved(out@, line, text::lines(chars@.skip(k + 1)));
            }
            out.push(line);
            from = k + 1;
        } else {
            let line = range(&chars, from, k);
            assert(rest == line@);
            proof {
                lemma_moved(out@, line, Seq::empty());
                assert(seq![line@] + Seq::<Seq<char>>::empty() == seq![line@]);
            }
            out.push(line);
            from = chars.len();
            assert(text::lines(chars@.skip(from as int)) == Seq::<Seq<char>>::empty());
        }
    }
    assert(text::texts(out@) + Seq::<Seq<char>>::empty() == text::texts(out@));
    out
}

pub fn words(s: &str) -> (r: Vec<String>)
    ensures
        text::texts(r@) == text::words(s@),
{
    let chars = chars_of(s);
    let mut out: Vec<String> = Vec::new();
    let mut from: usize = 0;
    assert(chars@.skip(0) == chars@);
    assert(text::texts(out@) + text::words(chars@) == text::words(chars@));
    while from < chars.len()
        invariant
            from <= chars@.len(),
            text::texts(out@) + text::words(chars@.skip(from as int)) == text::words(chars@),
        decreases chars@.len() - from,
    {
        let ghost rest = chars@.skip(from as int);
        if is_white(chars[from]) {
            assert(rest.skip(1) == chars@.skip(from + 1));
            from = from + 1;
        } else {
            let k = white_from(&chars, from);
            let word = range(&chars, from, k);
            if k < chars.len() {
                assert(rest.take(k - from) == word@);
                assert(rest.skip(k - from + 1) == chars@.skip(k + 1));
                proof {
                    lemma_moved(out@, word, text::words(chars@.skip(k + 1)));
                }
                out.push(word);
                from = k + 1;
            } else {
                assert(rest == word@);
                proof {
                    lemma_moved(out@, word, Seq::empty());
                    assert(seq![word@] + Seq::<Seq<char>>::empty() == seq![word@]);
                }
                out.push(word);
                from = chars.len();
                assert(text::words(chars@.skip(from as int)) == Seq::<Seq<char>>::empty());
            }
        }
    }
    assert(text::texts(out@) + Seq::<Seq<char>>::empty() == text::texts(out@));
    out
}

// ---------------------------------------------------------------------------
// Letter by letter

pub fn to_lower(s: &str) -> (r: String)
    ensures
        r@ == text::to_lower(s@),
{
    let chars = chars_of(s);
    let mut out = String::new();
    let mut i: usize = 0;
    while i < chars.len()
        invariant
            i <= chars@.len(),
            out@ == text::to_lower(chars@.take(i as int)),
        decreases chars@.len() - i,
    {
        out.push(lower(chars[i]));
        i = i + 1;
    }
    assert(chars@.take(i as int) == chars@);
    out
}

pub fn replace(s: &str, from: char, to: char) -> (r: String)
    ensures
        r@ == text::replace(s@, from, to),
{
    let chars = chars_of(s);
    let mut out = String::new();
    let mut i: usize = 0;
    while i < chars.len()
        invariant
            i <= chars@.len(),
            out@ == text::replace(chars@.take(i as int), from, to),
        decreases chars@.len() - i,
    {
        out.push(
            if chars[i] == from {
                to
            } else {
                chars[i]
            },
        );
        i = i + 1;
    }
    assert(chars@.take(i as int) == chars@);
    out
}

pub fn eq_ignore_case(a: &str, b: &str) -> (r: bool)
    ensures
        r == (text::to_lower(a@) == text::to_lower(b@)),
{
    eq(to_lower(a).as_str(), to_lower(b).as_str())
}

// ---------------------------------------------------------------------------
// Numbers

/// What a prefix of a run of digits stands for is no more than the whole.
proof fn lemma_digits_value_grows(s: Seq<char>, i: int)
    requires
        0 <= i <= s.len(),
    ensures
        text::digits_value(s.take(i)) <= text::digits_value(s),
    decreases s.len(),
{
    if i < s.len() {
        lemma_digits_value_grows(s.drop_last(), i);
        assert(s.drop_last().take(i) == s.take(i));
    } else {
        assert(s.take(i) == s);
    }
}

pub fn parse_dec(s: &str, max: u64) -> (r: Option<u64>)
    ensures
        match r {
            Some(n) => text::parse_dec(s@, max as nat) == Some(n as nat) && n <= max,
            None => text::parse_dec(s@, max as nat) is None,
        },
{
    let chars = chars_of(s);
    let from: usize = if chars.len() > 0 && chars[0] == '+' {
        1
    } else {
        0
    };
    let ghost digits = text::unsigned_digits(s@);
    assert(digits == chars@.skip(from as int));
    if from == chars.len() {
        return None;
    }
    let mut n: u64 = 0;
    let mut i: usize = from;
    assert(digits.take(0) == Seq::<char>::empty());
    while i < chars.len()
        invariant
            from <= i <= chars@.len(),
            digits == chars@.skip(from as int),
            digits == text::unsigned_digits(s@),
            text::all_digits(digits.take(i - from)),
            n == text::digits_value(digits.take(i - from)),
            n <= max,
        decreases chars@.len() - i,
    {
        let c = chars[i];
        assert(digits[i - from] == c);
        if !is_digit(c) {
            return None;
        }
        let d: u64 = (c as u32 - '0' as u32) as u64;
        proof {
            let next = digits.take(i - from + 1);
            assert(next.drop_last() == digits.take(i - from));
            assert(next.last() == c);
            assert(text::digits_value(next) == n * 10 + d);
            assert forall|j: int| 0 <= j < next.len() implies text::is_digit(#[trigger] next[j]) by {
                if j < i - from {
                    assert(next[j] == digits.take(i - from)[j]);
                }
            }
            lemma_digits_value_grows(digits, i - from + 1);
        }
        if n > max / 10 {
            assert(n * 10 + d > max);
            return None;
        }
        let tens: u64 = n * 10;
        if d > max - tens {
            return None;
        }
        n = tens + d;
        i = i + 1;
    }
    assert(digits.take(i - from) == digits);
    Some(n)
}

pub fn number_or(v: &Option<String>, max: u64, otherwise: u64) -> (r: u64)
    requires
        otherwise <= max,
    ensures
        r == text::number_or(text::opt_text(*v), max as nat, otherwise as nat),
        r <= max,
{
    match v {
        Some(s) => match parse_dec(s.as_str(), max) {
            Some(n) => n,
            None => otherwise,
        },
        None => otherwise,
    }
}

pub fn dec(n: u64) -> (r: String)
    ensures
        r@ == text::dec(n as nat),
    decreases n,
{
    let digit = (48 + (n % 10) as u8) as char;
    let mut out = if n < 10 {
        String::new()
    } else {
        dec(n / 10)
    };
    out.push(digit);
    assert(n < 10 ==> out@ == text::dec(n as nat));
    out
}

pub fn hex2(b: u8) -> (r: String)
    ensures
        r@ == text::hex2(b),
{
    let mut out = String::new();
    out.push(hex_digit(b / 16));
    out.push(hex_digit(b % 16));
    out
}

// ---------------------------------------------------------------------------
// Containers of strings

pub fn join(parts: &Vec<String>, separator: &str) -> (r: String)
    ensures
        r@ == text::join(text::texts(parts@), separator@),
{
    let mut out = String::new();
    let mut i: usize = 0;
    while i < parts.len()
        invariant
            i <= parts@.len(),
            out@ == text::join(text::texts(parts@.take(i as int)), separator@),
        decreases parts@.len() - i,
    {
        let ghost done = text::texts(parts@.take(i as int));
        let ghost next = text::texts(parts@.take(i + 1));
        assert(next.drop_last() == done);
        assert(next.last() == parts@[i as int]@);
        if i > 0 {
            out.append(separator);
        }
        out.append(parts[i].as_str());
        i = i + 1;
        assert(out@ == text::join(next, separator@));
    }
    assert(parts@.take(i as int) == parts@);
    out
}

pub fn clone_texts(v: &Vec<String>) -> (r: Vec<String>)
    ensures
        r@ == v@,
{
    let mut out: Vec<String> = Vec::new();
    let mut i: usize = 0;
    while i < v.len()
        invariant
            i <= v@.len(),
            out@ == v@.take(i as int),
        decreases v@.len() - i,
    {
        out.push(v[i].clone());
        i = i + 1;
        assert(v@.take(i as int) == v@.take(i - 1).push(v@[i - 1]));
    }
    assert(v@.take(i as int) == v@);
    out
}

pub fn clone_opt(o: &Option<String>) -> (r: Option<String>)
    ensures
        r == *o,
{
    match o {
        Some(s) => Some(s.clone()),
        None => None,
    }
}

/// The text itself, unless it is empty.
pub fn nonempty(s: String) -> (r: Option<String>)
    ensures
        r == if s@.len() == 0 {
            None::<String>
        } else {
            Some(s)
        },
{
    if is_empty(s.as_str()) {
        None
    } else {
        Some(s)
    }
}

pub fn is_empty(s: &str) -> (r: bool)
    ensures
        r == (s@.len() == 0),
{
    s.unicode_len() == 0
}

pub fn opt_eq(a: &Option<String>, b: &Option<String>) -> (r: bool)
    ensures
        r == (text::opt_text(*a) == text::opt_text(*b)),
{
    match (a, b) {
        (Some(x), Some(y)) => eq(x.as_str(), y.as_str()),
        (None, None) => true,
        _ => false,
    }
}

pub fn texts_eq(a: &Vec<String>, b: &Vec<String>) -> (r: bool)
    ensures
        r == (text::texts(a@) == text::texts(b@)),
{
    let ghost x = text::texts(a@);
    let ghost y = text::texts(b@);
    if a.len() != b.len() {
        assert(x.len() != y.len());
        return false;
    }
    let mut i: usize = 0;
    while i < a.len()
        invariant
            i <= a@.len() == b@.len(),
            x == text::texts(a@),
            y == text::texts(b@),
            forall|j: int| 0 <= j < i ==> #[trigger] x[j] == y[j],
        decreases a@.len() - i,
    {
        if !eq(a[i].as_str(), b[i].as_str()) {
            assert(x[i as int] != y[i as int]);
            return false;
        }
        i = i + 1;
    }
    assert(x =~= y);
    true
}

// ---------------------------------------------------------------------------
// Order

pub fn precedes(a: &str, b: &str) -> (r: bool)
    ensures
        r == text::precedes(a@, b@),
{
    let x = chars_of(a);
    let y = chars_of(b);
    let mut i: usize = 0;
    assert(x@.skip(0) == x@);
    assert(y@.skip(0) == y@);
    while i < x.len() && i < y.len() && x[i] == y[i]
        invariant
            i <= x@.len(),
            i <= y@.len(),
            text::precedes(x@, y@) == text::precedes(x@.skip(i as int), y@.skip(i as int)),
        decreases x@.len() - i,
    {
        assert(x@.skip(i as int).skip(1) == x@.skip(i + 1));
        assert(y@.skip(i as int).skip(1) == y@.skip(i + 1));
        i = i + 1;
    }
    if i == y.len() {
        false
    } else if i == x.len() {
        true
    } else {
        x[i] < y[i]
    }
}

/// Where `s` goes among texts in order: behind those it does not come before.
fn place(v: &Vec<String>, s: &str) -> (k: usize)
    requires
        text::in_order(text::texts(v@)),
    ensures
        k <= v@.len(),
        forall|i: int| 0 <= i < k ==> !text::precedes(s@, #[trigger] text::texts(v@)[i]),
        forall|i: int| k <= i < v@.len() ==> !text::precedes(#[trigger] text::texts(v@)[i], s@),
{
    let ghost t = text::texts(v@);
    let mut k: usize = 0;
    while k < v.len() && !precedes(s, v[k].as_str())
        invariant
            k <= v@.len(),
            t == text::texts(v@),
            forall|i: int| 0 <= i < k ==> !text::precedes(s@, #[trigger] t[i]),
        decreases v@.len() - k,
    {
        assert(t[k as int] == v@[k as int]@);
        k = k + 1;
    }
    assert forall|i: int| k <= i < v@.len() implies !text::precedes(#[trigger] t[i], s@) by {
        assert(t[k as int] == v@[k as int]@);
        text::law_order_is_one_way(s@, t[k as int]);
        if k < i {
            text::law_order_carries_over(s@, t[k as int], t[i]);
        }
    }
    k
}

/// A text put among others is one more of them.
proof fn lemma_put(v: Seq<String>, k: int, s: String)
    requires
        0 <= k <= v.len(),
    ensures
        text::texts(v.insert(k, s)) == text::texts(v).insert(k, s@),
        text::texts(v.insert(k, s)).to_multiset() == text::texts(v).to_multiset().insert(s@),
{
    broadcast use vstd::seq_lib::group_to_multiset_ensures;

    let t = text::texts(v.insert(k, s));
    assert(t =~= text::texts(v).insert(k, s@));
    assert(t.remove(k) =~= text::texts(v));
    assert(t[k] == s@);
    assert(t.contains(s@));
    assert(t.to_multiset().remove(s@).insert(s@) =~= t.to_multiset());
}

/// Texts in the order of their characters.
pub fn sort(v: Vec<String>) -> (r: Vec<String>)
    ensures
        text::in_order(text::texts(r@)),
        text::texts(r@).to_multiset() == text::texts(v@).to_multiset(),
{
    let mut out: Vec<String> = Vec::new();
    let mut i: usize = 0;
    assert(text::texts(out@) == text::texts(v@.take(0)));
    while i < v.len()
        invariant
            i <= v@.len(),
            text::in_order(text::texts(out@)),
            text::texts(out@).to_multiset() == text::texts(v@.take(i as int)).to_multiset(),
        decreases v@.len() - i,
    {
        let k = place(&out, v[i].as_str());
        let ghost before = text::texts(out@);
        proof {
            broadcast use vstd::seq_lib::group_to_multiset_ensures;

            lemma_put(out@, k as int, v@[i as int]);
            assert(text::texts(v@.take(i + 1)) =~= text::texts(v@.take(i as int)).push(
                v@[i as int]@,
            ));
        }
        out.insert(k, v[i].clone());
        proof {
            let after = text::texts(out@);
            assert(after == before.insert(k as int, v@[i as int]@));
            assert forall|a: int, b: int| 0 <= a < b < after.len() implies !text::precedes(
                #[trigger] after[b],
                #[trigger] after[a],
            ) by {
                if a < k && k < b {
                    assert(after[a] == before[a] && after[b] == before[b - 1]);
                } else if a < k && b < k {
                    assert(after[a] == before[a] && after[b] == before[b]);
                } else if b == k {
                    assert(after[a] == before[a]);
                } else if a == k {
                    assert(after[b] == before[b - 1]);
                } else {
                    assert(after[a] == before[a - 1] && after[b] == before[b - 1]);
                }
            }
        }
        i = i + 1;
    }
    assert(v@.take(i as int) == v@);
    out
}

} // verus!
