//! What text means: the operations that every parser and renderer here uses, on
//! sequences of characters. `strings` carries them out.

use vstd::prelude::*;

verus! {

// ---------------------------------------------------------------------------
// Characters

/// A character with the Unicode `White_Space` property.
pub open spec fn is_white(c: char) -> bool {
    ||| 0x09 <= c as u32 <= 0x0d
    ||| c as u32 == 0x20
    ||| c as u32 == 0x85
    ||| c as u32 == 0xa0
    ||| c as u32 == 0x1680
    ||| 0x2000 <= c as u32 <= 0x200a
    ||| c as u32 == 0x2028
    ||| c as u32 == 0x2029
    ||| c as u32 == 0x202f
    ||| c as u32 == 0x205f
    ||| c as u32 == 0x3000
}

pub open spec fn is_digit(c: char) -> bool {
    '0' <= c <= '9'
}

/// What a hexadecimal digit stands for.
pub open spec fn hex_value(c: char) -> Option<nat> {
    if '0' <= c <= '9' {
        Some((c as u32 - '0' as u32) as nat)
    } else if 'a' <= c <= 'f' {
        Some((c as u32 - 'a' as u32 + 10) as nat)
    } else if 'A' <= c <= 'F' {
        Some((c as u32 - 'A' as u32 + 10) as nat)
    } else {
        None
    }
}

/// The lowercase hexadecimal digit for `n`, which is below sixteen.
pub open spec fn hex_digit(n: nat) -> char {
    if n < 10 {
        ('0' as u32 + n) as char
    } else {
        ('a' as u32 + n - 10) as char
    }
}

/// An ASCII capital becomes its small letter; everything else stays.
pub open spec fn lower(c: char) -> char {
    if 'A' <= c <= 'Z' {
        (c as u32 + 32) as char
    } else {
        c
    }
}

// ---------------------------------------------------------------------------
// Sequences of characters

pub open spec fn starts_with(s: Seq<char>, prefix: Seq<char>) -> bool {
    prefix.len() <= s.len() && s.take(prefix.len() as int) == prefix
}

pub open spec fn strip_prefix(s: Seq<char>, prefix: Seq<char>) -> Option<Seq<char>> {
    if starts_with(s, prefix) {
        Some(s.skip(prefix.len() as int))
    } else {
        None
    }
}

/// `s` without `prefix` as often as it stands in front.
pub open spec fn trim_prefixes(s: Seq<char>, prefix: Seq<char>) -> Seq<char>
    decreases s.len(),
{
    if prefix.len() > 0 && starts_with(s, prefix) {
        trim_prefixes(s.skip(prefix.len() as int), prefix)
    } else {
        s
    }
}

pub open spec fn trim_start(s: Seq<char>) -> Seq<char>
    decreases s.len(),
{
    if s.len() > 0 && is_white(s[0]) {
        trim_start(s.skip(1))
    } else {
        s
    }
}

pub open spec fn trim_end(s: Seq<char>) -> Seq<char>
    decreases s.len(),
{
    if s.len() > 0 && is_white(s.last()) {
        trim_end(s.drop_last())
    } else {
        s
    }
}

/// `s` without the white space at either end.
pub open spec fn trim(s: Seq<char>) -> Seq<char> {
    trim_end(trim_start(s))
}

/// `s` without the `c`s it starts with.
pub open spec fn trim_start_char(s: Seq<char>, c: char) -> Seq<char>
    decreases s.len(),
{
    if s.len() > 0 && s[0] == c {
        trim_start_char(s.skip(1), c)
    } else {
        s
    }
}

/// `s` without the `c`s it ends with.
pub open spec fn trim_end_char(s: Seq<char>, c: char) -> Seq<char>
    decreases s.len(),
{
    if s.len() > 0 && s.last() == c {
        trim_end_char(s.drop_last(), c)
    } else {
        s
    }
}

/// `s` without the digits it ends with.
pub open spec fn trim_end_digits(s: Seq<char>) -> Seq<char>
    decreases s.len(),
{
    if s.len() > 0 && is_digit(s.last()) {
        trim_end_digits(s.drop_last())
    } else {
        s
    }
}

/// Where `c` first stands in `s`; the length of `s` when it does not.
pub open spec fn index_of(s: Seq<char>, c: char) -> nat
    decreases s.len(),
{
    if s.len() == 0 || s[0] == c {
        0
    } else {
        1 + index_of(s.skip(1), c)
    }
}

/// Where white space first stands in `s`; the length of `s` when it does not.
pub open spec fn index_of_white(s: Seq<char>) -> nat
    decreases s.len(),
{
    if s.len() == 0 || is_white(s[0]) {
        0
    } else {
        1 + index_of_white(s.skip(1))
    }
}

/// Where `pattern` first stands in `s`.
pub open spec fn find(s: Seq<char>, pattern: Seq<char>) -> Option<nat>
    decreases s.len(),
{
    if starts_with(s, pattern) {
        Some(0)
    } else if s.len() == 0 {
        None
    } else {
        match find(s.skip(1), pattern) {
            Some(i) => Some(i + 1),
            None => None,
        }
    }
}

/// The two sides of the first `c`.
pub open spec fn split_once(s: Seq<char>, c: char) -> Option<(Seq<char>, Seq<char>)> {
    if index_of(s, c) < s.len() {
        Some((s.take(index_of(s, c) as int), s.skip(index_of(s, c) as int + 1)))
    } else {
        None
    }
}

/// What stands in front of the first `pattern`; all of `s` when there is none.
pub open spec fn before(s: Seq<char>, pattern: Seq<char>) -> Seq<char> {
    match find(s, pattern) {
        Some(i) => s.take(i as int),
        None => s,
    }
}

/// What stands behind the first `pattern`.
pub open spec fn after(s: Seq<char>, pattern: Seq<char>) -> Option<Seq<char>> {
    match find(s, pattern) {
        Some(i) => Some(s.skip((i + pattern.len()) as int)),
        None => None,
    }
}

/// What stands between the first `pattern` and the next one, or the end.
pub open spec fn second_piece(s: Seq<char>, pattern: Seq<char>) -> Option<Seq<char>> {
    match after(s, pattern) {
        Some(rest) => Some(before(rest, pattern)),
        None => None,
    }
}

/// The pieces of `s` between the `c`s.
pub open spec fn split(s: Seq<char>, c: char) -> Seq<Seq<char>>
    decreases s.len(),
{
    if index_of(s, c) < s.len() {
        seq![s.take(index_of(s, c) as int)] + split(s.skip(index_of(s, c) as int + 1), c)
    } else {
        seq![s]
    }
}

/// What a line that ended in a line feed is without a carriage return before it.
pub open spec fn strip_cr(s: Seq<char>) -> Seq<char> {
    if s.len() > 0 && s.last() == '\r' {
        s.drop_last()
    } else {
        s
    }
}

/// The lines of `s`. The last one needs no line feed.
pub open spec fn lines(s: Seq<char>) -> Seq<Seq<char>>
    decreases s.len(),
{
    if s.len() == 0 {
        Seq::empty()
    } else if index_of(s, '\n') < s.len() {
        seq![strip_cr(s.take(index_of(s, '\n') as int))] + lines(s.skip(index_of(s, '\n') as int + 1))
    } else {
        seq![s]
    }
}

/// The words of `s`: its longest runs without white space.
pub open spec fn words(s: Seq<char>) -> Seq<Seq<char>>
    decreases s.len(),
{
    if s.len() == 0 {
        Seq::empty()
    } else if is_white(s[0]) {
        words(s.skip(1))
    } else if index_of_white(s) < s.len() {
        seq![s.take(index_of_white(s) as int)] + words(s.skip(index_of_white(s) as int + 1))
    } else {
        seq![s]
    }
}

pub open spec fn to_lower(s: Seq<char>) -> Seq<char> {
    s.map_values(|c: char| lower(c))
}

/// `s` with every `from` replaced by `to`.
pub open spec fn replace(s: Seq<char>, from: char, to: char) -> Seq<char> {
    s.map_values(|c: char| if c == from { to } else { c })
}

pub open spec fn all_digits(s: Seq<char>) -> bool {
    forall|i: int| 0 <= i < s.len() ==> is_digit(#[trigger] s[i])
}

/// The number that a run of digits stands for.
pub open spec fn digits_value(s: Seq<char>) -> nat
    decreases s.len(),
{
    if s.len() == 0 {
        0
    } else {
        digits_value(s.drop_last()) * 10 + (s.last() as u32 - '0' as u32) as nat
    }
}

/// The digits of an unsigned number without the plus sign it may carry.
pub open spec fn unsigned_digits(s: Seq<char>) -> Seq<char> {
    if s.len() > 0 && s[0] == '+' {
        s.skip(1)
    } else {
        s
    }
}

/// The unsigned decimal number that `s` spells, when it is at most `max`.
pub open spec fn parse_dec(s: Seq<char>, max: nat) -> Option<nat> {
    let digits = unsigned_digits(s);
    if digits.len() > 0 && all_digits(digits) && digits_value(digits) <= max {
        Some(digits_value(digits))
    } else {
        None
    }
}

/// The number that `v` spells, or `otherwise`.
pub open spec fn number_or(v: Option<Seq<char>>, max: nat, otherwise: nat) -> nat {
    match v {
        Some(s) => match parse_dec(s, max) {
            Some(n) => n,
            None => otherwise,
        },
        None => otherwise,
    }
}

/// `n` in decimal.
pub open spec fn dec(n: nat) -> Seq<char>
    decreases n,
{
    if n < 10 {
        seq![('0' as u32 + n) as char]
    } else {
        dec(n / 10).push(('0' as u32 + n % 10) as char)
    }
}

/// `b` as two hexadecimal digits.
pub open spec fn hex2(b: u8) -> Seq<char> {
    seq![hex_digit((b / 16) as nat), hex_digit((b % 16) as nat)]
}

/// `parts` with `separator` between them.
pub open spec fn join(parts: Seq<Seq<char>>, separator: Seq<char>) -> Seq<char>
    decreases parts.len(),
{
    if parts.len() == 0 {
        Seq::empty()
    } else if parts.len() == 1 {
        parts[0]
    } else {
        join(parts.drop_last(), separator) + separator + parts.last()
    }
}

// ---------------------------------------------------------------------------
// Views of containers

pub open spec fn texts(v: Seq<String>) -> Seq<Seq<char>> {
    v.map_values(|s: String| s@)
}

pub open spec fn opt_text(o: Option<String>) -> Option<Seq<char>> {
    match o {
        Some(s) => Some(s@),
        None => None,
    }
}

pub open spec fn opt_str(o: Option<&str>) -> Option<Seq<char>> {
    match o {
        Some(s) => Some(s@),
        None => None,
    }
}

// ---------------------------------------------------------------------------
// Order

/// Whether `a` comes before `b` in the order of their characters.
pub open spec fn precedes(a: Seq<char>, b: Seq<char>) -> bool
    decreases a.len(),
{
    if b.len() == 0 {
        false
    } else if a.len() == 0 {
        true
    } else {
        a[0] < b[0] || (a[0] == b[0] && precedes(a.skip(1), b.skip(1)))
    }
}

/// Whether nothing stands behind what it comes before.
pub open spec fn in_order(v: Seq<Seq<char>>) -> bool {
    forall|i: int, j: int| 0 <= i < j < v.len() ==> !precedes(#[trigger] v[j], #[trigger] v[i])
}

/// What comes before does not come after.
pub proof fn law_order_is_one_way(a: Seq<char>, b: Seq<char>)
    requires
        precedes(a, b),
    ensures
        !precedes(b, a),
    decreases a.len(),
{
    if a.len() > 0 && a[0] == b[0] {
        law_order_is_one_way(a.skip(1), b.skip(1));
    }
}

/// Of two texts that do not come before each other in turn, neither do the ends.
pub proof fn law_order_carries_over(a: Seq<char>, b: Seq<char>, c: Seq<char>)
    requires
        !precedes(b, a),
        !precedes(c, b),
    ensures
        !precedes(c, a),
    decreases a.len(),
{
    if a.len() > 0 && b.len() > 0 && c.len() > 0 && a[0] == b[0] && b[0] == c[0] {
        law_order_carries_over(a.skip(1), b.skip(1), c.skip(1));
    }
}

// ---------------------------------------------------------------------------
// Laws

/// Whether `c` stands nowhere in `s`.
pub open spec fn free_of(s: Seq<char>, c: char) -> bool {
    forall|i: int| 0 <= i < s.len() ==> #[trigger] s[i] != c
}

/// Whether no white space stands in `s`.
pub open spec fn one_word(s: Seq<char>) -> bool {
    s.len() > 0 && forall|i: int| 0 <= i < s.len() ==> !is_white(#[trigger] s[i])
}

/// Whether `s` starts and ends in something else than white space.
pub open spec fn is_trimmed(s: Seq<char>) -> bool {
    s.len() > 0 && !is_white(s[0]) && !is_white(s.last())
}

/// A character is found behind a text that is free of it.
pub proof fn law_found_behind(a: Seq<char>, c: char, b: Seq<char>)
    requires
        free_of(a, c),
    ensures
        index_of(a + seq![c] + b, c) == a.len(),
    decreases a.len(),
{
    let s = a + seq![c] + b;
    if a.len() == 0 {
        assert(s[0] == c);
    } else {
        assert(s[0] == a[0]);
        assert(s.skip(1) =~= a.skip(1) + seq![c] + b);
        assert forall|i: int| 0 <= i < a.skip(1).len() implies #[trigger] a.skip(1)[i] != c by {
            assert(a.skip(1)[i] == a[i + 1]);
        }
        law_found_behind(a.skip(1), c, b);
    }
}

/// A character is not found in a text that is free of it.
pub proof fn law_not_found(a: Seq<char>, c: char)
    requires
        free_of(a, c),
    ensures
        index_of(a, c) == a.len(),
    decreases a.len(),
{
    if a.len() > 0 {
        assert forall|i: int| 0 <= i < a.skip(1).len() implies #[trigger] a.skip(1)[i] != c by {
            assert(a.skip(1)[i] == a[i + 1]);
        }
        law_not_found(a.skip(1), c);
    }
}

/// A text splits at the first `c` into what stands before and behind it.
pub proof fn law_splits_once(a: Seq<char>, c: char, b: Seq<char>)
    requires
        free_of(a, c),
    ensures
        split_once(a + seq![c] + b, c) == Some((a, b)),
{
    law_found_behind(a, c, b);
    let s = a + seq![c] + b;
    assert(s.take(a.len() as int) =~= a);
    assert(s.skip(a.len() as int + 1) =~= b);
}

/// The pieces of a text are the first one and those of the rest.
pub proof fn law_splits(a: Seq<char>, c: char, b: Seq<char>)
    requires
        free_of(a, c),
    ensures
        split(a + seq![c] + b, c) == seq![a] + split(b, c),
        split(a, c) == seq![a],
{
    law_found_behind(a, c, b);
    law_not_found(a, c);
    let s = a + seq![c] + b;
    assert(s.take(a.len() as int) =~= a);
    assert(s.skip(a.len() as int + 1) =~= b);
}

/// The lines of a text are the first one and those of the rest.
pub proof fn law_first_line(a: Seq<char>, b: Seq<char>)
    requires
        free_of(a, '\n'),
    ensures
        lines(a + seq!['\n'] + b) == seq![strip_cr(a)] + lines(b),
{
    law_found_behind(a, '\n', b);
    let s = a + seq!['\n'] + b;
    assert(s.take(a.len() as int) =~= a);
    assert(s.skip(a.len() as int + 1) =~= b);
}

/// A text that starts and ends in something else than white space is trimmed.
pub proof fn law_trimmed(s: Seq<char>)
    requires
        is_trimmed(s),
    ensures
        trim(s) == s,
        trim_start(s) == s,
        trim_end(s) == s,
{
}

/// White space in front of a trimmed text is trimmed away.
pub proof fn law_trims_front(c: char, s: Seq<char>)
    requires
        is_white(c),
        is_trimmed(s),
    ensures
        trim(seq![c] + s) == s,
{
    let t = seq![c] + s;
    assert(t.skip(1) =~= s);
    law_trimmed(s);
}

/// Trimming leaves a first character that is not white space where it is.
pub proof fn law_trim_keeps_the_first(s: Seq<char>)
    requires
        s.len() > 0,
        !is_white(s[0]),
    ensures
        trim(s).len() > 0,
        trim(s)[0] == s[0],
{
    lemma_trim_end_keeps_the_first(s);
}

proof fn lemma_trim_end_keeps_the_first(s: Seq<char>)
    requires
        s.len() > 0,
        !is_white(s[0]),
    ensures
        trim_end(s).len() > 0,
        trim_end(s)[0] == s[0],
    decreases s.len(),
{
    if s.len() > 1 && is_white(s.last()) {
        lemma_trim_end_keeps_the_first(s.drop_last());
        assert(s.drop_last()[0] == s[0]);
    }
}

/// A number is written in digits, at least one, and reads back.
pub proof fn law_decimals_read_back(n: nat, max: nat)
    requires
        n <= max,
    ensures
        dec(n).len() > 0,
        all_digits(dec(n)),
        digits_value(dec(n)) == n,
        parse_dec(dec(n), max) == Some(n),
    decreases n,
{
    let d = dec(n);
    if n < 10 {
        assert(d.drop_last() =~= Seq::<char>::empty());
        assert(digits_value(d.drop_last()) == 0);
        assert(d.last() as u32 - '0' as u32 == n);
    } else {
        law_decimals_read_back(n / 10, n / 10);
        assert(d.last() as u32 - '0' as u32 == n % 10);
        assert(d.drop_last() =~= dec(n / 10));
        assert forall|i: int| 0 <= i < d.len() implies is_digit(#[trigger] d[i]) by {
            if i < d.len() - 1 {
                assert(d[i] == dec(n / 10)[i]);
            }
        }
    }
    assert(is_digit(d[0]));
    assert(unsigned_digits(d) == d);
}

/// Digits are free of anything else, and of white space.
pub proof fn law_digits_are_plain(s: Seq<char>, c: char)
    requires
        all_digits(s),
        !is_digit(c),
    ensures
        free_of(s, c),
        s.len() > 0 ==> one_word(s) && is_trimmed(s),
{
}

/// White space behind a trimmed text is trimmed away.
pub proof fn law_trims_back(s: Seq<char>, c: char, n: nat)
    requires
        is_white(c),
        is_trimmed(s),
    ensures
        trim(s + Seq::new(n, |i: int| c)) == s,
    decreases n,
{
    let t = s + Seq::new(n, |i: int| c);
    if n == 0 {
        assert(t =~= s);
        law_trimmed(s);
    } else {
        law_trims_back(s, c, (n - 1) as nat);
        let u = s + Seq::new((n - 1) as nat, |i: int| c);
        assert(t.drop_last() =~= u);
        assert(t.last() == c);
        assert(t[0] == s[0] && u[0] == s[0]);
    }
}

/// White space around a text makes no difference once it is trimmed.
pub proof fn law_white_space_around_is_trimmed(s: Seq<char>, c: char)
    requires
        is_white(c),
    ensures
        trim(seq![c] + s) == trim(s),
        trim(s + seq![c]) == trim(s),
{
    assert((seq![c] + s).skip(1) =~= s);
    lemma_trim_start_of_longer(s, c);
    let t = trim_start(s);
    if t.len() > 0 {
        assert((t + seq![c]).drop_last() =~= t);
    }
}

proof fn lemma_trim_start_of_longer(s: Seq<char>, c: char)
    requires
        is_white(c),
    ensures
        trim_start(s).len() == 0 ==> trim_start(s + seq![c]).len() == 0,
        trim_start(s).len() > 0 ==> trim_start(s + seq![c]) == trim_start(s) + seq![c],
    decreases s.len(),
{
    let t = s + seq![c];
    if s.len() == 0 {
        assert(t.skip(1).len() == 0);
        assert(trim_start(t) == trim_start(t.skip(1)));
    } else if is_white(s[0]) {
        assert(t.skip(1) =~= s.skip(1) + seq![c]);
        lemma_trim_start_of_longer(s.skip(1), c);
    }
}

/// A pattern is found where it first stands: it stands there, nowhere in front of it, and
/// where it is not found it stands nowhere.
pub proof fn law_found_where_it_first_stands(s: Seq<char>, pattern: Seq<char>)
    ensures
        match find(s, pattern) {
            Some(i) => {
                &&& i + pattern.len() <= s.len()
                &&& starts_with(s.skip(i as int), pattern)
                &&& forall|j: int| 0 <= j < i ==> !starts_with(#[trigger] s.skip(j), pattern)
            },
            None => forall|j: int| 0 <= j <= s.len() ==> !starts_with(#[trigger] s.skip(j), pattern),
        },
    decreases s.len(),
{
    assert(s.skip(0) =~= s);
    if !starts_with(s, pattern) && s.len() > 0 {
        let rest = s.skip(1);
        law_found_where_it_first_stands(rest, pattern);
        assert forall|j: int| 0 <= j < s.len() implies #[trigger] rest.skip(j) == s.skip(j + 1) by {
            assert(rest.skip(j) =~= s.skip(j + 1));
        }
        assert forall|j: int| 1 <= j <= s.len() implies #[trigger] s.skip(j) == rest.skip(j - 1) by {
            assert(rest.skip(j - 1) =~= s.skip(j));
        }
    }
}

/// A pattern that stands at a place and nowhere in front of it is found there.
pub proof fn law_found_first(s: Seq<char>, pattern: Seq<char>, i: int)
    requires
        0 <= i <= s.len(),
        starts_with(s.skip(i), pattern),
        forall|j: int| 0 <= j < i ==> !starts_with(#[trigger] s.skip(j), pattern),
    ensures
        find(s, pattern) == Some(i as nat),
{
    law_found_where_it_first_stands(s, pattern);
    if let Some(k) = find(s, pattern) {
        if k < i {
            assert(!starts_with(s.skip(k as int), pattern));
        }
    }
}

/// Trimming takes away white space and nothing else, and leaves none at either end.
pub proof fn law_trimming_takes_only_white_space(s: Seq<char>)
    ensures
        exists|front: Seq<char>, back: Seq<char>| #[trigger]
            all_white(front) && #[trigger] all_white(back) && s == front + trim(s) + back,
        trim(s).len() == 0 || is_trimmed(trim(s)),
{
    let t = trim_start(s);
    lemma_trimmed_start(s);
    lemma_trimmed_end(t);
    let front = s.take(s.len() - t.len());
    let back = t.skip(trim(s).len() as int);
    assert(s =~= front + trim(s) + back);
    assert(all_white(front) && all_white(back));
    if trim(s).len() > 0 {
        assert(trim(s)[0] == t[0]);
    }
}

/// Whether there is nothing but white space in `s`.
pub open spec fn all_white(s: Seq<char>) -> bool {
    forall|i: int| 0 <= i < s.len() ==> is_white(#[trigger] s[i])
}

proof fn lemma_trimmed_start(s: Seq<char>)
    ensures
        trim_start(s).len() <= s.len(),
        s.skip(s.len() - trim_start(s).len()) == trim_start(s),
        all_white(s.take(s.len() - trim_start(s).len())),
        trim_start(s).len() > 0 ==> !is_white(trim_start(s)[0]),
    decreases s.len(),
{
    if s.len() > 0 && is_white(s[0]) {
        let rest = s.skip(1);
        let t = trim_start(rest);
        lemma_trimmed_start(rest);
        assert(s.skip(s.len() - t.len()) =~= rest.skip(rest.len() - t.len()));
        let front = s.take(s.len() - t.len());
        assert forall|i: int| 0 <= i < front.len() implies is_white(#[trigger] front[i]) by {
            if i > 0 {
                assert(rest.take(rest.len() - t.len())[i - 1] == front[i]);
            }
        }
    } else {
        assert(s.skip(0) =~= s);
    }
}

proof fn lemma_trimmed_end(s: Seq<char>)
    ensures
        trim_end(s).len() <= s.len(),
        s.take(trim_end(s).len() as int) == trim_end(s),
        all_white(s.skip(trim_end(s).len() as int)),
        trim_end(s).len() > 0 ==> !is_white(trim_end(s).last()),
    decreases s.len(),
{
    if s.len() > 0 && is_white(s.last()) {
        let rest = s.drop_last();
        let t = trim_end(rest);
        lemma_trimmed_end(rest);
        assert(s.take(t.len() as int) =~= rest.take(t.len() as int));
        let back = s.skip(t.len() as int);
        assert forall|i: int| 0 <= i < back.len() implies is_white(#[trigger] back[i]) by {
            if i < back.len() - 1 {
                assert(rest.skip(t.len() as int)[i] == back[i]);
            }
        }
    } else {
        assert(s.take(s.len() as int) =~= s);
        assert(s.skip(s.len() as int).len() == 0);
    }
}

/// The pieces of a text are free of what it is split at, and make up the text again.
pub proof fn law_pieces_make_up_the_text(s: Seq<char>, c: char)
    ensures
        split(s, c).len() > 0,
        forall|i: int| 0 <= i < split(s, c).len() ==> free_of(#[trigger] split(s, c)[i], c),
        join(split(s, c), seq![c]) == s,
    decreases s.len(),
{
    lemma_index(s, c);
    let k = index_of(s, c) as int;
    if k < s.len() {
        let first = s.take(k);
        let rest = s.skip(k + 1);
        law_pieces_make_up_the_text(rest, c);
        let pieces = split(s, c);
        assert(pieces =~= seq![first] + split(rest, c));
        assert forall|i: int| 0 <= i < pieces.len() implies free_of(#[trigger] pieces[i], c) by {
            if i > 0 {
                assert(pieces[i] == split(rest, c)[i - 1]);
            }
        }
        lemma_join_front(first, split(rest, c), seq![c]);
        assert(first + seq![c] + rest =~= s);
    } else {
        assert(split(s, c) =~= seq![s]);
        assert(s.take(k) =~= s);
    }
}

proof fn lemma_index(s: Seq<char>, c: char)
    ensures
        index_of(s, c) <= s.len(),
        free_of(s.take(index_of(s, c) as int), c),
        index_of(s, c) < s.len() ==> s[index_of(s, c) as int] == c,
    decreases s.len(),
{
    if s.len() > 0 && s[0] != c {
        let rest = s.skip(1);
        lemma_index(rest, c);
        let k = index_of(rest, c) as int;
        assert forall|i: int| 0 <= i < k + 1 implies #[trigger] s.take(k + 1)[i] != c by {
            if i > 0 {
                assert(rest.take(k)[i - 1] == s[i]);
            }
        }
    }
}

proof fn lemma_join_front(first: Seq<char>, rest: Seq<Seq<char>>, separator: Seq<char>)
    requires
        rest.len() > 0,
    ensures
        join(seq![first] + rest, separator) == first + separator + join(rest, separator),
    decreases rest.len(),
{
    let all = seq![first] + rest;
    if rest.len() == 1 {
        assert(all.drop_last() =~= seq![first]);
        assert(join(seq![first], separator) == first);
        assert(all.last() == rest[0]);
    } else {
        lemma_join_front(first, rest.drop_last(), separator);
        assert(all.drop_last() =~= seq![first] + rest.drop_last());
        assert(all.last() == rest.last());
        assert(first + separator + join(rest.drop_last(), separator) + separator + rest.last()
            =~= first + separator + (join(rest.drop_last(), separator) + separator + rest.last()));
    }
}

/// A text without white space is its own only word.
pub proof fn law_a_word_is_its_own(s: Seq<char>)
    requires
        one_word(s),
    ensures
        words(s) == seq![s],
{
    lemma_no_white_found(s);
}

proof fn lemma_no_white_found(s: Seq<char>)
    requires
        forall|i: int| 0 <= i < s.len() ==> !is_white(#[trigger] s[i]),
    ensures
        index_of_white(s) == s.len(),
    decreases s.len(),
{
    if s.len() > 0 {
        assert forall|i: int| 0 <= i < s.skip(1).len() implies !is_white(
            #[trigger] s.skip(1)[i],
        ) by {
            assert(s.skip(1)[i] == s[i + 1]);
        }
        lemma_no_white_found(s.skip(1));
    }
}

/// The first word of a text is what stands in front of its first white space, and the
/// others are those of the rest.
pub proof fn law_the_first_word_comes_first(word: Seq<char>, white: char, rest: Seq<char>)
    requires
        one_word(word),
        is_white(white),
    ensures
        words(word + seq![white] + rest) == seq![word] + words(rest),
        words(seq![white] + rest) == words(rest),
{
    let s = word + seq![white] + rest;
    lemma_white_found(word, white, rest);
    assert(s[0] == word[0]);
    assert(s.take(word.len() as int) =~= word);
    assert(s.skip(word.len() as int + 1) =~= rest);
    assert((seq![white] + rest).skip(1) =~= rest);
}

proof fn lemma_white_found(word: Seq<char>, white: char, rest: Seq<char>)
    requires
        forall|i: int| 0 <= i < word.len() ==> !is_white(#[trigger] word[i]),
        is_white(white),
    ensures
        index_of_white(word + seq![white] + rest) == word.len(),
    decreases word.len(),
{
    let s = word + seq![white] + rest;
    if word.len() == 0 {
        assert(s[0] == white);
    } else {
        assert(s[0] == word[0]);
        assert(s.skip(1) =~= word.skip(1) + seq![white] + rest);
        assert forall|i: int| 0 <= i < word.skip(1).len() implies !is_white(
            #[trigger] word.skip(1)[i],
        ) by {
            assert(word.skip(1)[i] == word[i + 1]);
        }
        lemma_white_found(word.skip(1), white, rest);
    }
}

/// Only the capitals of the alphabet have a small letter, each its own: the one that far
/// behind `a`. What is small already stays.
pub proof fn law_capitals_become_small(c: char)
    ensures
        'A' <= c <= 'Z' ==> 'a' <= lower(c) <= 'z' && lower(c) as u32 - 'a' as u32 == c as u32
            - 'A' as u32,
        !('A' <= c <= 'Z') ==> lower(c) == c,
        lower(lower(c)) == lower(c),
{
}

/// The sixteen digits stand for the numbers below sixteen, in either case.
pub proof fn law_hex_digits_read_back(n: nat)
    requires
        n < 16,
    ensures
        hex_value(hex_digit(n)) == Some(n),
        lower(hex_digit(n)) == hex_digit(n),
        hex_digit(0) == '0' && hex_digit(9) == '9' && hex_digit(10) == 'a' && hex_digit(15) == 'f',
        hex_value('A') == Some(10nat) && hex_value('F') == Some(15nat) && hex_value('g') is None
            && hex_value('G') is None,
{
}

/// What is trimmed off the end of a text is that character and nothing else.
pub proof fn law_an_end_is_trimmed_of_one_character(s: Seq<char>, c: char)
    ensures
        trim_end_char(s, c).is_prefix_of(s),
        trim_end_char(s, c).len() > 0 ==> trim_end_char(s, c).last() != c,
        forall|i: int| trim_end_char(s, c).len() <= i < s.len() ==> #[trigger] s[i] == c,
    decreases s.len(),
{
    if s.len() > 0 && s.last() == c {
        let rest = s.drop_last();
        law_an_end_is_trimmed_of_one_character(rest, c);
        let t = trim_end_char(rest, c);
        assert(s.subrange(0, t.len() as int) =~= rest.subrange(0, t.len() as int));
        assert forall|i: int| t.len() <= i < s.len() implies #[trigger] s[i] == c by {
            if i < rest.len() {
                assert(rest[i] == c);
            }
        }
    } else {
        assert(s.subrange(0, s.len() as int) =~= s);
    }
}

} // verus!
