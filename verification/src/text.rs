//! Character-level building blocks of the field parsers: numerals in base ten
//! and sixteen, and splitting a text at a separator.
//!
//! Every reader works on a range `from..to` of a character vector and is
//! specified over the corresponding subrange of the vector's view.

use vstd::prelude::*;

verus! {

/// The characters of `s`, in order, as a vector that can be indexed in constant time.
pub fn chars_of(s: &str) -> (v: Vec<char>)
    ensures
        v@ == s@,
{
    let mut v: Vec<char> = Vec::new();
    for c in it: s.chars()
        invariant
            it.seq() == s@,
            v@ == s@.take(it.index() as int),
    {
        v.push(c);
    }
    v
}

/// `c` is one of the ASCII digits `0` to `9`.
pub open spec fn is_digit(c: char) -> bool {
    '0' <= c && c <= '9'
}

/// The number that the ASCII digit `c` stands for.
pub open spec fn digit_value(c: char) -> nat {
    (c as u32 - '0' as u32) as nat
}

/// Every character of `s` is an ASCII digit.
pub open spec fn all_digits(s: Seq<char>) -> bool {
    forall|i: int| 0 <= i < s.len() ==> is_digit(#[trigger] s[i])
}

/// The number written by the digits `s` in base ten, most significant digit
/// first. The empty text stands for zero.
pub open spec fn decimal_value(s: Seq<char>) -> nat
    decreases s.len(),
{
    if s.len() == 0 {
        0
    } else {
        decimal_value(s.drop_last()) * 10 + digit_value(s.last())
    }
}

/// What a text of digits denotes when read as a number of at most `max`: the
/// text must be non-empty and hold digits only, and its value must not exceed
/// `max`. Leading zeros are allowed.
pub open spec fn decimal_upto(s: Seq<char>, max: nat) -> Option<nat> {
    if s.len() > 0 && all_digits(s) && decimal_value(s) <= max {
        Some(decimal_value(s))
    } else {
        None
    }
}

/// A text of digits is worth at least as much as each of its prefixes.
pub proof fn lemma_decimal_prefix_le(s: Seq<char>, k: int)
    requires
        0 <= k <= s.len(),
    ensures
        decimal_value(s.take(k)) <= decimal_value(s),
    decreases s.len() - k,
{
    if k == s.len() {
        assert(s.take(k) =~= s);
    } else {
        lemma_decimal_prefix_le(s, k + 1);
        assert(s.take(k + 1).drop_last() =~= s.take(k));
    }
}

/// Reads the characters `from..to` of `v` as a decimal number of at most `max`.
pub fn read_decimal(v: &Vec<char>, from: usize, to: usize, max: u64) -> (r: Option<u64>)
    requires
        from <= to <= v.len(),
    ensures
        r matches Some(n) ==> decimal_upto(v@.subrange(from as int, to as int), max as nat)
            == Some(n as nat),
        r is None ==> decimal_upto(v@.subrange(from as int, to as int), max as nat) is None,
{
    let ghost s = v@.subrange(from as int, to as int);
    if from == to {
        return None;
    }
    let mut acc: u64 = 0;
    let mut i: usize = from;
    while i < to
        invariant
            from <= i <= to <= v.len(),
            s == v@.subrange(from as int, to as int),
            all_digits(s.take(i - from)),
            acc as nat == decimal_value(s.take(i - from)),
            acc <= max,
        decreases to - i,
    {
        let c: char = v[i];
        assert(s[i - from] == c);
        if !(c >= '0' && c <= '9') {
            return None;
        }
        let d: u64 = (c as u32 - '0' as u32) as u64;
        proof {
            assert(s.take(i - from + 1).drop_last() =~= s.take(i - from));
            assert(s.take(i - from + 1).last() == c);
            lemma_decimal_prefix_le(s, i - from + 1);
        }
        if acc as u128 * 10 + d as u128 > max as u128 {
            return None;
        }
        acc = acc * 10 + d;
        i = i + 1;
    }
    assert(s.take(to - from) =~= s);
    Some(acc)
}

/// What a text denotes as an unsigned number of at most `max`: an optional
/// plus sign, then one or more digits and nothing else. Leading zeros are
/// allowed; spaces, a minus sign and an empty text are not.
pub open spec fn unsigned_text(s: Seq<char>, max: nat) -> Option<nat> {
    if s.len() > 0 && s[0] == '+' {
        decimal_upto(s.skip(1), max)
    } else {
        decimal_upto(s, max)
    }
}

/// Reads a whole text as an unsigned number of at most `max`.
pub fn parse_unsigned(s: &str, max: u64) -> (r: Option<u64>)
    ensures
        r matches Some(n) ==> unsigned_text(s@, max as nat) == Some(n as nat),
        r is None ==> unsigned_text(s@, max as nat) is None,
{
    let v = chars_of(s);
    let n = v.len();
    if n > 0 && v[0] == '+' {
        assert(v@.skip(1) =~= v@.subrange(1, n as int));
        read_decimal(&v, 1, n, max)
    } else {
        assert(v@ =~= v@.subrange(0, n as int));
        read_decimal(&v, 0, n, max)
    }
}

/// `c` is an ASCII hexadecimal digit, in either case.
pub open spec fn is_hex_digit(c: char) -> bool {
    ('0' <= c && c <= '9') || ('a' <= c && c <= 'f') || ('A' <= c && c <= 'F')
}

/// The number that the hexadecimal digit `c` stands for.
pub open spec fn hex_digit_value(c: char) -> nat {
    if '0' <= c && c <= '9' {
        (c as u32 - '0' as u32) as nat
    } else if 'a' <= c && c <= 'f' {
        (c as u32 - 'a' as u32 + 10) as nat
    } else {
        (c as u32 - 'A' as u32 + 10) as nat
    }
}

/// Every character of `s` is a hexadecimal digit.
pub open spec fn all_hex_digits(s: Seq<char>) -> bool {
    forall|i: int| 0 <= i < s.len() ==> is_hex_digit(#[trigger] s[i])
}

/// The number written by the hexadecimal digits `s`, most significant first.
pub open spec fn hex_value(s: Seq<char>) -> nat
    decreases s.len(),
{
    if s.len() == 0 {
        0
    } else {
        hex_value(s.drop_last()) * 16 + hex_digit_value(s.last())
    }
}

/// What a text denotes when read as a group of one to four hexadecimal digits.
pub open spec fn hex_group(s: Seq<char>) -> Option<nat> {
    if 1 <= s.len() <= 4 && all_hex_digits(s) {
        Some(hex_value(s))
    } else {
        None
    }
}

/// Reads the characters `from..to` of `v` as a group of one to four
/// hexadecimal digits.
pub fn read_hex_group(v: &Vec<char>, from: usize, to: usize) -> (r: Option<u16>)
    requires
        from <= to <= v.len(),
    ensures
        r matches Some(n) ==> hex_group(v@.subrange(from as int, to as int)) == Some(n as nat),
        r is None ==> hex_group(v@.subrange(from as int, to as int)) is None,
{
    let ghost s = v@.subrange(from as int, to as int);
    if from == to || to - from > 4 {
        return None;
    }
    let mut acc: u32 = 0;
    let mut i: usize = from;
    while i < to
        invariant
            from <= i <= to <= v.len(),
            to - from <= 4,
            s == v@.subrange(from as int, to as int),
            all_hex_digits(s.take(i - from)),
            acc as nat == hex_value(s.take(i - from)),
            i - from == 0 ==> acc == 0,
            i - from == 1 ==> acc < 0x10,
            i - from == 2 ==> acc < 0x100,
            i - from == 3 ==> acc < 0x1000,
            i - from == 4 ==> acc < 0x10000,
        decreases to - i,
    {
        let c: char = v[i];
        assert(s[i - from] == c);
        let d: u32 = if c >= '0' && c <= '9' {
            c as u32 - '0' as u32
        } else if c >= 'a' && c <= 'f' {
            c as u32 - 'a' as u32 + 10
        } else if c >= 'A' && c <= 'F' {
            c as u32 - 'A' as u32 + 10
        } else {
            return None;
        };
        proof {
            assert(s.take(i - from + 1).drop_last() =~= s.take(i - from));
            assert(s.take(i - from + 1).last() == c);
        }
        acc = acc * 16 + d;
        i = i + 1;
    }
    assert(s.take(to - from) =~= s);
    Some(acc as u16)
}

/// The index of the first `sep` in `s`, or the length of `s` when there is none.
pub open spec fn first_index(s: Seq<char>, sep: char) -> int
    decreases s.len(),
{
    if s.len() == 0 {
        0
    } else if s[0] == sep {
        0
    } else {
        1 + first_index(s.skip(1), sep)
    }
}

/// `first_index` is the least position that holds `sep`.
pub proof fn lemma_first_index(s: Seq<char>, sep: char)
    ensures
        0 <= first_index(s, sep) <= s.len(),
        forall|j: int| 0 <= j < first_index(s, sep) ==> s[j] != sep,
        first_index(s, sep) < s.len() ==> s[first_index(s, sep)] == sep,
    decreases s.len(),
{
    if s.len() > 0 && s[0] != sep {
        lemma_first_index(s.skip(1), sep);
        assert forall|j: int| 0 <= j < first_index(s, sep) implies s[j] != sep by {
            if j > 0 {
                assert(s[j] == s.skip(1)[j - 1]);
            }
        }
    }
}

/// A position that holds `sep` and has no `sep` before it is the first index.
pub proof fn lemma_first_index_is(s: Seq<char>, sep: char, k: int)
    requires
        0 <= k <= s.len(),
        forall|j: int| 0 <= j < k ==> s[j] != sep,
        k < s.len() ==> s[k] == sep,
    ensures
        first_index(s, sep) == k,
{
    lemma_first_index(s, sep);
}

/// The pieces into which the occurrences of `sep` cut `s`, in order. A text
/// with `n` separators has `n + 1` pieces, some of which may be empty.
pub open spec fn split(s: Seq<char>, sep: char) -> Seq<Seq<char>>
    decreases s.len(),
{
    let i = first_index(s, sep);
    if 0 <= i < s.len() {
        seq![s.take(i)] + split(s.skip(i + 1), sep)
    } else {
        seq![s]
    }
}

/// The texts that the bounds in `ranges` cut out of `v`.
pub open spec fn pieces_of(v: Seq<char>, ranges: Seq<(usize, usize)>) -> Seq<Seq<char>> {
    Seq::new(ranges.len(), |k: int| v.subrange(ranges[k].0 as int, ranges[k].1 as int))
}

/// Each pair in `ranges` is a range within `from..to`.
pub open spec fn ranges_within(ranges: Seq<(usize, usize)>, from: int, to: int) -> bool {
    forall|k: int|
        0 <= k < ranges.len() ==> from <= (#[trigger] ranges[k]).0 <= ranges[k].1 <= to
}

/// The ranges of `v[from..to]` between the occurrences of `sep`: one pair of
/// bounds for each piece of the split, in order.
pub fn split_ranges(v: &Vec<char>, from: usize, to: usize, sep: char) -> (r: Vec<(usize, usize)>)
    requires
        from <= to <= v.len(),
    ensures
        pieces_of(v@, r@) == split(v@.subrange(from as int, to as int), sep),
        ranges_within(r@, from as int, to as int),
        r.len() >= 1,
{
    let ghost s = v@.subrange(from as int, to as int);
    let mut r: Vec<(usize, usize)> = Vec::new();
    let mut start: usize = from;
    let mut i: usize = from;
    while i < to
        invariant
            from <= start <= i <= to <= v.len(),
            s == v@.subrange(from as int, to as int),
            forall|j: int| start <= j < i ==> v@[j] != sep,
            split(s, sep) =~= pieces_of(v@, r@) + split(v@.subrange(start as int, to as int), sep),
            ranges_within(r@, from as int, to as int),
        decreases to - i,
    {
        if v[i] == sep {
            let ghost rest = v@.subrange(start as int, to as int);
            let ghost before = pieces_of(v@, r@);
            let ghost piece = v@.subrange(start as int, i as int);
            proof {
                lemma_first_index_is(rest, sep, i - start);
                assert(rest.take(i - start) =~= piece);
                assert(rest.skip(i - start + 1) =~= v@.subrange(i + 1, to as int));
            }
            r.push((start, i));
            start = i + 1;
            assert(pieces_of(v@, r@) =~= before + seq![piece]);
        }
        i = i + 1;
    }
    let ghost before = pieces_of(v@, r@);
    proof {
        let rest = v@.subrange(start as int, to as int);
        lemma_first_index_is(rest, sep, rest.len() as int);
    }
    r.push((start, to));
    assert(pieces_of(v@, r@) =~= before + seq![v@.subrange(start as int, to as int)]);
    r
}

/// The position of the first `c` in `v[from..to]`, or `to` when there is none.
pub fn find_char(v: &Vec<char>, from: usize, to: usize, c: char) -> (i: usize)
    requires
        from <= to <= v.len(),
    ensures
        from <= i <= to,
        i - from == first_index(v@.subrange(from as int, to as int), c),
{
    let mut i: usize = from;
    while i < to && v[i] != c
        invariant
            from <= i <= to <= v.len(),
            forall|j: int| from <= j < i ==> v@[j] != c,
        decreases to - i,
    {
        i = i + 1;
    }
    proof {
        lemma_first_index_is(v@.subrange(from as int, to as int), c, i - from);
    }
    i
}

/// The character that writes the digit `d`, in lower case from ten on.
pub open spec fn digit_char(d: nat) -> char {
    if d < 10 {
        (48 + d) as char
    } else {
        (87 + d) as char
    }
}

/// The number `n` written in base ten, without leading zeros.
pub open spec fn decimal_text(n: nat) -> Seq<char>
    decreases n,
{
    if n < 10 {
        seq![digit_char(n)]
    } else {
        decimal_text(n / 10).push(digit_char(n % 10))
    }
}

/// The number `n` written in base sixteen, in lower case and without leading
/// zeros.
pub open spec fn hex_text(n: nat) -> Seq<char>
    decreases n,
{
    if n < 16 {
        seq![digit_char(n)]
    } else {
        hex_text(n / 16).push(digit_char(n % 16))
    }
}

/// A number written in base ten reads back as itself. The text has digits
/// only, starts with a zero only if the number is zero, and is as short as
/// the number allows.
pub proof fn lemma_decimal_text(n: nat)
    ensures
        decimal_text(n).len() >= 1,
        all_digits(decimal_text(n)),
        decimal_value(decimal_text(n)) == n,
        n > 0 ==> decimal_text(n)[0] != '0',
        n < 10 ==> decimal_text(n).len() == 1,
        n < 100 ==> decimal_text(n).len() <= 2,
        n < 1000 ==> decimal_text(n).len() <= 3,
    decreases n,
{
    let t = decimal_text(n);
    if n < 10 {
        assert(t.drop_last() =~= Seq::<char>::empty());
        assert(decimal_value(t.drop_last()) == 0);
        assert(digit_value(t.last()) == n);
    } else {
        lemma_decimal_text(n / 10);
        let front = decimal_text(n / 10);
        assert(t.drop_last() =~= front);
        assert(t.last() == digit_char(n % 10));
        assert(digit_value(t.last()) == n % 10);
        assert(t[0] == front[0]);
        assert forall|i: int| 0 <= i < t.len() implies is_digit(#[trigger] t[i]) by {
            if i < front.len() {
                assert(t[i] == front[i]);
            }
        }
    }
}

/// A number below 65536 written in base sixteen reads back as itself, as a
/// group of one to four hexadecimal digits.
pub proof fn lemma_hex_text(n: nat)
    requires
        n < 0x10000,
    ensures
        hex_group(hex_text(n)) == Some(n),
{
    lemma_hex_text_value(n);
}

proof fn lemma_hex_text_value(n: nat)
    ensures
        hex_text(n).len() >= 1,
        all_hex_digits(hex_text(n)),
        hex_value(hex_text(n)) == n,
        n < 0x10 ==> hex_text(n).len() == 1,
        n < 0x100 ==> hex_text(n).len() <= 2,
        n < 0x1000 ==> hex_text(n).len() <= 3,
        n < 0x10000 ==> hex_text(n).len() <= 4,
    decreases n,
{
    let t = hex_text(n);
    if n < 16 {
        assert(t.drop_last() =~= Seq::<char>::empty());
        assert(hex_value(t.drop_last()) == 0);
        assert(hex_digit_value(t.last()) == n);
    } else {
        lemma_hex_text_value(n / 16);
        let front = hex_text(n / 16);
        assert(t.drop_last() =~= front);
        assert(t.last() == digit_char(n % 16));
        assert(hex_digit_value(t.last()) == n % 16);
        assert forall|i: int| 0 <= i < t.len() implies is_hex_digit(#[trigger] t[i]) by {
            if i < front.len() {
                assert(t[i] == front[i]);
            }
        }
    }
}

/// The texts of `parts` in a row, with `sep` between each two.
pub open spec fn join(parts: Seq<Seq<char>>, sep: char) -> Seq<char>
    decreases parts.len(),
{
    if parts.len() == 0 {
        Seq::empty()
    } else if parts.len() == 1 {
        parts[0]
    } else {
        parts[0] + seq![sep] + join(parts.skip(1), sep)
    }
}

/// Texts without the separator, once joined, split into themselves.
pub proof fn lemma_split_join(parts: Seq<Seq<char>>, sep: char)
    requires
        parts.len() >= 1,
        forall|i: int, j: int|
            0 <= i < parts.len() && 0 <= j < parts[i].len() ==> #[trigger] parts[i][j] != sep,
    ensures
        split(join(parts, sep), sep) == parts,
    decreases parts.len(),
{
    let s = join(parts, sep);
    if parts.len() == 1 {
        lemma_first_index_is(s, sep, s.len() as int);
        assert(split(s, sep) =~= parts);
    } else {
        let rest = parts.skip(1);
        assert forall|i: int, j: int|
            0 <= i < rest.len() && 0 <= j < rest[i].len() implies #[trigger] rest[i][j]
            != sep by {
            assert(rest[i][j] == parts[i + 1][j]);
        }
        lemma_split_join(rest, sep);
        let k = parts[0].len() as int;
        assert forall|j: int| 0 <= j < k implies s[j] != sep by {
            assert(s[j] == parts[0][j]);
        }
        assert(s[k] == sep);
        lemma_first_index_is(s, sep, k);
        assert(s.take(k) =~= parts[0]);
        assert(s.skip(k + 1) =~= join(rest, sep));
        assert(split(s, sep) =~= parts);
    }
}

/// Joining one more text adds the separator and the text.
pub proof fn lemma_join_push(parts: Seq<Seq<char>>, sep: char, last: Seq<char>)
    requires
        parts.len() >= 1,
    ensures
        join(parts.push(last), sep) == join(parts, sep) + seq![sep] + last,
    decreases parts.len(),
{
    let all = parts.push(last);
    if parts.len() == 1 {
        assert(all.skip(1) =~= seq![last]);
        assert(join(all.skip(1), sep) == last);
        assert(all[0] == parts[0]);
    } else {
        assert(all.skip(1) =~= parts.skip(1).push(last));
        lemma_join_push(parts.skip(1), sep, last);
        assert(all[0] == parts[0]);
        assert(join(all, sep) =~= join(parts, sep) + seq![sep] + last);
    }
}

/// A joined text holds the separator and what its parts hold, nothing else.
pub proof fn lemma_join_chars(parts: Seq<Seq<char>>, sep: char, allowed: spec_fn(char) -> bool)
    requires
        allowed(sep),
        forall|i: int, j: int|
            0 <= i < parts.len() && 0 <= j < parts[i].len() ==> allowed(#[trigger] parts[i][j]),
    ensures
        forall|j: int| 0 <= j < join(parts, sep).len() ==> allowed(#[trigger] join(parts, sep)[j]),
    decreases parts.len(),
{
    if parts.len() >= 2 {
        let rest = parts.skip(1);
        assert forall|i: int, j: int|
            0 <= i < rest.len() && 0 <= j < rest[i].len() implies allowed(
            #[trigger] rest[i][j],
        ) by {
            assert(rest[i][j] == parts[i + 1][j]);
        }
        lemma_join_chars(rest, sep, allowed);
        let s = join(parts, sep);
        let k = parts[0].len() as int;
        assert forall|j: int| 0 <= j < s.len() implies allowed(#[trigger] s[j]) by {
            if j < k {
                assert(s[j] == parts[0][j]);
            } else if j == k {
                assert(s[j] == sep);
            } else {
                assert(s[j] == join(rest, sep)[j - k - 1]);
            }
        }
    } else if parts.len() == 1 {
        let s = join(parts, sep);
        assert forall|j: int| 0 <= j < s.len() implies allowed(#[trigger] s[j]) by {
            assert(s[j] == parts[0][j]);
        }
    }
}

/// Appends the digit `d` to `out`.
pub fn push_digit(out: &mut String, d: u8)
    requires
        d < 16,
    ensures
        final(out)@ == old(out)@.push(digit_char(d as nat)),
{
    let digits = "0123456789abcdef";
    proof {
        reveal_strlit("0123456789abcdef");
        assert(digits@[d as int] == digit_char(d as nat));
    }
    let one = digits.substring_ascii(d as usize, d as usize + 1);
    assert(one@ =~= seq![digit_char(d as nat)]);
    out.append(one);
}

/// Appends `n`, written in base ten, to `out`.
pub fn push_decimal(out: &mut String, n: u64)
    ensures
        final(out)@ == old(out)@ + decimal_text(n as nat),
    decreases n,
{
    if n >= 10 {
        push_decimal(out, n / 10);
    }
    push_digit(out, (n % 10) as u8);
    proof {
        if n < 10 {
            assert(old(out)@.push(digit_char(n as nat)) =~= old(out)@ + decimal_text(n as nat));
        } else {
            assert((old(out)@ + decimal_text(n as nat / 10)).push(digit_char(n as nat % 10))
                =~= old(out)@ + decimal_text(n as nat));
        }
    }
}

/// Appends `n`, written in base sixteen, to `out`.
pub fn push_hex(out: &mut String, n: u16)
    ensures
        final(out)@ == old(out)@ + hex_text(n as nat),
    decreases n,
{
    if n >= 16 {
        push_hex(out, n / 16);
    }
    push_digit(out, (n % 16) as u8);
    proof {
        if n < 16 {
            assert(old(out)@.push(digit_char(n as nat)) =~= old(out)@ + hex_text(n as nat));
        } else {
            assert((old(out)@ + hex_text(n as nat / 16)).push(digit_char(n as nat % 16))
                =~= old(out)@ + hex_text(n as nat));
        }
    }
}

} // verus!
