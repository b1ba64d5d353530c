//! Socket addresses in their textual form: an IPv4 address and a port, as in
//! `67.166.1.116:9735`, or a bracketed IPv6 address, an optional scope and a
//! port, as in `[2001:db8::1%3]:9735`.

use crate::text::{
    chars_of, decimal_text, decimal_upto, find_char, first_index, hex_group, hex_text, is_digit,
    is_hex_digit, join, lemma_decimal_text, lemma_first_index, lemma_first_index_is,
    lemma_hex_text, lemma_join_chars, lemma_join_push, lemma_split_join, pieces_of, push_decimal,
    push_hex, ranges_within, read_decimal, read_hex_group, split, split_ranges,
};
use vstd::prelude::*;

verus! {

/// An IPv4 address, as its four octets from the most significant down.
#[derive(Clone, Copy, Debug, PartialEq, Eq)]
pub struct Ipv4 {
    pub a: u8,
    pub b: u8,
    pub c: u8,
    pub d: u8,
}

/// An IPv6 address, as its eight 16-bit segments from the most significant down.
#[derive(Clone, Copy, Debug, PartialEq, Eq)]
pub struct Ipv6 {
    pub s0: u16,
    pub s1: u16,
    pub s2: u16,
    pub s3: u16,
    pub s4: u16,
    pub s5: u16,
    pub s6: u16,
    pub s7: u16,
}

/// An IPv4 address and a port.
#[derive(Clone, Copy, Debug, PartialEq, Eq)]
pub struct SocketAddrV4 {
    pub ip: Ipv4,
    pub port: u16,
}

/// An IPv6 address, a port and a scope identifier, which is zero when the
/// text names none.
#[derive(Clone, Copy, Debug, PartialEq, Eq)]
pub struct SocketAddrV6 {
    pub ip: Ipv6,
    pub port: u16,
    pub scope_id: u32,
}

/// A network endpoint of either address family.
#[derive(Clone, Copy, Debug, PartialEq, Eq)]
pub enum SocketAddr {
    V4(SocketAddrV4),
    V6(SocketAddrV6),
}

impl Ipv6 {
    /// The address whose segments are the first eight items of `g`.
    pub open spec fn of_segments(g: Seq<u16>) -> Ipv6 {
        Ipv6 { s0: g[0], s1: g[1], s2: g[2], s3: g[3], s4: g[4], s5: g[5], s6: g[6], s7: g[7] }
    }

    /// The eight segments, in order.
    pub open spec fn segments(self) -> Seq<u16> {
        seq![self.s0, self.s1, self.s2, self.s3, self.s4, self.s5, self.s6, self.s7]
    }
}

/// What a text denotes as one octet of a dotted quad: one to three digits with
/// no leading zero (the text `0` itself is fine) and a value of at most 255.
pub open spec fn octet(s: Seq<char>) -> Option<u8> {
    if 1 <= s.len() <= 3 && (s.len() > 1 ==> s[0] != '0') {
        match decimal_upto(s, 255) {
            Some(n) => Some(n as u8),
            None => None,
        }
    } else {
        None
    }
}

/// What a text denotes as an IPv4 address: four octets separated by dots.
pub open spec fn ipv4_text(s: Seq<char>) -> Option<Ipv4> {
    let parts = split(s, '.');
    if parts.len() == 4 {
        match (octet(parts[0]), octet(parts[1]), octet(parts[2]), octet(parts[3])) {
            (Some(a), Some(b), Some(c), Some(d)) => Some(Ipv4 { a, b, c, d }),
            _ => None,
        }
    } else {
        None
    }
}

/// The segments that a list of texts denotes when each is a group of one to
/// four hexadecimal digits.
pub open spec fn hex_groups(pieces: Seq<Seq<char>>) -> Option<Seq<u16>>
    decreases pieces.len(),
{
    if pieces.len() == 0 {
        Some(Seq::empty())
    } else {
        match (hex_groups(pieces.drop_last()), hex_group(pieces.last())) {
            (Some(gs), Some(g)) => Some(gs.push(g as u16)),
            _ => None,
        }
    }
}

/// The two segments that hold an IPv4 address embedded in an IPv6 address.
pub open spec fn embedded_segments(ip: Ipv4) -> Seq<u16> {
    seq![(ip.a as int * 256 + ip.b as int) as u16, (ip.c as int * 256 + ip.d as int) as u16]
}

/// The segments that a text denotes as a list of items separated by colons.
/// Each item is a group of hexadecimal digits; the last one may instead be a
/// dotted quad, which stands for two segments.
pub open spec fn group_list(s: Seq<char>) -> Option<Seq<u16>> {
    let pieces = split(s, ':');
    match ipv4_text(pieces.last()) {
        Some(ip) => match hex_groups(pieces.drop_last()) {
            Some(gs) => Some(gs + embedded_segments(ip)),
            None => None,
        },
        None => hex_groups(pieces),
    }
}

/// Two colons stand at the positions `j` and `j + 1` of `s`.
pub open spec fn double_colon_at(s: Seq<char>, j: int) -> bool {
    0 <= j && j + 1 < s.len() && s[j] == ':' && s[j + 1] == ':'
}

/// The index of the first `::` in `s`, or the length of `s` when there is none.
pub open spec fn first_double_colon(s: Seq<char>) -> int
    decreases s.len(),
{
    if s.len() < 2 {
        s.len() as int
    } else if double_colon_at(s, 0) {
        0
    } else {
        1 + first_double_colon(s.skip(1))
    }
}

/// The eight segments of an address written with `head` before the run of
/// zeros and `tail` after it.
pub open spec fn expand(head: Seq<u16>, tail: Seq<u16>) -> Seq<u16> {
    Seq::new(
        8,
        |i: int|
            if i < head.len() {
                head[i]
            } else if i >= 8 - tail.len() {
                tail[i - (8 - tail.len())]
            } else {
                0u16
            },
    )
}

/// The segments of one side of a `::`: none for the empty text, else a list
/// of items, where only the right side may end in a dotted quad.
pub open spec fn side_groups(s: Seq<char>, dotted_quad: bool) -> Option<Seq<u16>> {
    if s.len() == 0 {
        Some(Seq::empty())
    } else if dotted_quad {
        group_list(s)
    } else {
        hex_groups(split(s, ':'))
    }
}

/// What a text denotes as an IPv6 address. Without `::` it is a list of
/// exactly eight segments. With `::`, the lists on the two sides hold at most
/// seven segments together, and zeros fill the gap between them.
pub open spec fn ipv6_text(s: Seq<char>) -> Option<Ipv6> {
    let i = first_double_colon(s);
    if 0 <= i < s.len() {
        match (side_groups(s.take(i), false), side_groups(s.skip(i + 2), true)) {
            (Some(h), Some(t)) => if h.len() + t.len() <= 7 {
                Some(Ipv6::of_segments(expand(h, t)))
            } else {
                None
            },
            _ => None,
        }
    } else {
        match group_list(s) {
            Some(g) => if g.len() == 8 {
                Some(Ipv6::of_segments(g))
            } else {
                None
            },
            None => None,
        }
    }
}

/// What a text denotes as a port: a decimal number of at most 65535.
pub open spec fn port_text(s: Seq<char>) -> Option<u16> {
    match decimal_upto(s, 0xffff) {
        Some(n) => Some(n as u16),
        None => None,
    }
}

/// What the inside of the brackets denotes: an IPv6 address, and after a `%`
/// a scope identifier, a decimal number of at most `u32::MAX`.
pub open spec fn scoped_ipv6_text(s: Seq<char>) -> Option<(Ipv6, u32)> {
    let p = first_index(s, '%');
    let scope = if 0 <= p < s.len() {
        match decimal_upto(s.skip(p + 1), 0xffff_ffff) {
            Some(n) => Some(n as u32),
            None => None,
        }
    } else {
        Some(0u32)
    };
    match (ipv6_text(s.take(p)), scope) {
        (Some(ip), Some(scope_id)) => Some((ip, scope_id)),
        _ => None,
    }
}

/// What a text denotes as a socket address. A text that starts with `[` is
/// read as `[address]:port` with an IPv6 address, any other as `address:port`
/// with an IPv4 address. Nothing may come before or after.
pub open spec fn socket_addr_text(s: Seq<char>) -> Option<SocketAddr> {
    if s.len() > 0 && s[0] == '[' {
        let close = first_index(s, ']');
        if close + 1 < s.len() && s[close + 1] == ':' {
            match (scoped_ipv6_text(s.subrange(1, close)), port_text(s.skip(close + 2))) {
                (Some((ip, scope_id)), Some(port)) => Some(SocketAddr::V6(SocketAddrV6 { ip, port, scope_id })),
                _ => None,
            }
        } else {
            None
        }
    } else {
        let colon = first_index(s, ':');
        if 0 <= colon < s.len() {
            match (ipv4_text(s.take(colon)), port_text(s.skip(colon + 1))) {
                (Some(ip), Some(port)) => Some(SocketAddr::V4(SocketAddrV4 { ip, port })),
                _ => None,
            }
        } else {
            None
        }
    }
}

fn read_octet(v: &Vec<char>, from: usize, to: usize) -> (r: Option<u8>)
    requires
        from <= to <= v.len(),
    ensures
        r == octet(v@.subrange(from as int, to as int)),
{
    if to - from < 1 || to - from > 3 {
        return None;
    }
    assert(v@.subrange(from as int, to as int)[0] == v@[from as int]);
    if to - from > 1 && v[from] == '0' {
        return None;
    }
    match read_decimal(v, from, to, 255) {
        Some(n) => Some(n as u8),
        None => None,
    }
}

fn read_ipv4(v: &Vec<char>, from: usize, to: usize) -> (r: Option<Ipv4>)
    requires
        from <= to <= v.len(),
    ensures
        r == ipv4_text(v@.subrange(from as int, to as int)),
{
    let ranges = split_ranges(v, from, to, '.');
    if ranges.len() != 4 {
        return None;
    }
    proof {
        let parts = pieces_of(v@, ranges@);
        assert(parts[0] == v@.subrange(ranges[0].0 as int, ranges[0].1 as int));
        assert(parts[1] == v@.subrange(ranges[1].0 as int, ranges[1].1 as int));
        assert(parts[2] == v@.subrange(ranges[2].0 as int, ranges[2].1 as int));
        assert(parts[3] == v@.subrange(ranges[3].0 as int, ranges[3].1 as int));
    }
    let a = read_octet(v, ranges[0].0, ranges[0].1);
    let b = read_octet(v, ranges[1].0, ranges[1].1);
    let c = read_octet(v, ranges[2].0, ranges[2].1);
    let d = read_octet(v, ranges[3].0, ranges[3].1);
    match (a, b, c, d) {
        (Some(a), Some(b), Some(c), Some(d)) => Some(Ipv4 { a, b, c, d }),
        _ => None,
    }
}

/// A list with a piece that is no hexadecimal group denotes nothing.
proof fn lemma_hex_groups_none(pieces: Seq<Seq<char>>, k: int)
    requires
        0 <= k < pieces.len(),
        hex_group(pieces[k]) is None,
    ensures
        hex_groups(pieces) is None,
    decreases pieces.len(),
{
    if k < pieces.len() - 1 {
        lemma_hex_groups_none(pieces.drop_last(), k);
    }
}

fn read_hex_groups(v: &Vec<char>, ranges: &Vec<(usize, usize)>, count: usize) -> (r: Option<
    Vec<u16>,
>)
    requires
        count <= ranges.len(),
        ranges_within(ranges@, 0, v.len() as int),
    ensures
        r matches Some(gs) ==> hex_groups(pieces_of(v@, ranges@).take(count as int)) == Some(gs@),
        r is None ==> hex_groups(pieces_of(v@, ranges@).take(count as int)) is None,
{
    let ghost pieces = pieces_of(v@, ranges@).take(count as int);
    let mut gs: Vec<u16> = Vec::new();
    let mut k: usize = 0;
    while k < count
        invariant
            k <= count <= ranges.len(),
            ranges_within(ranges@, 0, v.len() as int),
            pieces == pieces_of(v@, ranges@).take(count as int),
            hex_groups(pieces.take(k as int)) == Some(gs@),
        decreases count - k,
    {
        let (from, to) = ranges[k];
        assert(pieces[k as int] == v@.subrange(from as int, to as int));
        match read_hex_group(v, from, to) {
            Some(g) => {
                proof {
                    assert(pieces.take(k + 1).drop_last() =~= pieces.take(k as int));
                    assert(pieces.take(k + 1).last() == pieces[k as int]);
                }
                gs.push(g);
            },
            None => {
                proof {
                    lemma_hex_groups_none(pieces, k as int);
                }
                return None;
            },
        }
        k = k + 1;
    }
    assert(pieces.take(count as int) =~= pieces);
    Some(gs)
}

fn read_group_list(v: &Vec<char>, from: usize, to: usize) -> (r: Option<Vec<u16>>)
    requires
        from <= to <= v.len(),
    ensures
        r matches Some(gs) ==> group_list(v@.subrange(from as int, to as int)) == Some(gs@),
        r is None ==> group_list(v@.subrange(from as int, to as int)) is None,
{
    let ranges = split_ranges(v, from, to, ':');
    let n = ranges.len();
    let ghost pieces = pieces_of(v@, ranges@);
    let (last_from, last_to) = ranges[n - 1];
    assert(pieces.last() == v@.subrange(last_from as int, last_to as int));
    assert(pieces.take(n - 1) =~= pieces.drop_last());
    assert(pieces.take(n as int) =~= pieces);
    match read_ipv4(v, last_from, last_to) {
        Some(ip) => match read_hex_groups(v, &ranges, n - 1) {
            Some(mut gs) => {
                let ghost before = gs@;
                gs.push(ip.a as u16 * 256 + ip.b as u16);
                gs.push(ip.c as u16 * 256 + ip.d as u16);
                assert(gs@ =~= before + embedded_segments(ip));
                Some(gs)
            },
            None => None,
        },
        None => read_hex_groups(v, &ranges, n),
    }
}

/// `first_double_colon` is the least position at which a `::` starts.
proof fn lemma_first_double_colon_is(s: Seq<char>, k: int)
    requires
        0 <= k <= s.len(),
        forall|j: int| 0 <= j < k ==> !double_colon_at(s, j),
        k < s.len() ==> double_colon_at(s, k),
    ensures
        first_double_colon(s) == k,
    decreases s.len(),
{
    if s.len() < 2 {
        if k < s.len() {
            assert(double_colon_at(s, k));
        }
        if s.len() == 1 && k == 0 {
            assert(double_colon_at(s, 0));
        }
    } else if k == 0 {
        if s.len() > 0 {
            assert(double_colon_at(s, 0));
        }
    } else {
        assert(!double_colon_at(s, 0));
        let t = s.skip(1);
        assert forall|j: int| 0 <= j < k - 1 implies !double_colon_at(t, j) by {
            assert(!double_colon_at(s, j + 1));
            if j + 1 < t.len() {
                assert(t[j] == s[j + 1]);
                assert(t[j + 1] == s[j + 2]);
            }
        }
        if k < s.len() {
            assert(double_colon_at(s, k));
            assert(t[k - 1] == s[k]);
            assert(t[k] == s[k + 1]);
            assert(double_colon_at(t, k - 1));
        }
        lemma_first_double_colon_is(t, k - 1);
    }
}

fn find_double_colon(v: &Vec<char>, from: usize, to: usize) -> (i: usize)
    requires
        from <= to <= v.len(),
    ensures
        from <= i <= to,
        i < to ==> i + 1 < to,
        i - from == first_double_colon(v@.subrange(from as int, to as int)),
{
    let mut i: usize = from;
    while i < to
        invariant
            from <= i <= to <= v.len(),
            forall|j: int|
                0 <= j < i - from ==> !double_colon_at(v@.subrange(from as int, to as int), j),
        decreases to - i,
    {
        let ghost s = v@.subrange(from as int, to as int);
        if i + 1 < to && v[i] == ':' && v[i + 1] == ':' {
            proof {
                assert(s[i - from] == v@[i as int]);
                assert(s[i - from + 1] == v@[i + 1]);
                assert(double_colon_at(s, i - from));
                lemma_first_double_colon_is(v@.subrange(from as int, to as int), i - from);
            }
            return i;
        }
        proof {
            if i + 1 < to {
                assert(s[i - from] == v@[i as int]);
                assert(s[i - from + 1] == v@[i + 1]);
            }
            assert(!double_colon_at(s, i - from));
        }
        i = i + 1;
    }
    proof {
        lemma_first_double_colon_is(v@.subrange(from as int, to as int), to - from);
    }
    to
}

fn read_side(v: &Vec<char>, from: usize, to: usize, dotted_quad: bool) -> (r: Option<Vec<u16>>)
    requires
        from <= to <= v.len(),
    ensures
        r matches Some(gs) ==> side_groups(v@.subrange(from as int, to as int), dotted_quad)
            == Some(gs@),
        r is None ==> side_groups(v@.subrange(from as int, to as int), dotted_quad) is None,
{
    if from == to {
        Some(Vec::new())
    } else if dotted_quad {
        read_group_list(v, from, to)
    } else {
        let ranges = split_ranges(v, from, to, ':');
        assert(pieces_of(v@, ranges@).take(ranges.len() as int) =~= pieces_of(v@, ranges@));
        read_hex_groups(v, &ranges, ranges.len())
    }
}

fn segment(head: &Vec<u16>, tail: &Vec<u16>, i: usize) -> (g: u16)
    requires
        i < 8,
        head.len() + tail.len() <= 8,
    ensures
        g == expand(head@, tail@)[i as int],
{
    if i < head.len() {
        head[i]
    } else if i >= 8 - tail.len() {
        tail[i - (8 - tail.len())]
    } else {
        0
    }
}

fn read_ipv6(v: &Vec<char>, from: usize, to: usize) -> (r: Option<Ipv6>)
    requires
        from <= to <= v.len(),
    ensures
        r == ipv6_text(v@.subrange(from as int, to as int)),
{
    let ghost s = v@.subrange(from as int, to as int);
    let i = find_double_colon(v, from, to);
    let (head, tail) = if i < to {
        assert(s.take(i - from) =~= v@.subrange(from as int, i as int));
        assert(s.skip(i - from + 2) =~= v@.subrange(i + 2, to as int));
        match (read_side(v, from, i, false), read_side(v, i + 2, to, true)) {
            (Some(h), Some(t)) => {
                if h.len() > 7 || t.len() > 7 - h.len() {
                    return None;
                }
                (h, t)
            },
            _ => { return None; },
        }
    } else {
        match read_group_list(v, from, to) {
            Some(g) => {
                if g.len() != 8 {
                    return None;
                }
                assert(expand(g@, Seq::empty()) =~= g@);
                (g, Vec::new())
            },
            None => { return None; },
        }
    };
    Some(
        Ipv6 {
            s0: segment(&head, &tail, 0),
            s1: segment(&head, &tail, 1),
            s2: segment(&head, &tail, 2),
            s3: segment(&head, &tail, 3),
            s4: segment(&head, &tail, 4),
            s5: segment(&head, &tail, 5),
            s6: segment(&head, &tail, 6),
            s7: segment(&head, &tail, 7),
        },
    )
}

fn read_port(v: &Vec<char>, from: usize, to: usize) -> (r: Option<u16>)
    requires
        from <= to <= v.len(),
    ensures
        r == port_text(v@.subrange(from as int, to as int)),
{
    match read_decimal(v, from, to, 0xffff) {
        Some(n) => Some(n as u16),
        None => None,
    }
}

fn read_scoped_ipv6(v: &Vec<char>, from: usize, to: usize) -> (r: Option<(Ipv6, u32)>)
    requires
        from <= to <= v.len(),
    ensures
        r == scoped_ipv6_text(v@.subrange(from as int, to as int)),
{
    let ghost s = v@.subrange(from as int, to as int);
    let p = find_char(v, from, to, '%');
    assert(s.take(p - from) =~= v@.subrange(from as int, p as int));
    let scope: Option<u32> = if p < to {
        assert(s.skip(p - from + 1) =~= v@.subrange(p + 1, to as int));
        match read_decimal(v, p + 1, to, 0xffff_ffff) {
            Some(n) => Some(n as u32),
            None => None,
        }
    } else {
        Some(0)
    };
    match (read_ipv6(v, from, p), scope) {
        (Some(ip), Some(scope_id)) => Some((ip, scope_id)),
        _ => None,
    }
}

/// Reads a whole text as a socket address.
pub fn parse_socket_addr(v: &Vec<char>) -> (r: Option<SocketAddr>)
    ensures
        r == socket_addr_text(v@),
{
    let n = v.len();
    assert(v@.subrange(0, n as int) =~= v@);
    if n > 0 && v[0] == '[' {
        let close = find_char(v, 0, n, ']');
        proof {
            lemma_first_index(v@, ']');
        }
        if close < n && close + 1 < n && v[close + 1] == ':' {
            assert(v@.skip(close + 2) =~= v@.subrange(close + 2, n as int));
            match (read_scoped_ipv6(v, 1, close), read_port(v, close + 2, n)) {
                (Some((ip, scope_id)), Some(port)) => Some(SocketAddr::V6(SocketAddrV6 { ip, port, scope_id })),
                _ => None,
            }
        } else {
            None
        }
    } else {
        let colon = find_char(v, 0, n, ':');
        if colon < n {
            assert(v@.take(colon as int) =~= v@.subrange(0, colon as int));
            assert(v@.skip(colon + 1) =~= v@.subrange(colon + 1, n as int));
            match (read_ipv4(v, 0, colon), read_port(v, colon + 1, n)) {
                (Some(ip), Some(port)) => Some(SocketAddr::V4(SocketAddrV4 { ip, port })),
                _ => None,
            }
        } else {
            None
        }
    }
}

/// A text that is no socket address.
#[derive(Clone, Copy, Debug, PartialEq, Eq)]
pub struct AddrParseError;

impl SocketAddr {
    /// Reads a text as a socket address.
    pub fn parse(s: &str) -> (r: Option<SocketAddr>)
        ensures
            r == socket_addr_text(s@),
    {
        let chars = chars_of(s);
        parse_socket_addr(&chars)
    }
}

impl core::str::FromStr for SocketAddr {
    type Err = AddrParseError;

    fn from_str(s: &str) -> (r: Result<SocketAddr, AddrParseError>)
        ensures
            r is Ok <==> socket_addr_text(s@) is Some,
            r matches Ok(a) ==> socket_addr_text(s@) == Some(a),
    {
        match SocketAddr::parse(s) {
            Some(a) => Ok(a),
            None => Err(AddrParseError),
        }
    }
}

/// The texts of the segments `gs`, each in base sixteen.
pub open spec fn hex_texts(gs: Seq<u16>) -> Seq<Seq<char>> {
    Seq::new(gs.len(), |i: int| hex_text(gs[i] as nat))
}

/// An IPv4 address as a dotted quad.
pub open spec fn ipv4_string(ip: Ipv4) -> Seq<char> {
    join(
        seq![
            decimal_text(ip.a as nat),
            decimal_text(ip.b as nat),
            decimal_text(ip.c as nat),
            decimal_text(ip.d as nat),
        ],
        '.',
    )
}

/// An IPv6 address with all its eight segments written out.
pub open spec fn ipv6_string(ip: Ipv6) -> Seq<char> {
    join(hex_texts(ip.segments()), ':')
}

/// The scope of an IPv6 socket address as it stands after the address:
/// nothing for scope zero, else a `%` and the number.
pub open spec fn scope_string(scope_id: u32) -> Seq<char> {
    if scope_id == 0 {
        Seq::empty()
    } else {
        seq!['%'] + decimal_text(scope_id as nat)
    }
}

/// A socket address as text: `address:port` for IPv4, `[address]:port` or
/// `[address%scope]:port` for IPv6.
pub open spec fn socket_addr_string(a: SocketAddr) -> Seq<char> {
    match a {
        SocketAddr::V4(a) => ipv4_string(a.ip) + seq![':'] + decimal_text(a.port as nat),
        SocketAddr::V6(a) => seq!['['] + ipv6_string(a.ip) + scope_string(a.scope_id) + seq![
            ']',
            ':',
        ] + decimal_text(a.port as nat),
    }
}

/// Non-empty texts without a colon, once joined by colons, hold no `::`.
proof fn lemma_join_no_double_colon(parts: Seq<Seq<char>>)
    requires
        forall|i: int| 0 <= i < parts.len() ==> (#[trigger] parts[i]).len() > 0,
        forall|i: int, j: int|
            0 <= i < parts.len() && 0 <= j < parts[i].len() ==> #[trigger] parts[i][j] != ':',
    ensures
        forall|j: int| !double_colon_at(join(parts, ':'), j),
        parts.len() > 0 ==> join(parts, ':').len() > 0 && join(parts, ':')[0] == parts[0][0],
    decreases parts.len(),
{
    let s = join(parts, ':');
    if parts.len() >= 2 {
        let rest = parts.skip(1);
        assert forall|i: int| 0 <= i < rest.len() implies (#[trigger] rest[i]).len() > 0 by {
            assert(rest[i] == parts[i + 1]);
        }
        assert forall|i: int, j: int|
            0 <= i < rest.len() && 0 <= j < rest[i].len() implies #[trigger] rest[i][j]
            != ':' by {
            assert(rest[i][j] == parts[i + 1][j]);
        }
        lemma_join_no_double_colon(rest);
        let t = join(rest, ':');
        let k = parts[0].len() as int;
        assert(parts[0].len() > 0);
        assert(s[0] == parts[0][0]);
        assert forall|j: int| !double_colon_at(s, j) by {
            if 0 <= j && j + 1 < s.len() {
                if j < k {
                    assert(s[j] == parts[0][j]);
                } else if j == k {
                    assert(s[j + 1] == t[0]);
                    assert(rest[0] == parts[1]);
                    assert(t[0] == parts[1][0]);
                } else {
                    assert(s[j] == t[j - k - 1]);
                    assert(s[j + 1] == t[j - k]);
                    assert(!double_colon_at(t, j - k - 1));
                }
            }
        }
    } else if parts.len() == 1 {
        assert(parts[0].len() > 0);
        assert forall|j: int| !double_colon_at(s, j) by {
            if 0 <= j && j + 1 < s.len() {
                assert(s[j] == parts[0][j]);
            }
        }
    } else {
        assert forall|j: int| !double_colon_at(s, j) by {}
    }
}

/// The texts of segments denote the segments.
proof fn lemma_hex_groups_of_texts(gs: Seq<u16>)
    ensures
        hex_groups(hex_texts(gs)) == Some(gs),
    decreases gs.len(),
{
    let texts = hex_texts(gs);
    if gs.len() > 0 {
        lemma_hex_groups_of_texts(gs.drop_last());
        assert(texts.drop_last() =~= hex_texts(gs.drop_last()));
        lemma_hex_text(gs.last() as nat);
        assert(texts.last() == hex_text(gs.last() as nat));
        assert(gs.drop_last().push(gs.last()) =~= gs);
    } else {
        assert(gs =~= Seq::<u16>::empty());
    }
}

/// A decimal text of at most 255 is an octet.
proof fn lemma_octet_of_text(x: u8)
    ensures
        octet(decimal_text(x as nat)) == Some(x),
{
    lemma_decimal_text(x as nat);
}

/// A dotted quad reads back as the address it was written from.
pub proof fn lemma_ipv4_round_trip(ip: Ipv4)
    ensures
        ipv4_text(ipv4_string(ip)) == Some(ip),
{
    let parts = seq![
        decimal_text(ip.a as nat),
        decimal_text(ip.b as nat),
        decimal_text(ip.c as nat),
        decimal_text(ip.d as nat),
    ];
    lemma_decimal_text(ip.a as nat);
    lemma_decimal_text(ip.b as nat);
    lemma_decimal_text(ip.c as nat);
    lemma_decimal_text(ip.d as nat);
    assert forall|i: int, j: int|
        0 <= i < parts.len() && 0 <= j < parts[i].len() implies #[trigger] parts[i][j] != '.' by {
        assert(is_digit(parts[i][j]));
    }
    lemma_split_join(parts, '.');
    lemma_octet_of_text(ip.a);
    lemma_octet_of_text(ip.b);
    lemma_octet_of_text(ip.c);
    lemma_octet_of_text(ip.d);
}

/// The texts of segments are non-empty and hold hexadecimal digits only.
proof fn lemma_hex_texts_chars(gs: Seq<u16>)
    ensures
        forall|i: int| 0 <= i < gs.len() ==> (#[trigger] hex_texts(gs)[i]).len() > 0,
        forall|i: int, j: int|
            0 <= i < gs.len() && 0 <= j < hex_texts(gs)[i].len() ==> is_hex_digit(
                #[trigger] hex_texts(gs)[i][j],
            ),
{
    assert forall|i: int| 0 <= i < gs.len() implies (#[trigger] hex_texts(gs)[i]).len() > 0
        && forall|j: int|
        0 <= j < hex_texts(gs)[i].len() ==> is_hex_digit(#[trigger] hex_texts(gs)[i][j]) by {
        lemma_hex_text(gs[i] as nat);
    }
}

/// A text of hexadecimal digits only is no dotted quad.
proof fn lemma_hex_is_no_ipv4(s: Seq<char>)
    requires
        forall|j: int| 0 <= j < s.len() ==> is_hex_digit(#[trigger] s[j]),
    ensures
        ipv4_text(s) is None,
{
    lemma_first_index_is(s, '.', s.len() as int);
}

/// An address written out in full reads back as itself.
pub proof fn lemma_ipv6_round_trip(ip: Ipv6)
    ensures
        ipv6_text(ipv6_string(ip)) == Some(ip),
        ipv6_string(ip).len() > 0,
        forall|j: int|
            0 <= j < ipv6_string(ip).len() ==> is_hex_digit(#[trigger] ipv6_string(ip)[j])
                || ipv6_string(ip)[j] == ':',
{
    let gs = ip.segments();
    let parts = hex_texts(gs);
    let s = ipv6_string(ip);
    lemma_hex_texts_chars(gs);
    assert forall|i: int, j: int|
        0 <= i < parts.len() && 0 <= j < parts[i].len() implies #[trigger] parts[i][j] != ':' by {
        assert(is_hex_digit(parts[i][j]));
    }
    lemma_join_no_double_colon(parts);
    lemma_first_double_colon_is(s, s.len() as int);
    lemma_split_join(parts, ':');
    assert(parts.last() == parts[7]);
    lemma_hex_is_no_ipv4(parts.last());
    lemma_hex_groups_of_texts(gs);
    assert(Ipv6::of_segments(gs) == ip);
    lemma_join_chars(parts, ':', |c: char| is_hex_digit(c) || c == ':');
}

/// A dotted quad is not empty, starts with a digit and holds no colon.
proof fn lemma_ipv4_string_chars(ip: Ipv4)
    ensures
        ipv4_string(ip).len() > 0,
        is_digit(ipv4_string(ip)[0]),
        forall|j: int|
            0 <= j < ipv4_string(ip).len() ==> is_digit(#[trigger] ipv4_string(ip)[j])
                || ipv4_string(ip)[j] == '.',
{
    let parts = seq![
        decimal_text(ip.a as nat),
        decimal_text(ip.b as nat),
        decimal_text(ip.c as nat),
        decimal_text(ip.d as nat),
    ];
    lemma_decimal_text(ip.a as nat);
    lemma_decimal_text(ip.b as nat);
    lemma_decimal_text(ip.c as nat);
    lemma_decimal_text(ip.d as nat);
    lemma_join_chars(parts, '.', |c: char| is_digit(c) || c == '.');
    let s = ipv4_string(ip);
    assert(s[0] == parts[0][0]);
}

/// An IPv4 socket address reads back from its text as itself.
proof fn lemma_socket_addr_v4_round_trip(a: SocketAddrV4)
    ensures
        socket_addr_text(socket_addr_string(SocketAddr::V4(a))) == Some(SocketAddr::V4(a)),
{
    let s = socket_addr_string(SocketAddr::V4(a));
    let ip = ipv4_string(a.ip);
    let port = decimal_text(a.port as nat);
    lemma_decimal_text(a.port as nat);
    lemma_ipv4_string_chars(a.ip);
    lemma_ipv4_round_trip(a.ip);
    let k = ip.len() as int;
    assert(s[0] == ip[0]);
    assert forall|j: int| 0 <= j < k implies s[j] != ':' by {
        assert(s[j] == ip[j]);
    }
    assert(s[k] == ':');
    lemma_first_index_is(s, ':', k);
    assert(s.take(k) =~= ip);
    assert(s.skip(k + 1) =~= port);
}

/// An address and its scope read back as themselves, and their text holds
/// no closing bracket.
proof fn lemma_scoped_ipv6_round_trip(ip: Ipv6, scope_id: u32)
    ensures
        scoped_ipv6_text(ipv6_string(ip) + scope_string(scope_id)) == Some((ip, scope_id)),
        forall|j: int|
            0 <= j < (ipv6_string(ip) + scope_string(scope_id)).len() ==> (#[trigger] (ipv6_string(
                ip,
            ) + scope_string(scope_id))[j]) != ']',
{
    let text = ipv6_string(ip);
    let scope = scope_string(scope_id);
    let inner = text + scope;
    let k = text.len() as int;
    lemma_ipv6_round_trip(ip);
    lemma_decimal_text(scope_id as nat);
    assert forall|j: int| 0 <= j < inner.len() implies (#[trigger] inner[j]) != ']' by {
        if j < k {
            assert(inner[j] == text[j]);
        } else {
            assert(inner[j] == scope[j - k]);
            if j - k > 0 {
                assert(scope[j - k] == decimal_text(scope_id as nat)[j - k - 1]);
            }
        }
    }
    assert forall|j: int| 0 <= j < k implies inner[j] != '%' by {
        assert(inner[j] == text[j]);
    }
    if scope_id != 0 {
        assert(inner[k] == '%');
        lemma_first_index_is(inner, '%', k);
        assert(inner.take(k) =~= text);
        assert(inner.skip(k + 1) =~= decimal_text(scope_id as nat));
    } else {
        assert(inner =~= text);
        lemma_first_index_is(inner, '%', k);
        assert(inner.take(k) =~= text);
    }
}

/// An IPv6 socket address reads back from its text as itself.
proof fn lemma_socket_addr_v6_round_trip(a: SocketAddrV6)
    ensures
        socket_addr_text(socket_addr_string(SocketAddr::V6(a))) == Some(SocketAddr::V6(a)),
{
    let s = socket_addr_string(SocketAddr::V6(a));
    let inner = ipv6_string(a.ip) + scope_string(a.scope_id);
    let port = decimal_text(a.port as nat);
    lemma_scoped_ipv6_round_trip(a.ip, a.scope_id);
    lemma_decimal_text(a.port as nat);
    let close = 1 + inner.len() as int;
    assert(s =~= seq!['['] + inner + seq![']', ':'] + port);
    assert(s[0] == '[');
    assert forall|j: int| 0 <= j < close implies s[j] != ']' by {
        if j >= 1 {
            assert(s[j] == inner[j - 1]);
        }
    }
    assert(s[close] == ']');
    assert(s[close + 1] == ':');
    lemma_first_index_is(s, ']', close);
    assert(s.subrange(1, close) =~= inner);
    assert(s.skip(close + 2) =~= port);
}

/// A socket address reads back from its text as itself.
pub proof fn lemma_socket_addr_round_trip(a: SocketAddr)
    ensures
        socket_addr_text(socket_addr_string(a)) == Some(a),
{
    match a {
        SocketAddr::V4(v4) => lemma_socket_addr_v4_round_trip(v4),
        SocketAddr::V6(v6) => lemma_socket_addr_v6_round_trip(v6),
    }
}

/// The texts of the octets `os`, each in base ten.
pub open spec fn decimal_texts(os: Seq<u8>) -> Seq<Seq<char>> {
    Seq::new(os.len(), |i: int| decimal_text(os[i] as nat))
}

fn push_ipv4(out: &mut String, ip: &Ipv4)
    ensures
        final(out)@ == old(out)@ + ipv4_string(*ip),
{
    let octets: Vec<u8> = vec![ip.a, ip.b, ip.c, ip.d];
    assert(decimal_texts(octets@) =~= seq![
        decimal_text(ip.a as nat),
        decimal_text(ip.b as nat),
        decimal_text(ip.c as nat),
        decimal_text(ip.d as nat),
    ]);
    push_decimal(out, octets[0] as u64);
    assert(decimal_texts(octets@.take(1)) =~= seq![decimal_text(octets[0] as nat)]);
    let mut i: usize = 1;
    while i < octets.len()
        invariant
            1 <= i <= octets.len(),
            out@ == old(out)@ + join(decimal_texts(octets@.take(i as int)), '.'),
        decreases octets.len() - i,
    {
        proof {
            reveal_strlit(".");
            let before = decimal_texts(octets@.take(i as int));
            let next = decimal_text(octets[i as int] as nat);
            lemma_join_push(before, '.', next);
            assert(decimal_texts(octets@.take(i + 1)) =~= before.push(next));
        }
        let ghost start = out@;
        out.append(".");
        push_decimal(out, octets[i] as u64);
        assert(out@ =~= start + seq!['.'] + decimal_text(octets[i as int] as nat));
        i = i + 1;
    }
    assert(octets@.take(i as int) =~= octets@);
}

fn push_ipv6(out: &mut String, ip: &Ipv6)
    ensures
        final(out)@ == old(out)@ + ipv6_string(*ip),
{
    let segments: Vec<u16> = vec![ip.s0, ip.s1, ip.s2, ip.s3, ip.s4, ip.s5, ip.s6, ip.s7];
    assert(segments@ =~= ip.segments());
    push_hex(out, segments[0]);
    assert(hex_texts(segments@.take(1)) =~= seq![hex_text(segments[0] as nat)]);
    let mut i: usize = 1;
    while i < segments.len()
        invariant
            1 <= i <= segments.len(),
            out@ == old(out)@ + join(hex_texts(segments@.take(i as int)), ':'),
        decreases segments.len() - i,
    {
        proof {
            reveal_strlit(":");
            let before = hex_texts(segments@.take(i as int));
            let next = hex_text(segments[i as int] as nat);
            lemma_join_push(before, ':', next);
            assert(hex_texts(segments@.take(i + 1)) =~= before.push(next));
        }
        let ghost start = out@;
        out.append(":");
        push_hex(out, segments[i]);
        assert(out@ =~= start + seq![':'] + hex_text(segments[i as int] as nat));
        i = i + 1;
    }
    assert(segments@.take(i as int) =~= segments@);
}

impl SocketAddr {
    /// Writes the address as text.
    pub fn to_text(&self) -> (r: String)
        ensures
            r@ == socket_addr_string(*self),
    {
        let mut out = String::new();
        match self {
            SocketAddr::V4(a) => {
                push_ipv4(&mut out, &a.ip);
                proof {
                    reveal_strlit(":");
                }
                out.append(":");
                push_decimal(&mut out, a.port as u64);
                assert(out@ =~= socket_addr_string(*self));
            },
            SocketAddr::V6(a) => {
                proof {
                    reveal_strlit("[");
                    reveal_strlit("%");
                    reveal_strlit("]:");
                }
                out.append("[");
                push_ipv6(&mut out, &a.ip);
                if a.scope_id != 0 {
                    out.append("%");
                    push_decimal(&mut out, a.scope_id as u64);
                }
                assert(out@ =~= seq!['['] + ipv6_string(a.ip) + scope_string(a.scope_id));
                out.append("]:");
                push_decimal(&mut out, a.port as u64);
                assert(out@ =~= socket_addr_string(*self));
            },
        }
        out
    }
}

} // verus!
