//! Internet addresses and the texts that denote them.

use crate::addr_proofs::{lemma_ip_text_is_ascii, lemma_socket_text_is_ascii};
use crate::text::{
    CLOSE_BRACKET, COLON, DOT, OPEN_BRACKET, PERCENT, ascii_len, decimal_of_text, find_byte, first_index_of, hex_group_of_text, lemma_first_index_of,
    octet_of_text, parse_decimal, parse_hex_group, parse_octet, range_texts, split,
    split_ranges,
};
use vstd::string::*;
use vstd::prelude::*;

verus! {

/// An IPv4 address as four bytes or an IPv6 address as eight 16-bit segments,
/// both in network order.
#[derive(Clone, Copy, Debug, PartialEq, Eq)]
pub enum IpAddress {
    V4([u8; 4]),
    V6([u16; 8]),
}

/// What an `IpAddress` stands for.
pub enum IpModel {
    V4(Seq<u8>),
    V6(Seq<u16>),
}

impl View for IpAddress {
    type V = IpModel;

    open spec fn view(&self) -> IpModel {
        match *self {
            IpAddress::V4(octets) => IpModel::V4(octets@),
            IpAddress::V6(segments) => IpModel::V6(segments@),
        }
    }
}

/// A socket address: an IP address with a port, and for IPv6 the scope that
/// the address is meant in (0 where none was given).
#[derive(Clone, Copy, Debug, PartialEq, Eq)]
pub enum ResolvedAddress {
    V4 { octets: [u8; 4], port: u16 },
    V6 { segments: [u16; 8], port: u16, scope_id: u32 },
}

/// What a `ResolvedAddress` stands for.
pub enum AddressModel {
    V4 { octets: Seq<u8>, port: u16 },
    V6 { segments: Seq<u16>, port: u16, scope_id: u32 },
}

impl View for ResolvedAddress {
    type V = AddressModel;

    open spec fn view(&self) -> AddressModel {
        match *self {
            ResolvedAddress::V4 { octets, port } => AddressModel::V4 { octets: octets@, port },
            ResolvedAddress::V6 { segments, port, scope_id } => AddressModel::V6 {
                segments: segments@,
                port,
                scope_id,
            },
        }
    }
}

/// Why a text was refused: which kind of address it was read as.
#[derive(Clone, Copy, Debug, PartialEq, Eq)]
pub enum AddrParseError {
    Ip,
    Socket,
}

/// What is wrong with a text that was read as this kind of address.
pub open spec fn description_text(err: AddrParseError) -> Seq<char> {
    match err {
        AddrParseError::Ip => "invalid IP address syntax"@,
        AddrParseError::Socket => "invalid socket address syntax"@,
    }
}

impl AddrParseError {
    /// Says what is wrong with the text.
    pub fn description(&self) -> (r: &'static str)
        ensures
            r@ == description_text(*self),
    {
        match self {
            AddrParseError::Ip => "invalid IP address syntax",
            AddrParseError::Socket => "invalid socket address syntax",
        }
    }
}

/// The socket address of `ip` at `port`, with no scope.
pub open spec fn address_with_port(ip: IpModel, port: u16) -> AddressModel {
    match ip {
        IpModel::V4(octets) => AddressModel::V4 { octets, port },
        IpModel::V6(segments) => AddressModel::V6 { segments, port, scope_id: 0 },
    }
}

/// The segment that two bytes of a dotted quad fill, high byte first.
pub open spec fn segment_of_bytes(hi: u8, lo: u8) -> u16 {
    (hi * 256 + lo) as u16
}

/// Four octet numerals joined by dots.
pub open spec fn ipv4_of_text(s: Seq<char>) -> Option<Seq<u8>> {
    let f = split(s, '.');
    if f.len() == 4 && octet_of_text(f[0]) is Some && octet_of_text(f[1]) is Some && octet_of_text(
        f[2],
    ) is Some && octet_of_text(f[3]) is Some {
        Some(
            seq![
                octet_of_text(f[0]).unwrap(),
                octet_of_text(f[1]).unwrap(),
                octet_of_text(f[2]).unwrap(),
                octet_of_text(f[3]).unwrap(),
            ],
        )
    } else {
        None
    }
}

/// Reads `s[from..to]` as a dotted quad.
pub fn parse_ipv4(s: &str, from: usize, to: usize) -> (r: Option<[u8; 4]>)
    requires
        s.is_ascii(),
        from <= to <= s@.len(),
    ensures
        match ipv4_of_text(s@.subrange(from as int, to as int)) {
            Some(o) => r is Some && r.unwrap()@ == o,
            None => r is None,
        },
{
    let ghost text = s@.subrange(from as int, to as int);
    let fields = split_ranges(s, from, to, DOT);
    assert(range_texts(s@, fields@) == split(text, '.'));
    if fields.len() != 4 {
        return None;
    }
    proof {
        let f = range_texts(s@, fields@);
        assert(f[0] == s@.subrange(fields@[0].0 as int, fields@[0].1 as int));
        assert(f[1] == s@.subrange(fields@[1].0 as int, fields@[1].1 as int));
        assert(f[2] == s@.subrange(fields@[2].0 as int, fields@[2].1 as int));
        assert(f[3] == s@.subrange(fields@[3].0 as int, fields@[3].1 as int));
    }
    let a = match parse_octet(s, fields[0].0, fields[0].1) {
        Some(v) => v,
        None => { return None; },
    };
    let b = match parse_octet(s, fields[1].0, fields[1].1) {
        Some(v) => v,
        None => { return None; },
    };
    let c = match parse_octet(s, fields[2].0, fields[2].1) {
        Some(v) => v,
        None => { return None; },
    };
    let d = match parse_octet(s, fields[3].0, fields[3].1) {
        Some(v) => v,
        None => { return None; },
    };
    let octets: [u8; 4] = [a, b, c, d];
    assert(octets@ =~= seq![a, b, c, d]);
    Some(octets)
}

/// Two colons stand at `j` and `j + 1` in `s`.
pub open spec fn gap_at(s: Seq<char>, j: int) -> bool {
    0 <= j && j + 1 < s.len() && s[j] == ':' && s[j + 1] == ':'
}

/// Index of the first of two adjacent colons in `s`, or `s.len()` when no two
/// colons are adjacent.
pub open spec fn first_gap(s: Seq<char>) -> int
    decreases s.len(),
{
    if s.len() < 2 {
        s.len() as int
    } else if s[0] == ':' && s[1] == ':' {
        0
    } else {
        1 + first_gap(s.drop_first())
    }
}

/// Every text of `f` is a hexadecimal group.
pub open spec fn all_hex_groups(f: Seq<Seq<char>>) -> bool {
    forall|i: int| 0 <= i < f.len() ==> hex_group_of_text(#[trigger] f[i]) is Some
}

/// The segments that the hexadecimal groups of `f` denote.
pub open spec fn hex_groups(f: Seq<Seq<char>>) -> Seq<u16> {
    Seq::new(f.len(), |i: int| hex_group_of_text(f[i]).unwrap())
}

/// The two segments that a dotted quad fills at the end of an IPv6 address.
pub open spec fn segments_of_octets(o: Seq<u8>) -> Seq<u16> {
    seq![segment_of_bytes(o[0], o[1]), segment_of_bytes(o[2], o[3])]
}

/// A run of hexadecimal groups joined by single colons. The empty text is the
/// empty run. With `allow_v4`, a dotted quad may stand in the last place, where
/// it fills two segments.
pub open spec fn groups_of_text(s: Seq<char>, allow_v4: bool) -> Option<Seq<u16>> {
    let f = split(s, ':');
    if s.len() == 0 {
        Some(Seq::empty())
    } else if !all_hex_groups(f.drop_last()) {
        None
    } else if hex_group_of_text(f.last()) is Some {
        Some(hex_groups(f))
    } else if allow_v4 && ipv4_of_text(f.last()) is Some {
        Some(hex_groups(f.drop_last()) + segments_of_octets(ipv4_of_text(f.last()).unwrap()))
    } else {
        None
    }
}

/// `n` zero segments.
pub open spec fn zero_segments(n: int) -> Seq<u16> {
    Seq::new(n as nat, |i: int| 0u16)
}

/// An IPv6 address text: eight segments joined by colons, or fewer around one
/// double colon that stands for the zero segments left out (at least one).
/// A dotted quad may fill the last two segments, but not before the double
/// colon.
pub open spec fn ipv6_of_text(s: Seq<char>) -> Option<Seq<u16>> {
    let k = first_gap(s);
    if 0 <= k < s.len() {
        let head = groups_of_text(s.subrange(0, k), false);
        let tail = groups_of_text(s.subrange(k + 2, s.len() as int), true);
        if head is Some && tail is Some && head.unwrap().len() + tail.unwrap().len() <= 7 {
            Some(
                head.unwrap() + zero_segments(8 - head.unwrap().len() - tail.unwrap().len())
                    + tail.unwrap(),
            )
        } else {
            None
        }
    } else {
        let all = groups_of_text(s, true);
        if all is Some && all.unwrap().len() == 8 {
            all
        } else {
            None
        }
    }
}

/// `first_gap` is the least index at which two colons are adjacent.
pub proof fn lemma_first_gap(s: Seq<char>)
    ensures
        0 <= first_gap(s) <= s.len(),
        first_gap(s) < s.len() ==> gap_at(s, first_gap(s)),
        forall|j: int| 0 <= j < first_gap(s) ==> !#[trigger] gap_at(s, j),
    decreases s.len(),
{
    if s.len() < 2 {
    } else if s[0] == ':' && s[1] == ':' {
    } else {
        let t = s.drop_first();
        lemma_first_gap(t);
        assert forall|j: int| 0 <= j < first_gap(s) implies !#[trigger] gap_at(s, j) by {
            if j > 0 && j + 1 < s.len() {
                assert(s[j] == t[j - 1]);
                assert(s[j + 1] == t[j]);
                assert(!gap_at(t, j - 1));
            }
        }
        if first_gap(s) < s.len() {
            assert(gap_at(t, first_gap(t)));
            assert(s[first_gap(s)] == t[first_gap(t)]);
            assert(s[first_gap(s) + 1] == t[first_gap(t) + 1]);
        }
    }
}

/// An index at which two colons are adjacent, or the length, with no such
/// index before it is the first gap.
pub proof fn lemma_first_gap_is(s: Seq<char>, k: int)
    requires
        0 <= k <= s.len(),
        k < s.len() ==> gap_at(s, k),
        forall|j: int| 0 <= j < k ==> !#[trigger] gap_at(s, j),
    ensures
        first_gap(s) == k,
{
    lemma_first_gap(s);
    let r = first_gap(s);
    if r < k {
        assert(gap_at(s, r));
    } else if k < r {
        assert(gap_at(s, k));
    }
}

/// Position of the first double colon at or after `from`, or `to` when there
/// is none.
pub fn find_gap(s: &str, from: usize, to: usize) -> (k: usize)
    requires
        s.is_ascii(),
        from <= to <= s@.len(),
    ensures
        from <= k <= to,
        k - from == first_gap(s@.subrange(from as int, to as int)),
{
    let mut i: usize = from;
    let mut found = false;
    while i < to && !found
        invariant
            s.is_ascii(),
            from <= i <= to <= s@.len(),
            forall|j: int|
                0 <= j < i - from ==> !#[trigger] gap_at(s@.subrange(from as int, to as int), j),
            found ==> gap_at(s@.subrange(from as int, to as int), i - from),
        decreases to - i + (if found { 0int } else { 1int }),
    {
        if i + 1 < to && s.get_ascii(i) == COLON && s.get_ascii(i + 1) == COLON {
            found = true;
        } else {
            i += 1;
        }
    }
    proof {
        lemma_first_gap_is(s@.subrange(from as int, to as int), i - from);
    }
    i
}

/// Reads `s[from..to]` as a run of groups joined by single colons.
pub fn parse_groups(s: &str, from: usize, to: usize, allow_v4: bool) -> (r: Option<Vec<u16>>)
    requires
        s.is_ascii(),
        from <= to <= s@.len(),
    ensures
        match groups_of_text(s@.subrange(from as int, to as int), allow_v4) {
            Some(g) => r is Some && r.unwrap()@ == g,
            None => r is None,
        },
{
    let ghost text = s@.subrange(from as int, to as int);
    let mut groups: Vec<u16> = Vec::new();
    if from == to {
        return Some(groups);
    }
    let fields = split_ranges(s, from, to, COLON);
    let ghost f = split(text, ':');
    assert(f == range_texts(s@, fields@));
    let n = fields.len();
    let mut i: usize = 0;
    while i < n - 1
        invariant
            s.is_ascii(),
            n == fields@.len(),
            n >= 1,
            i <= n - 1,
            from < to,
            text == s@.subrange(from as int, to as int),
            f == split(text, ':'),
            f == range_texts(s@, fields@),
            forall|j: int|
                0 <= j < fields@.len() ==> from <= (#[trigger] fields@[j]).0 <= fields@[j].1 <= to,
            to <= s@.len(),
            all_hex_groups(f.subrange(0, i as int)),
            groups@ == hex_groups(f.subrange(0, i as int)),
        decreases n - i,
    {
        let field = fields[i];
        assert(f[i as int] == s@.subrange(field.0 as int, field.1 as int));
        match parse_hex_group(s, field.0, field.1) {
            Some(g) => {
                groups.push(g);
            },
            None => {
                assert(f.drop_last()[i as int] == f[i as int]);
                return None;
            },
        }
        proof {
            let p = f.subrange(0, i + 1);
            assert(p[i as int] == f[i as int]);
            assert forall|j: int| 0 <= j < p.len() implies hex_group_of_text(
                #[trigger] p[j],
            ) is Some by {
                if j < i {
                    assert(p[j] == f.subrange(0, i as int)[j]);
                }
            }
            assert(groups@ =~= hex_groups(p)) by {
                assert forall|j: int| 0 <= j < p.len() implies groups@[j] == hex_groups(p)[j] by {
                    if j < i {
                        assert(p[j] == f.subrange(0, i as int)[j]);
                        assert(groups@[j] == hex_groups(f.subrange(0, i as int))[j]);
                    }
                }
            }
        }
        i += 1;
    }
    assert(f.subrange(0, i as int) =~= f.drop_last());
    let last = fields[n - 1];
    assert(f.last() == s@.subrange(last.0 as int, last.1 as int));
    match parse_hex_group(s, last.0, last.1) {
        Some(g) => {
            groups.push(g);
            assert(groups@ =~= hex_groups(f));
            Some(groups)
        },
        None => {
            if !allow_v4 {
                return None;
            }
            match parse_ipv4(s, last.0, last.1) {
                Some(o) => {
                    let hi: u16 = (o[0] as u16) * 256 + (o[1] as u16);
                    let lo: u16 = (o[2] as u16) * 256 + (o[3] as u16);
                    groups.push(hi);
                    groups.push(lo);
                    assert(groups@ =~= hex_groups(f.drop_last()) + segments_of_octets(o@));
                    Some(groups)
                },
                None => None,
            }
        },
    }
}

/// Lays `head` at the front and `tail` at the back of eight segments, with
/// zeros between them.
pub fn fill_segments(head: &Vec<u16>, tail: &Vec<u16>) -> (r: [u16; 8])
    requires
        head@.len() + tail@.len() <= 8,
    ensures
        r@ == head@ + zero_segments(8 - head@.len() - tail@.len()) + tail@,
{
    let mut segments: [u16; 8] = [0u16;8];
    let h = head.len();
    let t = tail.len();
    let mut i: usize = 0;
    while i < h
        invariant
            h == head@.len(),
            t == tail@.len(),
            h + t <= 8,
            i <= h,
            forall|j: int| 0 <= j < i ==> segments@[j] == head@[j],
            forall|j: int| i <= j < 8 ==> segments@[j] == 0,
        decreases h - i,
    {
        segments[i] = head[i];
        i += 1;
    }
    let mut m: usize = 0;
    while m < t
        invariant
            h == head@.len(),
            t == tail@.len(),
            h + t <= 8,
            m <= t,
            forall|j: int| 0 <= j < h ==> segments@[j] == head@[j],
            forall|j: int| h <= j < 8 - t ==> segments@[j] == 0,
            forall|j: int| 0 <= j < m ==> segments@[8 - t + j] == tail@[j],
        decreases t - m,
    {
        segments[8 - t + m] = tail[m];
        m += 1;
    }
    assert(segments@ =~= head@ + zero_segments(8 - head@.len() - tail@.len()) + tail@);
    segments
}

/// Reads `s[from..to]` as an IPv6 address.
pub fn parse_ipv6(s: &str, from: usize, to: usize) -> (r: Option<[u16; 8]>)
    requires
        s.is_ascii(),
        from <= to <= s@.len(),
    ensures
        match ipv6_of_text(s@.subrange(from as int, to as int)) {
            Some(g) => r is Some && r.unwrap()@ == g,
            None => r is None,
        },
{
    let ghost text = s@.subrange(from as int, to as int);
    let k = find_gap(s, from, to);
    proof {
        lemma_first_gap(text);
    }
    if k < to {
        assert(text.subrange(0, k - from) =~= s@.subrange(from as int, k as int));
        assert(text.subrange(k - from + 2, text.len() as int) =~= s@.subrange(k + 2, to as int));
        let head = match parse_groups(s, from, k, false) {
            Some(g) => g,
            None => { return None; },
        };
        let tail = match parse_groups(s, k + 2, to, true) {
            Some(g) => g,
            None => { return None; },
        };
        if head.len() > 7 || tail.len() > 7 - head.len() {
            return None;
        }
        Some(fill_segments(&head, &tail))
    } else {
        let all = match parse_groups(s, from, to, true) {
            Some(g) => g,
            None => { return None; },
        };
        if all.len() != 8 {
            return None;
        }
        let none: Vec<u16> = Vec::new();
        let segments = fill_segments(&all, &none);
        assert(segments@ =~= all@);
        Some(segments)
    }
}

/// A port numeral: decimal digits, leading zeros allowed, at most 65535.
pub open spec fn port_of_text(s: Seq<char>) -> Option<u16> {
    match decimal_of_text(s, 0xffff) {
        Some(v) => Some(v as u16),
        None => None,
    }
}

/// A scope numeral: decimal digits, leading zeros allowed, at most 2^32 - 1.
pub open spec fn scope_of_text(s: Seq<char>) -> Option<u32> {
    match decimal_of_text(s, 0xffff_ffff) {
        Some(v) => Some(v as u32),
        None => None,
    }
}

/// An IP address text: a dotted quad or an IPv6 address.
pub open spec fn ip_of_text(s: Seq<char>) -> Option<IpModel> {
    if ipv4_of_text(s) is Some {
        Some(IpModel::V4(ipv4_of_text(s).unwrap()))
    } else if ipv6_of_text(s) is Some {
        Some(IpModel::V6(ipv6_of_text(s).unwrap()))
    } else {
        None
    }
}

/// A dotted quad, a colon and a port numeral.
pub open spec fn socket_v4_of_text(s: Seq<char>) -> Option<AddressModel> {
    let k = first_index_of(s, ':');
    if 0 <= k < s.len() && ipv4_of_text(s.subrange(0, k)) is Some && port_of_text(
        s.subrange(k + 1, s.len() as int),
    ) is Some {
        Some(
            AddressModel::V4 {
                octets: ipv4_of_text(s.subrange(0, k)).unwrap(),
                port: port_of_text(s.subrange(k + 1, s.len() as int)).unwrap(),
            },
        )
    } else {
        None
    }
}

/// An IPv6 address, after which a percent sign and a scope numeral may
/// follow. Without them the scope is 0.
pub open spec fn scoped_ipv6_of_text(s: Seq<char>) -> Option<(Seq<u16>, u32)> {
    let j = first_index_of(s, '%');
    if 0 <= j < s.len() {
        if ipv6_of_text(s.subrange(0, j)) is Some && scope_of_text(
            s.subrange(j + 1, s.len() as int),
        ) is Some {
            Some(
                (
                    ipv6_of_text(s.subrange(0, j)).unwrap(),
                    scope_of_text(s.subrange(j + 1, s.len() as int)).unwrap(),
                ),
            )
        } else {
            None
        }
    } else if ipv6_of_text(s) is Some {
        Some((ipv6_of_text(s).unwrap(), 0u32))
    } else {
        None
    }
}

/// A scoped IPv6 address in square brackets, a colon and a port numeral.
pub open spec fn socket_v6_of_text(s: Seq<char>) -> Option<AddressModel> {
    let k = first_index_of(s, ']');
    if s.len() > 0 && s[0] == '[' && 1 <= k && k + 1 < s.len() && s[k + 1] == ':'
        && scoped_ipv6_of_text(s.subrange(1, k)) is Some && port_of_text(
        s.subrange(k + 2, s.len() as int),
    ) is Some {
        Some(
            AddressModel::V6 {
                segments: scoped_ipv6_of_text(s.subrange(1, k)).unwrap().0,
                port: port_of_text(s.subrange(k + 2, s.len() as int)).unwrap(),
                scope_id: scoped_ipv6_of_text(s.subrange(1, k)).unwrap().1,
            },
        )
    } else {
        None
    }
}

/// A socket address text, in the IPv4 or in the bracketed IPv6 form.
pub open spec fn socket_addr_of_text(s: Seq<char>) -> Option<AddressModel> {
    if socket_v4_of_text(s) is Some {
        socket_v4_of_text(s)
    } else {
        socket_v6_of_text(s)
    }
}

/// Reads `s[from..to]` as an IPv6 address with an optional scope.
pub fn parse_scoped_ipv6(s: &str, from: usize, to: usize) -> (r: Option<([u16; 8], u32)>)
    requires
        s.is_ascii(),
        from <= to <= s@.len(),
    ensures
        match scoped_ipv6_of_text(s@.subrange(from as int, to as int)) {
            Some(a) => r is Some && r.unwrap().0@ == a.0 && r.unwrap().1 == a.1,
            None => r is None,
        },
{
    let ghost text = s@.subrange(from as int, to as int);
    let j = find_byte(s, from, to, PERCENT);
    if j < to {
        assert(text.subrange(0, j - from) =~= s@.subrange(from as int, j as int));
        assert(text.subrange(j - from + 1, text.len() as int) =~= s@.subrange(j + 1, to as int));
        let segments = match parse_ipv6(s, from, j) {
            Some(g) => g,
            None => { return None; },
        };
        match parse_decimal(s, j + 1, to, 0xffff_ffff) {
            Some(scope) => Some((segments, scope)),
            None => None,
        }
    } else {
        match parse_ipv6(s, from, to) {
            Some(g) => Some((g, 0)),
            None => None,
        }
    }
}

/// Reads an ASCII text as a dotted quad, a colon and a port.
pub fn parse_socket_v4(s: &str) -> (r: Option<ResolvedAddress>)
    requires
        s.is_ascii(),
    ensures
        match socket_v4_of_text(s@) {
            Some(a) => r is Some && r.unwrap()@ == a,
            None => r is None,
        },
{
    let n = ascii_len(s);
    assert(s@.subrange(0, n as int) =~= s@);
    let k = find_byte(s, 0, n, COLON);
    if k == n {
        return None;
    }
    let octets = match parse_ipv4(s, 0, k) {
        Some(o) => o,
        None => { return None; },
    };
    match parse_decimal(s, k + 1, n, 0xffff) {
        Some(port) => Some(ResolvedAddress::V4 { octets, port: port as u16 }),
        None => None,
    }
}

/// Reads an ASCII text as a bracketed IPv6 address, a colon and a port.
pub fn parse_socket_v6(s: &str) -> (r: Option<ResolvedAddress>)
    requires
        s.is_ascii(),
    ensures
        match socket_v6_of_text(s@) {
            Some(a) => r is Some && r.unwrap()@ == a,
            None => r is None,
        },
{
    let n = ascii_len(s);
    assert(s@.subrange(0, n as int) =~= s@);
    if n == 0 || s.get_ascii(0) != OPEN_BRACKET {
        return None;
    }
    let k = find_byte(s, 0, n, CLOSE_BRACKET);
    proof {
        lemma_first_index_of(s@, ']');
    }
    if k >= n - 1 || s.get_ascii(k + 1) != COLON {
        return None;
    }
    let (segments, scope_id) = match parse_scoped_ipv6(s, 1, k) {
        Some(a) => a,
        None => { return None; },
    };
    match parse_decimal(s, k + 2, n, 0xffff) {
        Some(port) => Some(ResolvedAddress::V6 { segments, port: port as u16, scope_id }),
        None => None,
    }
}

impl IpAddress {
    /// Reads a text as an IP address.
    pub fn parse(s: &str) -> (r: Result<IpAddress, AddrParseError>)
        ensures
            match ip_of_text(s@) {
                Some(ip) => r is Ok && r.unwrap()@ == ip,
                None => r == Err::<IpAddress, AddrParseError>(AddrParseError::Ip),
            },
    {
        if !s.is_ascii() {
            proof {
                if ip_of_text(s@) is Some {
                    lemma_ip_text_is_ascii(s@);
                }
            }
            return Err(AddrParseError::Ip);
        }
        let n = ascii_len(s);
        assert(s@.subrange(0, n as int) =~= s@);
        match parse_ipv4(s, 0, n) {
            Some(octets) => Ok(IpAddress::V4(octets)),
            None => match parse_ipv6(s, 0, n) {
                Some(segments) => Ok(IpAddress::V6(segments)),
                None => Err(AddrParseError::Ip),
            },
        }
    }
}

impl ResolvedAddress {
    /// The socket address of `ip` at `port`, with no scope.
    pub fn new(ip: IpAddress, port: u16) -> (r: ResolvedAddress)
        ensures
            r@ == address_with_port(ip@, port),
    {
        match ip {
            IpAddress::V4(octets) => ResolvedAddress::V4 { octets, port },
            IpAddress::V6(segments) => ResolvedAddress::V6 { segments, port, scope_id: 0 },
        }
    }

    /// Reads a text as a socket address.
    pub fn parse(s: &str) -> (r: Result<ResolvedAddress, AddrParseError>)
        ensures
            match socket_addr_of_text(s@) {
                Some(a) => r is Ok && r.unwrap()@ == a,
                None => r == Err::<ResolvedAddress, AddrParseError>(AddrParseError::Socket),
            },
    {
        if !s.is_ascii() {
            proof {
                if socket_addr_of_text(s@) is Some {
                    lemma_socket_text_is_ascii(s@);
                }
            }
            return Err(AddrParseError::Socket);
        }
        match parse_socket_v4(s) {
            Some(a) => Ok(a),
            None => match parse_socket_v6(s) {
                Some(a) => Ok(a),
                None => Err(AddrParseError::Socket),
            },
        }
    }
}

} // verus!
