//! What holds of the address grammar: which characters a text of each kind
//! holds, that the kinds exclude each other, and what joined texts denote.

use crate::addr::{
    first_gap, gap_at, groups_of_text, hex_groups, ip_of_text, ipv4_of_text, ipv6_of_text,
    lemma_first_gap, port_of_text, scope_of_text, scoped_ipv6_of_text, segments_of_octets,
    socket_addr_of_text, socket_v4_of_text, socket_v6_of_text, AddressModel,
};
use crate::text::{
    all_chars, all_fields, decimal_of_text, first_index_of, hex_group_of_text, is_digit,
    is_hex_digit, lemma_first_index_is, lemma_first_index_of, lemma_split_chars,
    lemma_split_first, lemma_split_single, octet_of_text, split,
};
use vstd::prelude::*;

verus! {

pub open spec fn is_ipv4_char(c: char) -> bool {
    is_digit(c) || c == '.'
}

pub open spec fn is_ipv6_char(c: char) -> bool {
    is_hex_digit(c) || c == '.' || c == ':'
}

/// A dotted quad holds digits and dots only.
pub proof fn lemma_ipv4_chars(s: Seq<char>)
    requires
        ipv4_of_text(s) is Some,
    ensures
        forall|i: int| 0 <= i < s.len() ==> is_ipv4_char(#[trigger] s[i]),
{
    let p = |c: char| is_ipv4_char(c);
    let f = split(s, '.');
    assert forall|j: int| 0 <= j < f.len() implies all_chars(#[trigger] f[j], p) by {
        assert(octet_of_text(f[j]) is Some);
        assert forall|i: int| 0 <= i < f[j].len() implies p(#[trigger] f[j][i]) by {
            assert(is_digit(f[j][i]));
        }
    }
    lemma_split_chars(s, '.', p);
    assert forall|i: int| 0 <= i < s.len() implies is_ipv4_char(#[trigger] s[i]) by {
        assert(p(s[i]));
    }
}

/// A run of groups holds hexadecimal digits, colons and dots only.
pub proof fn lemma_groups_chars(s: Seq<char>, allow_v4: bool)
    requires
        groups_of_text(s, allow_v4) is Some,
    ensures
        forall|i: int| 0 <= i < s.len() ==> is_ipv6_char(#[trigger] s[i]),
{
    if s.len() > 0 {
        let p = |c: char| is_ipv6_char(c);
        let f = split(s, ':');
        assert forall|j: int| 0 <= j < f.len() implies all_chars(#[trigger] f[j], p) by {
            if j < f.len() - 1 {
                assert(f[j] == f.drop_last()[j]);
                assert(hex_group_of_text(f[j]) is Some);
                assert forall|i: int| 0 <= i < f[j].len() implies p(#[trigger] f[j][i]) by {
                    assert(is_hex_digit(f[j][i]));
                }
            } else if hex_group_of_text(f[j]) is Some {
                assert forall|i: int| 0 <= i < f[j].len() implies p(#[trigger] f[j][i]) by {
                    assert(is_hex_digit(f[j][i]));
                }
            } else {
                lemma_ipv4_chars(f[j]);
                assert forall|i: int| 0 <= i < f[j].len() implies p(#[trigger] f[j][i]) by {
                    assert(is_ipv4_char(f[j][i]));
                }
            }
        }
        lemma_split_chars(s, ':', p);
        assert forall|i: int| 0 <= i < s.len() implies is_ipv6_char(#[trigger] s[i]) by {
            assert(p(s[i]));
        }
    }
}

/// An IPv6 address text holds hexadecimal digits, colons and dots only.
pub proof fn lemma_ipv6_chars(s: Seq<char>)
    requires
        ipv6_of_text(s) is Some,
    ensures
        forall|i: int| 0 <= i < s.len() ==> is_ipv6_char(#[trigger] s[i]),
{
    lemma_first_gap(s);
    let k = first_gap(s);
    if 0 <= k < s.len() {
        let head = s.subrange(0, k);
        let tail = s.subrange(k + 2, s.len() as int);
        assert(gap_at(s, k));
        lemma_groups_chars(head, false);
        lemma_groups_chars(tail, true);
        assert forall|i: int| 0 <= i < s.len() implies is_ipv6_char(#[trigger] s[i]) by {
            if i < k {
                assert(s[i] == head[i]);
            } else if i >= k + 2 {
                assert(s[i] == tail[i - k - 2]);
            }
        }
    } else {
        lemma_groups_chars(s, true);
    }
}

/// A decimal numeral within a bound holds digits only.
pub proof fn lemma_decimal_chars(s: Seq<char>, max: nat)
    requires
        decimal_of_text(s, max) is Some,
    ensures
        forall|i: int| 0 <= i < s.len() ==> is_digit(#[trigger] s[i]),
{
}

/// An IP address text is ASCII.
pub proof fn lemma_ip_text_is_ascii(s: Seq<char>)
    requires
        ip_of_text(s) is Some,
    ensures
        vstd::utf8::is_ascii_chars(s),
{
    if ipv4_of_text(s) is Some {
        lemma_ipv4_chars(s);
        assert forall|i: int| 0 <= i < s.len() implies '\0' <= #[trigger] s[i] <= '\u{7f}' by {
            assert(is_ipv4_char(s[i]));
        }
    } else {
        lemma_ipv6_chars(s);
        assert forall|i: int| 0 <= i < s.len() implies '\0' <= #[trigger] s[i] <= '\u{7f}' by {
            assert(is_ipv6_char(s[i]));
        }
    }
}

/// A scoped IPv6 address text holds hexadecimal digits, colons, dots and a
/// percent sign only.
pub proof fn lemma_scoped_ipv6_chars(s: Seq<char>)
    requires
        scoped_ipv6_of_text(s) is Some,
    ensures
        forall|i: int| 0 <= i < s.len() ==> is_ipv6_char(#[trigger] s[i]) || s[i] == '%',
{
    lemma_first_index_of(s, '%');
    let j = first_index_of(s, '%');
    if 0 <= j < s.len() {
        let ip = s.subrange(0, j);
        let scope = s.subrange(j + 1, s.len() as int);
        lemma_ipv6_chars(ip);
        lemma_decimal_chars(scope, 0xffff_ffff);
        assert forall|i: int| 0 <= i < s.len() implies is_ipv6_char(#[trigger] s[i]) || s[i]
            == '%' by {
            if i < j {
                assert(s[i] == ip[i]);
            } else if i > j {
                assert(s[i] == scope[i - j - 1]);
                assert(is_digit(scope[i - j - 1]));
            }
        }
    } else {
        lemma_ipv6_chars(s);
    }
}

/// A socket address text is ASCII.
pub proof fn lemma_socket_text_is_ascii(s: Seq<char>)
    requires
        socket_addr_of_text(s) is Some,
    ensures
        vstd::utf8::is_ascii_chars(s),
{
    if socket_v4_of_text(s) is Some {
        let k = first_index_of(s, ':');
        let ip = s.subrange(0, k);
        let port = s.subrange(k + 1, s.len() as int);
        lemma_ipv4_chars(ip);
        lemma_decimal_chars(port, 0xffff);
        assert forall|i: int| 0 <= i < s.len() implies '\0' <= #[trigger] s[i] <= '\u{7f}' by {
            lemma_first_index_of(s, ':');
            if i < k {
                assert(s[i] == ip[i]);
                assert(is_ipv4_char(ip[i]));
            } else if i > k {
                assert(s[i] == port[i - k - 1]);
                assert(is_digit(port[i - k - 1]));
            }
        }
    } else {
        let k = first_index_of(s, ']');
        let inner = s.subrange(1, k);
        let port = s.subrange(k + 2, s.len() as int);
        lemma_scoped_ipv6_chars(inner);
        lemma_decimal_chars(port, 0xffff);
        assert forall|i: int| 0 <= i < s.len() implies '\0' <= #[trigger] s[i] <= '\u{7f}' by {
            lemma_first_index_of(s, ']');
            if 1 <= i < k {
                assert(s[i] == inner[i - 1]);
                assert(is_ipv6_char(inner[i - 1]) || inner[i - 1] == '%');
            } else if i >= k + 2 {
                assert(s[i] == port[i - k - 2]);
                assert(is_digit(port[i - k - 2]));
            }
        }
    }
}

/// A text without a dot is no dotted quad.
pub proof fn lemma_dotless_is_no_ipv4(s: Seq<char>)
    requires
        forall|i: int| 0 <= i < s.len() ==> s[i] != '.',
    ensures
        ipv4_of_text(s) is None,
{
    lemma_split_single(s, '.');
}

/// In a run of groups that holds a colon, what stands before the first colon
/// is a hexadecimal group.
pub proof fn lemma_groups_first_field(s: Seq<char>, allow_v4: bool)
    requires
        groups_of_text(s, allow_v4) is Some,
        first_index_of(s, ':') < s.len(),
    ensures
        hex_group_of_text(s.subrange(0, first_index_of(s, ':'))) is Some,
{
    lemma_split_first(s, ':');
    let f = split(s, ':');
    assert(f.drop_last()[0] == f[0]);
}

/// In an IPv6 address text, what stands before the first colon is empty or a
/// hexadecimal group, and the text holds a colon.
pub proof fn lemma_ipv6_first_field(s: Seq<char>)
    requires
        ipv6_of_text(s) is Some,
    ensures
        first_index_of(s, ':') < s.len(),
        first_index_of(s, ':') == 0 || hex_group_of_text(
            s.subrange(0, first_index_of(s, ':')),
        ) is Some,
{
    lemma_first_gap(s);
    lemma_first_index_of(s, ':');
    let g = first_gap(s);
    let k = first_index_of(s, ':');
    if 0 <= g < s.len() {
        assert(gap_at(s, g));
        let head = s.subrange(0, g);
        assert(k <= g);
        if k < g {
            lemma_first_index_is(head, ':', k);
            lemma_groups_first_field(head, false);
            assert(head.subrange(0, k) =~= s.subrange(0, k));
        } else if head.len() > 0 {
            lemma_split_single(head, ':');
            assert(split(head, ':').last() == head);
        }
    } else {
        if k < s.len() {
            lemma_groups_first_field(s, true);
        } else {
            lemma_split_single(s, ':');
            let f = split(s, ':');
            assert(f.drop_last().len() == 0);
            assert(hex_groups(f).len() == 1);
            if ipv4_of_text(f.last()) is Some {
                assert(segments_of_octets(ipv4_of_text(f.last()).unwrap()).len() == 2);
            }
        }
    }
}

/// No IP address text is a socket address text.
pub proof fn lemma_ip_text_is_no_socket(s: Seq<char>)
    requires
        ip_of_text(s) is Some,
    ensures
        socket_addr_of_text(s) is None,
{
    if ipv4_of_text(s) is Some {
        lemma_ipv4_chars(s);
        assert forall|i: int| 0 <= i < s.len() implies s[i] != ':' by {
            assert(is_ipv4_char(s[i]));
        }
        lemma_first_index_is(s, ':', s.len() as int);
        if s.len() > 0 {
            assert(is_ipv4_char(s[0]));
        }
    } else {
        lemma_ipv6_chars(s);
        if s.len() > 0 {
            assert(is_ipv6_char(s[0]));
        }
        lemma_ipv6_first_field(s);
        let k = first_index_of(s, ':');
        let x = s.subrange(0, k);
        assert forall|i: int| 0 <= i < x.len() implies x[i] != '.' by {
            assert(is_hex_digit(x[i]));
        }
        lemma_dotless_is_no_ipv4(x);
    }
}

/// A dotted quad, a colon and a port numeral make the socket address text of
/// that address and port.
pub proof fn lemma_socket_v4_joined(h: Seq<char>, p: Seq<char>)
    requires
        ipv4_of_text(h) is Some,
    ensures
        socket_v4_of_text(h + seq![':'] + p) == match port_of_text(p) {
            Some(port) => Some(AddressModel::V4 { octets: ipv4_of_text(h).unwrap(), port }),
            None => None,
        },
{
    let s = h + seq![':'] + p;
    lemma_ipv4_chars(h);
    assert forall|i: int| 0 <= i < h.len() implies s[i] != ':' by {
        assert(s[i] == h[i]);
        assert(is_ipv4_char(h[i]));
    }
    lemma_first_index_is(s, ':', h.len() as int);
    assert(s.subrange(0, h.len() as int) =~= h);
    assert(s.subrange(h.len() as int + 1, s.len() as int) =~= p);
}

/// An IPv6 address text, a percent sign and a scope numeral make the scoped
/// text of that address and scope.
pub proof fn lemma_scoped_ipv6_joined(h: Seq<char>, scope: Seq<char>)
    requires
        ipv6_of_text(h) is Some,
    ensures
        scoped_ipv6_of_text(h) == Some((ipv6_of_text(h).unwrap(), 0u32)),
        scoped_ipv6_of_text(h + seq!['%'] + scope) == match scope_of_text(scope) {
            Some(id) => Some((ipv6_of_text(h).unwrap(), id)),
            None => None,
        },
{
    let s = h + seq!['%'] + scope;
    lemma_ipv6_chars(h);
    assert forall|i: int| 0 <= i < h.len() implies h[i] != '%' && s[i] != '%' by {
        assert(s[i] == h[i]);
        assert(is_ipv6_char(h[i]));
    }
    lemma_first_index_is(h, '%', h.len() as int);
    lemma_first_index_is(s, '%', h.len() as int);
    assert(s.subrange(0, h.len() as int) =~= h);
    assert(s.subrange(h.len() as int + 1, s.len() as int) =~= scope);
}

/// A scoped IPv6 address text in square brackets, a colon and a port numeral
/// make the socket address text of that address, scope and port.
pub proof fn lemma_socket_v6_joined(inner: Seq<char>, p: Seq<char>)
    requires
        scoped_ipv6_of_text(inner) is Some,
    ensures
        socket_v6_of_text(seq!['['] + inner + seq![']', ':'] + p) == match port_of_text(p) {
            Some(port) => Some(
                AddressModel::V6 {
                    segments: scoped_ipv6_of_text(inner).unwrap().0,
                    port,
                    scope_id: scoped_ipv6_of_text(inner).unwrap().1,
                },
            ),
            None => None,
        },
{
    let s = seq!['['] + inner + seq![']', ':'] + p;
    let k: int = inner.len() as int + 1;
    lemma_scoped_ipv6_chars(inner);
    assert forall|i: int| 0 <= i < k implies s[i] != ']' by {
        if i > 0 {
            assert(s[i] == inner[i - 1]);
            assert(is_ipv6_char(inner[i - 1]) || inner[i - 1] == '%');
        }
    }
    lemma_first_index_is(s, ']', k);
    assert(s.subrange(1, k) =~= inner);
    assert(s.subrange(k + 2, s.len() as int) =~= p);
}

/// A text that starts with an opening bracket is neither an IP address text
/// nor an IPv4 socket address text.
pub proof fn lemma_bracket_start(s: Seq<char>)
    requires
        s.len() > 0,
        s[0] == '[',
    ensures
        ip_of_text(s) is None,
        socket_v4_of_text(s) is None,
{
    if ipv4_of_text(s) is Some {
        lemma_ipv4_chars(s);
        assert(is_ipv4_char(s[0]));
    }
    if ipv6_of_text(s) is Some {
        lemma_ipv6_chars(s);
        assert(is_ipv6_char(s[0]));
    }
    lemma_first_index_of(s, ':');
    let k = first_index_of(s, ':');
    let x = s.subrange(0, k);
    if ipv4_of_text(x) is Some {
        lemma_ipv4_chars(x);
        assert(x.len() > 0) by {
            lemma_dotless_is_no_ipv4(Seq::<char>::empty());
            if x.len() == 0 {
                assert(x =~= Seq::<char>::empty());
            }
        }
        assert(x[0] == s[0]);
        assert(is_ipv4_char(x[0]));
    }
}

} // verus!
