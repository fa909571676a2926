//! Scanning primitives over ASCII text: delimiter search, field splitting and
//! bounded numerals.

use vstd::prelude::*;
use vstd::string::*;

verus! {

/// The ASCII codes of the characters that the address grammar names.
pub const DOT: u8 = 46;

pub const COLON: u8 = 58;

pub const PERCENT: u8 = 37;

pub const OPEN_BRACKET: u8 = 91;

pub const CLOSE_BRACKET: u8 = 93;

pub const DIGIT_0: u8 = 48;

pub const DIGIT_9: u8 = 57;

pub const LOWER_A: u8 = 97;

pub const LOWER_F: u8 = 102;

pub const UPPER_A: u8 = 65;

pub const UPPER_F: u8 = 70;

/// Index of the first occurrence of `c` in `s`, or `s.len()` when `c` does not
/// occur.
pub open spec fn first_index_of(s: Seq<char>, c: char) -> int
    decreases s.len(),
{
    if s.len() == 0 || s[0] == c {
        0
    } else {
        1 + first_index_of(s.drop_first(), c)
    }
}

/// The fields of `s` between occurrences of `sep`. A text without `sep` is one
/// field; `n` separators give `n + 1` fields, some of which may be empty.
pub open spec fn split(s: Seq<char>, sep: char) -> Seq<Seq<char>>
    decreases s.len(),
{
    let k = first_index_of(s, sep);
    if 0 <= k < s.len() {
        seq![s.subrange(0, k)] + split(s.subrange(k + 1, s.len() as int), sep)
    } else {
        seq![s]
    }
}

pub open spec fn is_digit(c: char) -> bool {
    '0' <= c && c <= '9'
}

pub open spec fn is_hex_digit(c: char) -> bool {
    is_digit(c) || ('a' <= c && c <= 'f') || ('A' <= c && c <= 'F')
}

pub open spec fn digit_value(c: char) -> nat {
    if is_digit(c) {
        (c as u32 - '0' as u32) as nat
    } else {
        0
    }
}

pub open spec fn hex_digit_value(c: char) -> nat {
    if is_digit(c) {
        (c as u32 - '0' as u32) as nat
    } else if 'a' <= c && c <= 'f' {
        (c as u32 - 'a' as u32 + 10) as nat
    } else if 'A' <= c && c <= 'F' {
        (c as u32 - 'A' as u32 + 10) as nat
    } else {
        0
    }
}

pub open spec fn all_digits(s: Seq<char>) -> bool {
    forall|i: int| 0 <= i < s.len() ==> is_digit(#[trigger] s[i])
}

pub open spec fn all_hex_digits(s: Seq<char>) -> bool {
    forall|i: int| 0 <= i < s.len() ==> is_hex_digit(#[trigger] s[i])
}

/// The number that `s` denotes in base ten, most significant digit first.
pub open spec fn decimal_value(s: Seq<char>) -> nat
    decreases s.len(),
{
    if s.len() == 0 {
        0
    } else {
        decimal_value(s.drop_last()) * 10 + digit_value(s.last())
    }
}

/// The number that `s` denotes in base sixteen, most significant digit first.
pub open spec fn hex_value(s: Seq<char>) -> nat
    decreases s.len(),
{
    if s.len() == 0 {
        0
    } else {
        hex_value(s.drop_last()) * 16 + hex_digit_value(s.last())
    }
}

/// A decimal numeral of any length, leading zeros allowed, that denotes at
/// most `max`.
pub open spec fn decimal_of_text(s: Seq<char>, max: nat) -> Option<nat> {
    if s.len() > 0 && all_digits(s) && decimal_value(s) <= max {
        Some(decimal_value(s))
    } else {
        None
    }
}

/// One to four hexadecimal digits of either case.
pub open spec fn hex_group_of_text(s: Seq<char>) -> Option<u16> {
    if 1 <= s.len() <= 4 && all_hex_digits(s) {
        Some(hex_value(s) as u16)
    } else {
        None
    }
}

/// One to three decimal digits that denote at most 255, with no leading zero
/// before another digit.
pub open spec fn octet_of_text(s: Seq<char>) -> Option<u8> {
    if 1 <= s.len() <= 3 && all_digits(s) && (s.len() > 1 ==> s[0] != '0') && decimal_value(s)
        <= 255 {
        Some(decimal_value(s) as u8)
    } else {
        None
    }
}

/// The texts that a list of index pairs cuts out of `s`.
pub open spec fn range_texts(s: Seq<char>, ranges: Seq<(usize, usize)>) -> Seq<Seq<char>> {
    Seq::new(ranges.len(), |j: int| s.subrange(ranges[j].0 as int, ranges[j].1 as int))
}

/// `first_index_of` is the least index that holds `c`.
pub proof fn lemma_first_index_of(s: Seq<char>, c: char)
    ensures
        0 <= first_index_of(s, c) <= s.len(),
        first_index_of(s, c) < s.len() ==> s[first_index_of(s, c)] == c,
        forall|j: int| 0 <= j < first_index_of(s, c) ==> s[j] != c,
    decreases s.len(),
{
    if s.len() == 0 || s[0] == c {
    } else {
        let t = s.drop_first();
        lemma_first_index_of(t, c);
        assert forall|j: int| 0 <= j < first_index_of(s, c) implies s[j] != c by {
            if j > 0 {
                assert(s[j] == t[j - 1]);
            }
        }
    }
}

/// An index that holds `c`, or the length, with no `c` before it is the first
/// index of `c`.
pub proof fn lemma_first_index_is(s: Seq<char>, c: char, k: int)
    requires
        0 <= k <= s.len(),
        k < s.len() ==> s[k] == c,
        forall|j: int| 0 <= j < k ==> s[j] != c,
    ensures
        first_index_of(s, c) == k,
{
    lemma_first_index_of(s, c);
}

/// A numeral denotes at least what any of its prefixes denotes.
pub proof fn lemma_decimal_prefix(s: Seq<char>, n: int)
    requires
        0 <= n <= s.len(),
    ensures
        decimal_value(s.subrange(0, n)) <= decimal_value(s),
    decreases s.len() - n,
{
    if n == s.len() {
        assert(s.subrange(0, n) =~= s);
    } else {
        lemma_decimal_prefix(s.drop_last(), n);
        assert(s.drop_last().subrange(0, n) =~= s.subrange(0, n));
    }
}

/// The number of characters of an ASCII text.
pub fn ascii_len(s: &str) -> (n: usize)
    requires
        s.is_ascii(),
    ensures
        n == s@.len(),
{
    proof {
        is_ascii_spec_bytes(s);
    }
    s.as_bytes().len()
}

/// Position of the first `sep` at or after `from`, or `to` when there is none.
pub fn find_byte(s: &str, from: usize, to: usize, sep: u8) -> (k: usize)
    requires
        s.is_ascii(),
        from <= to <= s@.len(),
        sep <= 127,
    ensures
        from <= k <= to,
        k - from == first_index_of(s@.subrange(from as int, to as int), sep as char),
{
    let mut i: usize = from;
    let mut found = false;
    while i < to && !found
        invariant
            s.is_ascii(),
            from <= i <= to <= s@.len(),
            sep <= 127,
            forall|j: int| from <= j < i ==> s@[j] != sep as char,
            found ==> i < to && s@[i as int] == sep as char,
        decreases to - i + (if found { 0int } else { 1int }),
    {
        if s.get_ascii(i) == sep {
            found = true;
        } else {
            i += 1;
        }
    }
    proof {
        let text = s@.subrange(from as int, to as int);
        lemma_first_index_is(text, sep as char, i - from);
    }
    i
}

/// The bounds of the fields of `s[from..to]` between occurrences of `sep`.
pub fn split_ranges(s: &str, from: usize, to: usize, sep: u8) -> (fields: Vec<(usize, usize)>)
    requires
        s.is_ascii(),
        from <= to <= s@.len(),
        sep <= 127,
    ensures
        range_texts(s@, fields@) == split(s@.subrange(from as int, to as int), sep as char),
        forall|j: int|
            0 <= j < fields@.len() ==> from <= (#[trigger] fields@[j]).0 <= fields@[j].1 <= to,
{
    let ghost text = s@.subrange(from as int, to as int);
    let mut fields: Vec<(usize, usize)> = Vec::new();
    let mut start: usize = from;
    loop
        invariant_except_break
            split(text, sep as char) == range_texts(s@, fields@) + split(
                s@.subrange(start as int, to as int),
                sep as char,
            ),
        invariant
            s.is_ascii(),
            from <= start <= to <= s@.len(),
            sep <= 127,
            text == s@.subrange(from as int, to as int),
            forall|j: int|
                0 <= j < fields@.len() ==> from <= (#[trigger] fields@[j]).0 <= fields@[j].1 <= to,
        ensures
            range_texts(s@, fields@) == split(text, sep as char),
            forall|j: int|
                0 <= j < fields@.len() ==> from <= (#[trigger] fields@[j]).0 <= fields@[j].1 <= to,
        decreases to - start,
    {
        let k = find_byte(s, start, to, sep);
        let ghost rest = s@.subrange(start as int, to as int);
        let ghost before = range_texts(s@, fields@);
        fields.push((start, k));
        proof {
            assert(rest.subrange(0, k - start) =~= s@.subrange(start as int, k as int));
            assert(range_texts(s@, fields@) =~= before + seq![s@.subrange(start as int, k as int)]);
        }
        if k == to {
            proof {
                assert(rest.subrange(0, k - start) =~= rest);
                assert(split(rest, sep as char) =~= seq![rest]);
            }
            break ;
        }
        proof {
            assert(rest.subrange(k - start + 1, rest.len() as int) =~= s@.subrange(
                k + 1,
                to as int,
            ));
            assert(split(rest, sep as char) =~= seq![rest.subrange(0, k - start)] + split(
                s@.subrange(k + 1, to as int),
                sep as char,
            ));
        }
        start = k + 1;
    }
    fields
}

/// Reads `s[from..to]` as a decimal numeral that denotes at most `max`.
pub fn parse_decimal(s: &str, from: usize, to: usize, max: u32) -> (r: Option<u32>)
    requires
        s.is_ascii(),
        from <= to <= s@.len(),
    ensures
        match decimal_of_text(s@.subrange(from as int, to as int), max as nat) {
            Some(v) => r == Some(v as u32),
            None => r is None,
        },
{
    let ghost text = s@.subrange(from as int, to as int);
    if from == to {
        return None;
    }
    let mut acc: u64 = 0;
    let mut i: usize = from;
    while i < to
        invariant
            s.is_ascii(),
            from <= i <= to <= s@.len(),
            text == s@.subrange(from as int, to as int),
            all_digits(text.subrange(0, i - from)),
            acc == decimal_value(text.subrange(0, i - from)),
            acc <= max,
        decreases to - i,
    {
        let b = s.get_ascii(i);
        if b < DIGIT_0 || b > DIGIT_9 {
            proof {
                assert(text[i - from] == s@[i as int]);
                assert(!is_digit(text[i - from]));
            }
            return None;
        }
        let next: u64 = acc * 10 + (b - DIGIT_0) as u64;
        proof {
            let p = text.subrange(0, i - from + 1);
            assert(p.drop_last() =~= text.subrange(0, i - from));
            assert(p.last() == s@[i as int]);
            assert(digit_value(p.last()) == b - DIGIT_0);
            assert(next == decimal_value(p));
            assert(all_digits(p)) by {
                assert forall|j: int| 0 <= j < p.len() implies is_digit(#[trigger] p[j]) by {
                    if j < i - from {
                        assert(p[j] == text.subrange(0, i - from)[j]);
                    }
                }
            }
        }
        if next > max as u64 {
            proof {
                lemma_decimal_prefix(text, i - from + 1);
            }
            return None;
        }
        acc = next;
        i += 1;
    }
    proof {
        assert(text.subrange(0, i - from) =~= text);
    }
    Some(acc as u32)
}

/// Reads `s[from..to]` as the decimal numeral of one byte of a dotted quad.
pub fn parse_octet(s: &str, from: usize, to: usize) -> (r: Option<u8>)
    requires
        s.is_ascii(),
        from <= to <= s@.len(),
    ensures
        r == octet_of_text(s@.subrange(from as int, to as int)),
{
    let ghost text = s@.subrange(from as int, to as int);
    if to - from < 1 || to - from > 3 {
        return None;
    }
    if to - from > 1 && s.get_ascii(from) == DIGIT_0 {
        proof {
            assert(text[0] == s@[from as int]);
        }
        return None;
    }
    proof {
        if to - from > 1 {
            assert(text[0] == s@[from as int]);
        }
    }
    match parse_decimal(s, from, to, 255) {
        Some(v) => Some(v as u8),
        None => None,
    }
}

/// Reads `s[from..to]` as one group of a colon-separated address.
pub fn parse_hex_group(s: &str, from: usize, to: usize) -> (r: Option<u16>)
    requires
        s.is_ascii(),
        from <= to <= s@.len(),
    ensures
        r == hex_group_of_text(s@.subrange(from as int, to as int)),
{
    let ghost text = s@.subrange(from as int, to as int);
    if to - from < 1 || to - from > 4 {
        return None;
    }
    let mut acc: u32 = 0;
    let mut i: usize = from;
    while i < to
        invariant
            s.is_ascii(),
            from <= i <= to <= s@.len(),
            to - from <= 4,
            text == s@.subrange(from as int, to as int),
            all_hex_digits(text.subrange(0, i - from)),
            acc == hex_value(text.subrange(0, i - from)),
            i - from == 0 ==> acc == 0,
            i - from == 1 ==> acc < 0x10,
            i - from == 2 ==> acc < 0x100,
            i - from == 3 ==> acc < 0x1000,
            i - from == 4 ==> acc < 0x10000,
        decreases to - i,
    {
        let b = s.get_ascii(i);
        let d: u32 = if DIGIT_0 <= b && b <= DIGIT_9 {
            (b - DIGIT_0) as u32
        } else if LOWER_A <= b && b <= LOWER_F {
            (b - LOWER_A) as u32 + 10
        } else if UPPER_A <= b && b <= UPPER_F {
            (b - UPPER_A) as u32 + 10
        } else {
            proof {
                assert(text[i - from] == s@[i as int]);
                assert(!is_hex_digit(text[i - from]));
            }
            return None;
        };
        proof {
            let p = text.subrange(0, i - from + 1);
            assert(p.drop_last() =~= text.subrange(0, i - from));
            assert(p.last() == s@[i as int]);
            assert(hex_digit_value(p.last()) == d);
            assert(is_hex_digit(p.last()));
            assert(all_hex_digits(p)) by {
                assert forall|j: int| 0 <= j < p.len() implies is_hex_digit(#[trigger] p[j]) by {
                    if j < i - from {
                        assert(p[j] == text.subrange(0, i - from)[j]);
                    }
                }
            }
        }
        acc = acc * 16 + d;
        i += 1;
    }
    proof {
        assert(text.subrange(0, i - from) =~= text);
    }
    Some(acc as u16)
}

/// Every character of `s` satisfies `p`.
pub open spec fn all_chars(s: Seq<char>, p: spec_fn(char) -> bool) -> bool {
    forall|i: int| 0 <= i < s.len() ==> p(#[trigger] s[i])
}

/// Every character of every text of `f` satisfies `p`.
pub open spec fn all_fields(f: Seq<Seq<char>>, p: spec_fn(char) -> bool) -> bool {
    forall|j: int| 0 <= j < f.len() ==> all_chars(#[trigger] f[j], p)
}

/// A text without the separator is its own single field.
pub proof fn lemma_split_single(s: Seq<char>, sep: char)
    requires
        forall|i: int| 0 <= i < s.len() ==> s[i] != sep,
    ensures
        split(s, sep) == seq![s],
{
    lemma_first_index_is(s, sep, s.len() as int);
}

/// A text that holds the separator splits into at least two fields, the first
/// of which ends at the first separator.
pub proof fn lemma_split_first(s: Seq<char>, sep: char)
    requires
        first_index_of(s, sep) < s.len(),
    ensures
        split(s, sep).len() >= 2,
        split(s, sep)[0] == s.subrange(0, first_index_of(s, sep)),
{
    lemma_first_index_of(s, sep);
    let k = first_index_of(s, sep);
    let rest = s.subrange(k + 1, s.len() as int);
    lemma_split_nonempty(rest, sep);
}

/// Splitting always yields a field.
pub proof fn lemma_split_nonempty(s: Seq<char>, sep: char)
    ensures
        split(s, sep).len() >= 1,
{
    lemma_first_index_of(s, sep);
}

/// What holds of the separator and of every character of every field holds of
/// every character of the text.
pub proof fn lemma_split_chars(s: Seq<char>, sep: char, p: spec_fn(char) -> bool)
    requires
        all_fields(split(s, sep), p),
        p(sep),
    ensures
        all_chars(s, p),
    decreases s.len(),
{
    lemma_first_index_of(s, sep);
    let k = first_index_of(s, sep);
    let f = split(s, sep);
    if 0 <= k < s.len() {
        let first = s.subrange(0, k);
        let rest = s.subrange(k + 1, s.len() as int);
        assert(f[0] == first);
        assert(all_chars(first, p));
        assert forall|j: int| 0 <= j < split(rest, sep).len() implies all_chars(
            #[trigger] split(rest, sep)[j],
            p,
        ) by {
            assert(split(rest, sep)[j] == f[j + 1]);
        }
        lemma_split_chars(rest, sep, p);
        assert forall|i: int| 0 <= i < s.len() implies p(#[trigger] s[i]) by {
            if i < k {
                assert(s[i] == first[i]);
            } else if i > k {
                assert(s[i] == rest[i - k - 1]);
            }
        }
    } else {
        assert(f[0] == s);
    }
}

} // verus!
