use vstd::prelude::*;

use crate::error::ParseError;
use crate::strutil::{chars_of, str_eq};
use crate::xml::XmlElement;

verus! {

/// The value of a hexadecimal digit, in either case.
pub open spec fn hex_val(c: char) -> Option<u64> {
    if c == '0' {
        Some(0)
    } else if c == '1' {
        Some(1)
    } else if c == '2' {
        Some(2)
    } else if c == '3' {
        Some(3)
    } else if c == '4' {
        Some(4)
    } else if c == '5' {
        Some(5)
    } else if c == '6' {
        Some(6)
    } else if c == '7' {
        Some(7)
    } else if c == '8' {
        Some(8)
    } else if c == '9' {
        Some(9)
    } else if c == 'a' || c == 'A' {
        Some(10)
    } else if c == 'b' || c == 'B' {
        Some(11)
    } else if c == 'c' || c == 'C' {
        Some(12)
    } else if c == 'd' || c == 'D' {
        Some(13)
    } else if c == 'e' || c == 'E' {
        Some(14)
    } else if c == 'f' || c == 'F' {
        Some(15)
    } else {
        None
    }
}

/// Whether every character of `s` is a hexadecimal digit.
pub open spec fn all_hex(s: Seq<char>) -> bool {
    forall|i: int| 0 <= i < s.len() ==> hex_val(s[i]) is Some
}

/// The number denoted by the hexadecimal digits of `s`; characters that are
/// no digits count as zero, which `all_hex` rules out where it matters.
pub open spec fn hex_nat(s: Seq<char>) -> nat
    decreases s.len(),
{
    if s.len() == 0 {
        0
    } else {
        hex_nat(s.drop_last()) * 16 + (match hex_val(s.last()) {
            Some(d) => d as nat,
            None => 0,
        })
    }
}

/// `s` without a leading `0x` or `0X`, if it carries one.
pub open spec fn strip_hex_prefix(s: Seq<char>) -> Seq<char> {
    if s.len() >= 2 && s[0] == '0' && (s[1] == 'x' || s[1] == 'X') {
        s.skip(2)
    } else {
        s
    }
}

/// What a hexadecimal attribute value denotes: an optional `0x` prefix, then
/// one or more hexadecimal digits, denoting a number that fits in 64 bits.
pub open spec fn s_parse_hex(s: Seq<char>) -> Option<u64> {
    let d = strip_hex_prefix(s);
    if d.len() > 0 && all_hex(d) && hex_nat(d) <= u64::MAX {
        Some(hex_nat(d) as u64)
    } else {
        None
    }
}

/// A longer digit string never denotes a smaller number.
proof fn lemma_hex_nat_prefix(s: Seq<char>, i: int)
    requires
        0 <= i <= s.len(),
    ensures
        hex_nat(s) >= hex_nat(s.take(i)),
    decreases s.len(),
{
    if i < s.len() {
        assert(hex_nat(s) >= hex_nat(s.drop_last()));
        assert(s.drop_last().take(i) =~= s.take(i));
        lemma_hex_nat_prefix(s.drop_last(), i);
    } else {
        assert(s.take(i) =~= s);
    }
}

fn hex_val_x(c: char) -> (r: Option<u64>)
    ensures
        r == hex_val(c),
{
    if c == '0' {
        Some(0)
    } else if c == '1' {
        Some(1)
    } else if c == '2' {
        Some(2)
    } else if c == '3' {
        Some(3)
    } else if c == '4' {
        Some(4)
    } else if c == '5' {
        Some(5)
    } else if c == '6' {
        Some(6)
    } else if c == '7' {
        Some(7)
    } else if c == '8' {
        Some(8)
    } else if c == '9' {
        Some(9)
    } else if c == 'a' || c == 'A' {
        Some(10)
    } else if c == 'b' || c == 'B' {
        Some(11)
    } else if c == 'c' || c == 'C' {
        Some(12)
    } else if c == 'd' || c == 'D' {
        Some(13)
    } else if c == 'e' || c == 'E' {
        Some(14)
    } else if c == 'f' || c == 'F' {
        Some(15)
    } else {
        None
    }
}

/// Parse a hexadecimal number with an optional `0x` prefix.
pub fn parse_hex(s: &str) -> (r: Option<u64>)
    ensures
        r == s_parse_hex(s@),
{
    let v = chars_of(s);
    let start: usize = if v.len() >= 2 && v[0] == '0' && (v[1] == 'x' || v[1] == 'X') {
        2
    } else {
        0
    };
    let ghost d = strip_hex_prefix(s@);
    proof {
        assert(d =~= v@.skip(start as int));
    }
    let n = v.len();
    if n == start {
        return None;
    }
    let mut acc: u64 = 0;
    let mut i: usize = start;
    proof {
        assert(d.take(0) =~= Seq::<char>::empty());
    }
    while i < n
        invariant
            start <= i <= n,
            n == v.len(),
            v@ == s@,
            d == strip_hex_prefix(s@),
            d == v@.skip(start as int),
            all_hex(d.take(i - start)),
            acc == hex_nat(d.take(i - start)),
        decreases n - i,
    {
        proof {
            assert(d.take(i - start + 1).drop_last() =~= d.take(i - start));
            assert(d.take(i - start + 1).last() == v@[i as int]);
        }
        match hex_val_x(v[i]) {
            None => {
                assert(hex_val(d[i - start]) is None);
                return None;
            },
            Some(dg) => {
                let wide: u128 = (acc as u128) * 16 + (dg as u128);
                proof {
                    assert(hex_nat(d.take(i - start + 1)) == acc * 16 + dg);
                }
                if wide > u64::MAX as u128 {
                    proof {
                        lemma_hex_nat_prefix(d, i - start + 1);
                    }
                    return None;
                }
                acc = wide as u64;
            },
        }
        i += 1;
    }
    proof {
        assert(d.take(n - start) =~= d);
    }
    Some(acc)
}

/// The value of a decimal digit.
pub open spec fn dec_val(c: char) -> Option<u64> {
    if c == '0' {
        Some(0)
    } else if c == '1' {
        Some(1)
    } else if c == '2' {
        Some(2)
    } else if c == '3' {
        Some(3)
    } else if c == '4' {
        Some(4)
    } else if c == '5' {
        Some(5)
    } else if c == '6' {
        Some(6)
    } else if c == '7' {
        Some(7)
    } else if c == '8' {
        Some(8)
    } else if c == '9' {
        Some(9)
    } else {
        None
    }
}

/// Whether every character of `s` is a decimal digit.
pub open spec fn all_dec(s: Seq<char>) -> bool {
    forall|i: int| 0 <= i < s.len() ==> dec_val(s[i]) is Some
}

/// The number denoted by the decimal digits of `s`.
pub open spec fn dec_nat(s: Seq<char>) -> nat
    decreases s.len(),
{
    if s.len() == 0 {
        0
    } else {
        dec_nat(s.drop_last()) * 10 + (match dec_val(s.last()) {
            Some(d) => d as nat,
            None => 0,
        })
    }
}

/// What a processor-unit count denotes: one or more decimal digits,
/// denoting a number that fits in 8 bits.
pub open spec fn s_parse_u8(s: Seq<char>) -> Option<u8> {
    if s.len() > 0 && all_dec(s) && dec_nat(s) <= u8::MAX {
        Some(dec_nat(s) as u8)
    } else {
        None
    }
}

proof fn lemma_dec_nat_prefix(s: Seq<char>, i: int)
    requires
        0 <= i <= s.len(),
    ensures
        dec_nat(s) >= dec_nat(s.take(i)),
    decreases s.len(),
{
    if i < s.len() {
        assert(dec_nat(s) >= dec_nat(s.drop_last()));
        assert(s.drop_last().take(i) =~= s.take(i));
        lemma_dec_nat_prefix(s.drop_last(), i);
    } else {
        assert(s.take(i) =~= s);
    }
}

fn dec_val_x(c: char) -> (r: Option<u64>)
    ensures
        r == dec_val(c),
{
    if c == '0' {
        Some(0)
    } else if c == '1' {
        Some(1)
    } else if c == '2' {
        Some(2)
    } else if c == '3' {
        Some(3)
    } else if c == '4' {
        Some(4)
    } else if c == '5' {
        Some(5)
    } else if c == '6' {
        Some(6)
    } else if c == '7' {
        Some(7)
    } else if c == '8' {
        Some(8)
    } else if c == '9' {
        Some(9)
    } else {
        None
    }
}

/// Parse a decimal count of processor units.
pub fn parse_u8(s: &str) -> (r: Option<u8>)
    ensures
        r == s_parse_u8(s@),
{
    let v = chars_of(s);
    let n = v.len();
    if n == 0 {
        return None;
    }
    let mut acc: u32 = 0;
    let mut i: usize = 0;
    proof {
        assert(v@.take(0) =~= Seq::<char>::empty());
    }
    while i < n
        invariant
            0 <= i <= n,
            n == v.len(),
            v@ == s@,
            all_dec(s@.take(i as int)),
            acc == dec_nat(s@.take(i as int)),
            acc <= u8::MAX,
        decreases n - i,
    {
        proof {
            assert(s@.take(i + 1).drop_last() =~= s@.take(i as int));
            assert(s@.take(i + 1).last() == s@[i as int]);
        }
        match dec_val_x(v[i]) {
            None => {
                assert(dec_val(s@[i as int]) is None);
                return None;
            },
            Some(dg) => {
                let next: u32 = acc * 10 + (dg as u32);
                proof {
                    assert(dec_nat(s@.take(i + 1)) == acc * 10 + dg);
                }
                if next > u8::MAX as u32 {
                    proof {
                        lemma_dec_nat_prefix(s@, i + 1);
                    }
                    return None;
                }
                acc = next;
            },
        }
        i += 1;
    }
    proof {
        assert(s@.take(n as int) =~= s@);
    }
    Some(acc as u8)
}

/// What a boolean attribute value denotes: `true` and `1` hold, `false` and
/// `0` do not, anything else is rejected.
pub open spec fn s_number_bool(s: Seq<char>) -> Option<bool> {
    if s == "true"@ || s == "1"@ {
        Some(true)
    } else if s == "false"@ || s == "0"@ {
        Some(false)
    } else {
        None
    }
}

/// Parse a boolean attribute value.
pub fn parse_number_bool(s: &str) -> (r: Option<bool>)
    ensures
        r == s_number_bool(s@),
{
    if str_eq(s, "true") || str_eq(s, "1") {
        Some(true)
    } else if str_eq(s, "false") || str_eq(s, "0") {
        Some(false)
    } else {
        None
    }
}

/// A required string attribute; absence is an error that names the context.
pub fn attr_map(e: &XmlElement, key: &str, ctx: &str) -> (r: Result<String, ParseError>)
    ensures
        match e.spec_attr(key@) {
            Some(v) => r matches Ok(s) && s@ == v,
            None => r matches Err(ParseError::MissingAttr(c, k)) && c@ == ctx@ && k@ == key@,
        },
{
    match e.attr(key) {
        Some(v) => Ok(v.clone()),
        None => Err(ParseError::MissingAttr(ctx.to_owned(), key.to_owned())),
    }
}

/// A required hexadecimal attribute; absence and malformed values are
/// errors that name the context.
pub fn attr_parse_hex(e: &XmlElement, key: &str, ctx: &str) -> (r: Result<u64, ParseError>)
    ensures
        match e.spec_attr(key@) {
            Some(v) => match s_parse_hex(v) {
                Some(n) => r == Ok::<u64, ParseError>(n),
                None => r matches Err(ParseError::InvalidAttr(c, k, val)) && c@ == ctx@ && k@
                    == key@ && val@ == v,
            },
            None => r matches Err(ParseError::MissingAttr(c, k)) && c@ == ctx@ && k@ == key@,
        },
{
    match e.attr(key) {
        Some(v) => match parse_hex(v.as_str()) {
            Some(n) => Ok(n),
            None => Err(
                ParseError::InvalidAttr(ctx.to_owned(), key.to_owned(), v.clone()),
            ),
        },
        None => Err(ParseError::MissingAttr(ctx.to_owned(), key.to_owned())),
    }
}

/// What an optional boolean attribute denotes once absence and malformed
/// values fall back to `false`.
pub open spec fn s_bool_attr_or_false(e: XmlElement, key: Seq<char>) -> bool {
    match e.spec_attr(key) {
        Some(v) => match s_number_bool(v) {
            Some(b) => b,
            None => false,
        },
        None => false,
    }
}

/// An optional boolean attribute: absent or malformed values count as `false`.
pub fn attr_bool_or_false(e: &XmlElement, key: &str) -> (r: bool)
    ensures
        r == s_bool_attr_or_false(*e, key@),
{
    match e.attr(key) {
        Some(v) => match parse_number_bool(v.as_str()) {
            Some(b) => b,
            None => false,
        },
        None => false,
    }
}

} // verus!
