//! Byte-level vocabulary of HTTP/1.x: token and value bytes, ASCII case
//! folding, and the decimal and hexadecimal notations used on the wire.

use vstd::prelude::*;

verus! {

pub const CR: u8 = 13;
pub const LF: u8 = 10;

/// The two-byte line ending of HTTP/1.x.
pub open spec fn crlf() -> Seq<u8> {
    seq![CR, LF]
}

/// Whether a byte may appear in a header name: the HTTP `tchar` set.
pub open spec fn is_name_byte(b: u8) -> bool {
    ||| ('A' as u8) <= b <= ('Z' as u8)
    ||| ('a' as u8) <= b <= ('z' as u8)
    ||| ('0' as u8) <= b <= ('9' as u8)
    ||| b == ('!' as u8)
    ||| b == ('#' as u8)
    ||| b == ('$' as u8)
    ||| b == ('%' as u8)
    ||| b == ('&' as u8)
    ||| b == (39 as u8)  // apostrophe
    ||| b == ('*' as u8)
    ||| b == ('+' as u8)
    ||| b == ('-' as u8)
    ||| b == ('.' as u8)
    ||| b == ('^' as u8)
    ||| b == ('_' as u8)
    ||| b == ('`' as u8)
    ||| b == ('|' as u8)
    ||| b == ('~' as u8)
}

/// Whether a byte may appear in a header value: horizontal tab, the visible
/// ASCII range together with the space, or any byte above 0x7f. CR, LF, NUL
/// and the other control bytes are excluded.
pub open spec fn is_value_byte(b: u8) -> bool {
    b == 9 || (32 <= b && b <= 126) || b >= 128
}

/// A well-formed header name: nonempty, token bytes only.
pub open spec fn valid_header_name(s: Seq<u8>) -> bool {
    s.len() > 0 && forall|i: int| 0 <= i < s.len() ==> is_name_byte(#[trigger] s[i])
}

/// A well-formed header value: value bytes only.
pub open spec fn valid_header_value(s: Seq<u8>) -> bool {
    forall|i: int| 0 <= i < s.len() ==> is_value_byte(#[trigger] s[i])
}

/// Whether a byte may appear in a header name.
pub fn name_byte(b: u8) -> (r: bool)
    ensures
        r == is_name_byte(b),
{
    (('A' as u8) <= b && b <= ('Z' as u8)) || (('a' as u8) <= b && b <= ('z' as u8)) || (('0'
        as u8) <= b && b <= ('9' as u8)) || b == ('!' as u8) || b == ('#' as u8) || b == ('$'
        as u8) || b == ('%' as u8) || b == ('&' as u8) || b == (39 as u8) || b == ('*' as u8) || b
        == ('+' as u8) || b == ('-' as u8) || b == ('.' as u8) || b == ('^' as u8) || b == ('_'
        as u8) || b == ('`' as u8) || b == ('|' as u8) || b == ('~' as u8)
}

/// Whether a byte may appear in a header value.
pub fn value_byte(b: u8) -> (r: bool)
    ensures
        r == is_value_byte(b),
{
    b == 9 || (32 <= b && b <= 126) || b >= 128
}

/// ASCII lower-casing of one byte.
pub open spec fn lower(b: u8) -> u8 {
    if ('A' as u8) <= b <= ('Z' as u8) {
        (b + 32) as u8
    } else {
        b
    }
}

/// ASCII lower-casing of a byte sequence.
pub open spec fn lower_seq(s: Seq<u8>) -> Seq<u8> {
    s.map_values(|b: u8| lower(b))
}

/// ASCII lower-casing of one byte.
pub fn lower_byte(b: u8) -> (r: u8)
    ensures
        r == lower(b),
{
    if ('A' as u8) <= b && b <= ('Z' as u8) {
        b + 32
    } else {
        b
    }
}

/// ASCII-case-insensitive equality of a byte slice against a reference name.
pub fn eq_ignore_case(a: &[u8], b: &[u8]) -> (r: bool)
    ensures
        r == (lower_seq(a@) == lower_seq(b@)),
{
    if a.len() != b.len() {
        proof {
            assert(lower_seq(a@).len() != lower_seq(b@).len());
        }
        return false;
    }
    let mut i: usize = 0;
    while i < a.len()
        invariant
            0 <= i <= a.len(),
            a.len() == b.len(),
            forall|j: int| 0 <= j < i ==> lower(a@[j]) == lower(b@[j]),
        decreases a.len() - i,
    {
        if lower_byte(a[i]) != lower_byte(b[i]) {
            proof {
                assert(lower_seq(a@)[i as int] != lower_seq(b@)[i as int]);
            }
            return false;
        }
        i += 1;
    }
    proof {
        assert(lower_seq(a@) =~= lower_seq(b@));
    }
    true
}

/// The byte spelling one hexadecimal digit, lower case.
pub open spec fn hex_digit(d: u8) -> u8
    recommends
        d < 16,
{
    if d < 10 {
        (('0' as u8) + d) as u8
    } else {
        (('a' as u8) + (d - 10)) as u8
    }
}

/// The lowercase hexadecimal notation of `n`, without leading zeros
/// (a single `0` for zero itself).
pub open spec fn hex_rep(n: nat) -> Seq<u8>
    decreases n,
{
    if n < 16 {
        seq![hex_digit(n as u8)]
    } else {
        hex_rep(n / 16) + seq![hex_digit((n % 16) as u8)]
    }
}

/// The byte spelling one decimal digit.
pub open spec fn dec_digit(d: u8) -> u8
    recommends
        d < 10,
{
    (('0' as u8) + d) as u8
}

/// The decimal notation of `n`, without leading zeros
/// (a single `0` for zero itself).
pub open spec fn dec_rep(n: nat) -> Seq<u8>
    decreases n,
{
    if n < 10 {
        seq![dec_digit(n as u8)]
    } else {
        dec_rep(n / 10) + seq![dec_digit((n % 10) as u8)]
    }
}

/// Appends the lowercase hexadecimal notation of `n` to `v`.
pub fn push_hex(v: &mut Vec<u8>, n: u64)
    ensures
        final(v)@ == old(v)@ + hex_rep(n as nat),
    decreases n,
{
    if n >= 16 {
        push_hex(v, n / 16);
    }
    let d: u8 = (n % 16) as u8;
    if d < 10 {
        v.push(('0' as u8) + d);
    } else {
        v.push(('a' as u8) + (d - 10));
    }
    proof {
        if n < 16 {
            assert(v@ =~= old(v)@ + hex_rep(n as nat));
        } else {
            assert(v@ =~= old(v)@ + hex_rep(n as nat));
        }
    }
}

/// Appends the decimal notation of `n` to `v`.
pub fn push_dec(v: &mut Vec<u8>, n: u64)
    ensures
        final(v)@ == old(v)@ + dec_rep(n as nat),
    decreases n,
{
    if n >= 10 {
        push_dec(v, n / 10);
    }
    v.push(('0' as u8) + (n % 10) as u8);
    proof {
        assert(v@ =~= old(v)@ + dec_rep(n as nat));
    }
}

/// Whether the bytes spell a decimal number: nonempty, digits only.
pub open spec fn all_digits(s: Seq<u8>) -> bool {
    s.len() > 0 && forall|i: int|
        0 <= i < s.len() ==> ('0' as u8) <= #[trigger] s[i] <= ('9' as u8)
}

/// The number the digit bytes spell.
pub open spec fn dec_val(s: Seq<u8>) -> nat
    decreases s.len(),
{
    if s.len() == 0 {
        0
    } else {
        dec_val(s.drop_last()) * 10 + (s.last() - ('0' as u8)) as nat
    }
}

proof fn lemma_dec_val_append(s: Seq<u8>, i: int)
    requires
        0 <= i < s.len(),
        ('0' as u8) <= s[i] <= ('9' as u8),
    ensures
        dec_val(s.take(i + 1)) == dec_val(s.take(i)) * 10 + (s[i] - ('0' as u8)),
{
    assert(s.take(i + 1).drop_last() =~= s.take(i));
    assert(s.take(i + 1).last() == s[i]);
}

proof fn lemma_dec_val_grows(s: Seq<u8>, i: int)
    requires
        0 <= i <= s.len(),
        all_digits(s),
    ensures
        dec_val(s) >= dec_val(s.take(i)),
    decreases s.len() - i,
{
    if i < s.len() {
        lemma_dec_val_append(s, i);
        assert(dec_val(s.take(i + 1)) >= dec_val(s.take(i))) by (nonlinear_arith)
            requires
                dec_val(s.take(i + 1)) == dec_val(s.take(i)) * 10 + (s[i] - ('0' as u8)),
                s[i] >= ('0' as u8),
        ;
        lemma_dec_val_grows(s, i + 1);
    } else {
        assert(s.take(i) =~= s);
    }
}

/// Reads a decimal number from the bytes. Returns the value exactly when the
/// bytes are all digits (at least one) and the value fits in a `u64`.
pub fn parse_dec(s: &[u8]) -> (r: Option<u64>)
    ensures
        r matches Some(n) <==> all_digits(s@) && dec_val(s@) <= u64::MAX,
        r matches Some(n) ==> n as nat == dec_val(s@),
{
    if s.len() == 0 {
        return None;
    }
    let mut acc: u64 = 0;
    let mut i: usize = 0;
    while i < s.len()
        invariant
            0 <= i <= s.len(),
            s@.len() > 0,
            acc as nat == dec_val(s@.take(i as int)),
            forall|j: int| 0 <= j < i ==> ('0' as u8) <= #[trigger] s@[j] <= ('9' as u8),
        decreases s.len() - i,
    {
        let b = s[i];
        if b < ('0' as u8) || b > ('9' as u8) {
            return None;
        }
        let d: u8 = b - ('0' as u8);
        let stepped = match acc.checked_mul(10) {
            Some(m) => m.checked_add(d as u64),
            None => None,
        };
        match stepped {
            Some(next) => {
                proof {
                    lemma_dec_val_append(s@, i as int);
                }
                acc = next;
            },
            None => {
                proof {
                    lemma_dec_val_append(s@, i as int);
                    assert(dec_val(s@.take(i as int + 1)) > u64::MAX) by (nonlinear_arith)
                        requires
                            dec_val(s@.take(i as int + 1)) == dec_val(s@.take(i as int)) * 10 + (
                            s@[i as int] - ('0' as u8)),
                            dec_val(s@.take(i as int)) == acc as nat,
                            acc as nat * 10 + (s@[i as int] - ('0' as u8)) > u64::MAX,
                    ;
                    if all_digits(s@) {
                        lemma_dec_val_grows(s@, i as int + 1);
                    }
                }
                return None;
            },
        }
        i += 1;
    }
    proof {
        assert(s@.take(i as int) =~= s@);
    }
    Some(acc)
}

} // verus!
