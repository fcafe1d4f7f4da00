//! Reading unsigned decimal numbers the way std's `FromStr` for unsigned
//! integers does: an optional leading `+`, then one or more ASCII digits, and
//! a value that fits the target type.

use vstd::prelude::*;

use crate::chars::{dec, dec_bytes, digit, digit_byte};

verus! {

pub open spec fn is_digit_byte(b: u8) -> bool {
    48 <= b <= 57
}

pub open spec fn all_digit_bytes(s: Seq<u8>) -> bool {
    forall|i: int| 0 <= i < s.len() ==> is_digit_byte(#[trigger] s[i])
}

/// The number written by the ASCII digits `s`, most significant first.
pub open spec fn bytes_value(s: Seq<u8>) -> nat
    decreases s.len(),
{
    if s.len() == 0 {
        0
    } else {
        bytes_value(s.drop_last()) * 10 + (s.last() - 48) as nat
    }
}

/// What std's `FromStr` gives for an unsigned type whose largest value is
/// `max`, read from the bytes of `s` (`None` for every error).
pub open spec fn unsigned_from_bytes(s: Seq<u8>, max: nat) -> Option<nat> {
    let d = if s.len() > 0 && s[0] == 43 { s.drop_first() } else { s };
    if d.len() > 0 && all_digit_bytes(d) && bytes_value(d) <= max {
        Some(bytes_value(d))
    } else {
        None
    }
}

/// Reads `s[lo..hi]` as an unsigned number no larger than `max`.
pub fn parse_unsigned_bytes(s: &[u8], lo: usize, hi: usize, max: u64) -> (r: Option<u64>)
    requires
        lo <= hi <= s@.len(),
    ensures
        r matches Some(v) ==> unsigned_from_bytes(s@.subrange(lo as int, hi as int), max as nat) == Some(v as nat),
        r is None ==> unsigned_from_bytes(s@.subrange(lo as int, hi as int), max as nat) is None,
{
    let ghost whole = s@.subrange(lo as int, hi as int);
    let ghost dspec = if whole.len() > 0 && whole[0] == 43 { whole.drop_first() } else { whole };
    let mut start = lo;
    if lo < hi && s[lo] == 43u8 {
        start = lo + 1;
        assert(whole[0] == s@[lo as int]);
    }
    assert(dspec =~= s@.subrange(start as int, hi as int));
    if start >= hi {
        return None;
    }
    let ghost d = s@.subrange(start as int, hi as int);
    let mut value: u64 = 0;
    let mut over = false;
    let mut i = start;
    assert(s@.subrange(start as int, start as int) =~= Seq::<u8>::empty());
    while i < hi
        invariant
            lo <= start <= i <= hi <= s@.len(),
            d == s@.subrange(start as int, hi as int),
            whole == s@.subrange(lo as int, hi as int),
            dspec == d,
            dspec == (if whole.len() > 0 && whole[0] == 43 { whole.drop_first() } else { whole }),
            all_digit_bytes(s@.subrange(start as int, i as int)),
            !over ==> value as nat == bytes_value(s@.subrange(start as int, i as int)) && value <= max,
            over ==> bytes_value(s@.subrange(start as int, i as int)) > max,
        decreases hi - i,
    {
        let b = s[i];
        if b < 48u8 || b > 57u8 {
            assert(d[i - start] == b);
            assert(!all_digit_bytes(d));
            return None;
        }
        let ghost pre = s@.subrange(start as int, i as int);
        let ghost next = s@.subrange(start as int, i + 1);
        assert(next.drop_last() =~= pre);
        assert(next.last() == b);
        let dg = (b - 48u8) as u64;
        if !over {
            if dg > max || value > (max - dg) / 10 {
                over = true;
                assert(value * 10 + dg > max) by (nonlinear_arith)
                    requires
                        dg > max || value > (max - dg) / 10,
                ;
            } else {
                assert(value * 10 + dg <= max) by (nonlinear_arith)
                    requires
                        value <= (max - dg) / 10,
                        dg <= max,
                ;
                value = value * 10 + dg;
            }
        }
        assert(all_digit_bytes(next)) by {
            assert forall|j: int| 0 <= j < next.len() implies is_digit_byte(#[trigger] next[j]) by {
                if j < pre.len() {
                    assert(next[j] == pre[j]);
                }
            }
        }
        i = i + 1;
    }
    assert(s@.subrange(start as int, i as int) =~= d);
    if over {
        None
    } else {
        Some(value)
    }
}

/// Digits of `dec_bytes(n)` read back give `n`.
pub proof fn lemma_dec_bytes_value(n: nat)
    ensures
        dec_bytes(n).len() >= 1,
        all_digit_bytes(dec_bytes(n)),
        bytes_value(dec_bytes(n)) == n,
        dec_bytes(n)[0] != 43,
    decreases n,
{
    if n < 10 {
        let s = dec_bytes(n);
        assert(s.drop_last() =~= Seq::<u8>::empty());
        assert(bytes_value(s.drop_last()) == 0);
        assert(s.last() as int == 48 + n);
    } else {
        lemma_dec_bytes_value(n / 10);
        let p = dec_bytes(n / 10);
        let s = dec_bytes(n);
        assert(s == p.push(digit_byte(n % 10)));
        assert(s.drop_last() =~= p);
        assert(s.last() as int == 48 + n % 10);
        assert((n / 10) * 10 + n % 10 == n);
        assert(bytes_value(s) == bytes_value(s.drop_last()) * 10 + (s.last() - 48) as nat);
        assert forall|i: int| 0 <= i < s.len() implies is_digit_byte(#[trigger] s[i]) by {
            if i < p.len() {
                assert(s[i] == p[i]);
            }
        }
        assert(s[0] == p[0]);
    }
}

/// `n` written in decimal parses back as `n` whenever it fits.
pub proof fn lemma_dec_bytes_parses(n: nat, max: nat)
    requires
        n <= max,
    ensures
        unsigned_from_bytes(dec_bytes(n), max) == Some(n),
{
    lemma_dec_bytes_value(n);
}

pub open spec fn is_digit_char(c: char) -> bool {
    '0' <= c <= '9'
}

pub open spec fn all_digit_chars(s: Seq<char>) -> bool {
    forall|i: int| 0 <= i < s.len() ==> is_digit_char(#[trigger] s[i])
}

/// The number written by the decimal digits `s`, most significant first.
pub open spec fn chars_value(s: Seq<char>) -> nat
    decreases s.len(),
{
    if s.len() == 0 {
        0
    } else {
        chars_value(s.drop_last()) * 10 + (s.last() as nat - 48) as nat
    }
}

/// What std's `FromStr` gives for an unsigned type whose largest value is
/// `max`, read from the text `s` (`None` for every error).
pub open spec fn unsigned_from_chars(s: Seq<char>, max: nat) -> Option<nat> {
    let d = if s.len() > 0 && s[0] == '+' { s.drop_first() } else { s };
    if d.len() > 0 && all_digit_chars(d) && chars_value(d) <= max {
        Some(chars_value(d))
    } else {
        None
    }
}

/// Reads the text `s` as an unsigned number no larger than `max`.
pub fn parse_unsigned_chars(s: &Vec<char>, max: u64) -> (r: Option<u64>)
    ensures
        r matches Some(v) ==> unsigned_from_chars(s@, max as nat) == Some(v as nat),
        r is None ==> unsigned_from_chars(s@, max as nat) is None,
{
    let hi = s.len();
    let ghost dspec = if s@.len() > 0 && s@[0] == '+' { s@.drop_first() } else { s@ };
    let mut start: usize = 0;
    if hi > 0 && s[0] == '+' {
        start = 1;
    }
    assert(dspec =~= s@.subrange(start as int, hi as int));
    if start >= hi {
        return None;
    }
    let ghost d = s@.subrange(start as int, hi as int);
    let mut value: u64 = 0;
    let mut over = false;
    let mut i = start;
    assert(s@.subrange(start as int, start as int) =~= Seq::<char>::empty());
    while i < hi
        invariant
            start <= i <= hi,
            hi == s@.len(),
            d == s@.subrange(start as int, hi as int),
            dspec == d,
            dspec == (if s@.len() > 0 && s@[0] == '+' { s@.drop_first() } else { s@ }),
            all_digit_chars(s@.subrange(start as int, i as int)),
            !over ==> value as nat == chars_value(s@.subrange(start as int, i as int)) && value <= max,
            over ==> chars_value(s@.subrange(start as int, i as int)) > max,
        decreases hi - i,
    {
        let c = s[i];
        if c < '0' || c > '9' {
            assert(d[i - start] == c);
            assert(!all_digit_chars(d));
            return None;
        }
        let ghost pre = s@.subrange(start as int, i as int);
        let ghost next = s@.subrange(start as int, i + 1);
        assert(next.drop_last() =~= pre);
        assert(next.last() == c);
        let dg = (c as u32 - 48) as u64;
        if !over {
            if dg > max || value > (max - dg) / 10 {
                over = true;
                assert(value * 10 + dg > max) by (nonlinear_arith)
                    requires
                        dg > max || value > (max - dg) / 10,
                ;
            } else {
                assert(value * 10 + dg <= max) by (nonlinear_arith)
                    requires
                        value <= (max - dg) / 10,
                        dg <= max,
                ;
                value = value * 10 + dg;
            }
        }
        assert(all_digit_chars(next)) by {
            assert forall|j: int| 0 <= j < next.len() implies is_digit_char(#[trigger] next[j]) by {
                if j < pre.len() {
                    assert(next[j] == pre[j]);
                }
            }
        }
        i = i + 1;
    }
    assert(s@.subrange(start as int, i as int) =~= d);
    if over {
        None
    } else {
        Some(value)
    }
}

/// Digits of `dec(n)` read back give `n`.
pub proof fn lemma_dec_value(n: nat)
    ensures
        dec(n).len() >= 1,
        all_digit_chars(dec(n)),
        chars_value(dec(n)) == n,
        dec(n)[0] != '+',
    decreases n,
{
    if n < 10 {
        let s = dec(n);
        assert(s.drop_last() =~= Seq::<char>::empty());
        assert(chars_value(s.drop_last()) == 0);
        assert(s.last() as int == 48 + n);
    } else {
        lemma_dec_value(n / 10);
        let p = dec(n / 10);
        let s = dec(n);
        assert(s == p.push(digit(n % 10)));
        assert(s.drop_last() =~= p);
        assert(s.last() as int == 48 + n % 10);
        assert((n / 10) * 10 + n % 10 == n);
        assert forall|i: int| 0 <= i < s.len() implies is_digit_char(#[trigger] s[i]) by {
            if i < p.len() {
                assert(s[i] == p[i]);
            }
        }
        assert(s[0] == p[0]);
    }
}

} // verus!
