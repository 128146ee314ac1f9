use vstd::prelude::*;

use crate::is_ascii_bytes;

verus! {

/// An ASCII decimal digit.
pub open spec fn is_digit(b: u8) -> bool {
    '0' as u8 <= b <= '9' as u8
}

/// Every byte is an ASCII decimal digit.
pub open spec fn all_digits(s: Seq<u8>) -> bool {
    forall|i: int| 0 <= i < s.len() ==> is_digit(#[trigger] s[i])
}

/// The number that a run of digits denotes, most significant first.
pub open spec fn digits_value(s: Seq<u8>) -> nat
    decreases s.len(),
{
    if s.len() == 0 {
        0
    } else {
        digits_value(s.drop_last()) * 10 + (s.last() - '0' as u8) as nat
    }
}

/// One or more digits, with no sign.
pub open spec fn magnitude(s: Seq<u8>) -> Option<nat> {
    if s.len() > 0 && all_digits(s) {
        Some(digits_value(s))
    } else {
        None
    }
}

/// An unsigned number: an optional `+`, then one or more digits.
pub open spec fn unsigned_value(s: Seq<u8>) -> Option<nat> {
    if s.len() > 0 && s[0] == '+' as u8 {
        magnitude(s.drop_first())
    } else {
        magnitude(s)
    }
}

/// A signed number: an optional `+` or `-`, then one or more digits.
pub open spec fn signed_value(s: Seq<u8>) -> Option<int> {
    if s.len() > 0 && s[0] == '-' as u8 {
        match magnitude(s.drop_first()) {
            Some(m) => Some(-m),
            None => None,
        }
    } else {
        match unsigned_value(s) {
            Some(m) => Some(m as int),
            None => None,
        }
    }
}

/// The canonical decimal text of a natural number: no sign, no leading zero.
pub open spec fn decimal(n: nat) -> Seq<u8>
    decreases n,
{
    if n < 10 {
        seq![(n + '0' as u8) as u8]
    } else {
        decimal(n / 10).push((n % 10 + '0' as u8) as u8)
    }
}

/// The canonical decimal text of an integer: `-` before a negative one only.
pub open spec fn signed_decimal(n: int) -> Seq<u8> {
    if n < 0 {
        seq!['-' as u8] + decimal((-n) as nat)
    } else {
        decimal(n as nat)
    }
}

/// Canonical decimal text reads back as the number it was written from.
pub proof fn lemma_decimal_magnitude(n: nat)
    ensures
        decimal(n).len() > 0,
        all_digits(decimal(n)),
        magnitude(decimal(n)) == Some(n),
    decreases n,
{
    let d = decimal(n);
    if n < 10 {
        assert(d.drop_last() =~= Seq::<u8>::empty());
        assert(d.len() == 1 && d.last() == (n + '0' as u8) as u8);
        assert(digits_value(d.drop_last()) == 0);
    } else {
        lemma_decimal_magnitude(n / 10);
        assert(d.drop_last() =~= decimal(n / 10));
        assert(d.last() == (n % 10 + '0' as u8) as u8);
        assert(n % 10 < 10);
        assert((n / 10) * 10 + n % 10 == n) by (nonlinear_arith);
        assert(digits_value(d) == digits_value(decimal(n / 10)) * 10 + n % 10);
        assert(digits_value(d) == n);
        assert(all_digits(d)) by {
            assert forall|i: int| 0 <= i < d.len() implies is_digit(#[trigger] d[i]) by {
                if i < d.len() - 1 {
                    assert(d[i] == decimal(n / 10)[i]);
                }
            }
        }
    }
}

/// Reading a number back from the canonical text of any unsigned value.
pub proof fn lemma_decimal_unsigned(n: nat)
    ensures
        unsigned_value(decimal(n)) == Some(n),
        signed_value(decimal(n)) == Some(n as int),
{
    lemma_decimal_magnitude(n);
    assert(is_digit(decimal(n)[0]));
}

/// Reading a number back from the canonical text of any signed value.
pub proof fn lemma_signed_decimal(n: int)
    ensures
        signed_value(signed_decimal(n)) == Some(n),
{
    if n < 0 {
        let s = signed_decimal(n);
        lemma_decimal_magnitude((-n) as nat);
        assert(s.drop_first() =~= decimal((-n) as nat));
    } else {
        lemma_decimal_unsigned(n as nat);
    }
}

/// The digits `s[start..]` as a number, when they are one or more digits
/// denoting at most `limit`.
pub fn parse_magnitude(s: &[u8], start: usize, limit: u32) -> (r: Option<u32>)
    requires
        start <= s@.len(),
        limit <= 65536,
    ensures
        r.is_some() <==> (magnitude(s@.subrange(start as int, s@.len() as int)) is Some
            && magnitude(s@.subrange(start as int, s@.len() as int))->0 <= limit),
        r.is_some() ==> magnitude(s@.subrange(start as int, s@.len() as int)) == Some(
            r.unwrap() as nat,
        ),
{
    if start == s.len() {
        return None;
    }
    // `acc` is the value read so far, held at `limit + 1` once it is past the limit.
    let mut acc: u32 = 0;
    let mut i: usize = start;
    while i < s.len()
        invariant
            start <= i <= s@.len(),
            limit <= 65536,
            all_digits(s@.subrange(start as int, i as int)),
            acc as nat == if digits_value(s@.subrange(start as int, i as int)) <= limit {
                digits_value(s@.subrange(start as int, i as int))
            } else {
                limit as nat + 1
            },
        decreases s@.len() - i,
    {
        let b = s[i];
        if b < '0' as u8 || b > '9' as u8 {
            proof {
                let t = s@.subrange(start as int, s@.len() as int);
                assert(t[i - start] == b);
            }
            return None;
        }
        proof {
            let p = s@.subrange(start as int, i as int);
            let q = s@.subrange(start as int, i + 1);
            assert(q.drop_last() =~= p);
            assert(q.last() == b);
            assert forall|j: int| 0 <= j < q.len() implies is_digit(#[trigger] q[j]) by {
                if j < p.len() {
                    assert(q[j] == p[j]);
                }
            }
        }
        let d = (b - '0' as u8) as u32;
        if acc > limit {
            proof {
                let p = s@.subrange(start as int, i as int);
                assert(digits_value(p) * 10 + d >= digits_value(p)) by (nonlinear_arith);
            }
        } else {
            let next = acc * 10 + d;
            acc = if next > limit { limit + 1 } else { next };
        }
        i = i + 1;
    }
    proof {
        assert(s@.subrange(start as int, i as int) =~= s@.subrange(start as int, s@.len() as int));
    }
    if acc > limit {
        None
    } else {
        Some(acc)
    }
}

/// An unsigned number `s[start..]` (an optional `+`, then digits), when it
/// is at most `limit`.
pub fn parse_unsigned(s: &[u8], start: usize, limit: u32) -> (r: Option<u32>)
    requires
        start <= s@.len(),
        limit <= 65536,
    ensures
        r.is_some() <==> (unsigned_value(s@.subrange(start as int, s@.len() as int)) is Some
            && unsigned_value(s@.subrange(start as int, s@.len() as int))->0 <= limit),
        r.is_some() ==> unsigned_value(s@.subrange(start as int, s@.len() as int)) == Some(
            r.unwrap() as nat,
        ),
{
    let ghost t = s@.subrange(start as int, s@.len() as int);
    if start < s.len() && s[start] == '+' as u8 {
        assert(t.drop_first() =~= s@.subrange(start + 1, s@.len() as int));
        parse_magnitude(s, start + 1, limit)
    } else {
        parse_magnitude(s, start, limit)
    }
}

/// A signed number `s[start..]` (an optional `+` or `-`, then digits), when
/// it lies in `[-neg_limit, pos_limit]`.
pub fn parse_signed(s: &[u8], start: usize, neg_limit: u32, pos_limit: u32) -> (r: Option<i32>)
    requires
        start <= s@.len(),
        neg_limit <= 65536,
        pos_limit <= 65536,
    ensures
        r.is_some() <==> (signed_value(s@.subrange(start as int, s@.len() as int)) is Some
            && -neg_limit <= signed_value(s@.subrange(start as int, s@.len() as int))->0
            <= pos_limit),
        r.is_some() ==> signed_value(s@.subrange(start as int, s@.len() as int)) == Some(
            r.unwrap() as int,
        ),
{
    let ghost t = s@.subrange(start as int, s@.len() as int);
    if start < s.len() && s[start] == '-' as u8 {
        assert(t.drop_first() =~= s@.subrange(start + 1, s@.len() as int));
        match parse_magnitude(s, start + 1, neg_limit) {
            Some(m) => Some(0 - m as i32),
            None => None,
        }
    } else {
        match parse_unsigned(s, start, pos_limit) {
            Some(m) => Some(m as i32),
            None => None,
        }
    }
}

/// Appends the canonical decimal text of `n`.
pub fn push_decimal(out: &mut Vec<u8>, n: u32)
    ensures
        final(out)@ == old(out)@ + decimal(n as nat),
    decreases n,
{
    if n >= 10 {
        push_decimal(out, n / 10);
    }
    out.push((n % 10) as u8 + '0' as u8);
    proof {
        if n >= 10 {
            assert(decimal(n as nat) == decimal((n / 10) as nat).push((n % 10 + '0' as u8) as u8));
        }
        assert(final(out)@ =~= old(out)@ + decimal(n as nat));
    }
}

/// Appends the canonical decimal text of the signed `n`.
pub fn push_signed_decimal(out: &mut Vec<u8>, n: i32)
    requires
        n > i32::MIN,
    ensures
        final(out)@ == old(out)@ + signed_decimal(n as int),
{
    if n < 0 {
        out.push('-' as u8);
        push_decimal(out, (0 - n) as u32);
    } else {
        push_decimal(out, n as u32);
    }
    assert(final(out)@ =~= old(out)@ + signed_decimal(n as int));
}

/// Canonical decimal text is ASCII.
pub proof fn lemma_decimal_ascii(n: int)
    ensures
        is_ascii_bytes(signed_decimal(n)),
{
    let s = signed_decimal(n);
    let m = if n < 0 { -n } else { n };
    lemma_decimal_magnitude(m as nat);
    assert forall|i: int| 0 <= i < s.len() implies #[trigger] s[i] < 128 by {
        if n < 0 && i > 0 {
            assert(s[i] == decimal(m as nat)[i - 1]);
        }
        if n >= 0 {
            assert(is_digit(decimal(m as nat)[i]));
        }
    }
}

} // verus!
