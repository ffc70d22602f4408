//! Unsigned numbers written in text, read as `u64::from_str_radix` reads
//! them.
use vstd::prelude::*;
use vstd::utf8::encode_utf8;

verus! {

/// The value of the ASCII digit `b` in base `radix` (2 to 36): `0`-`9`,
/// then `a`-`z` or `A`-`Z` for 10 to 35, when below `radix`.
pub open spec fn digit_value(b: u8, radix: nat) -> Option<nat> {
    let v: int = if 48 <= b <= 57 {
        b - 48
    } else if 97 <= b <= 122 {
        b - 87
    } else if 65 <= b <= 90 {
        b - 55
    } else {
        36
    };
    if v < radix {
        Some(v as nat)
    } else {
        None
    }
}

/// The number that the digits `d` spell in base `radix`, or `None` when one
/// of them is not a digit of that base.
pub open spec fn digits_value(d: Seq<u8>, radix: nat) -> Option<nat>
    decreases d.len(),
{
    if d.len() == 0 {
        Some(0)
    } else {
        match (digits_value(d.drop_last(), radix), digit_value(d.last(), radix)) {
            (Some(v), Some(x)) => Some(radix * v + x),
            _ => None,
        }
    }
}

/// The 64-bit number that the bytes `s` give in base `radix`, as
/// `u64::from_str_radix` reads it: an optional `+` and at least one digit,
/// with no overflow.
pub open spec fn spec_parse_u64(s: Seq<u8>, radix: nat) -> Option<u64> {
    if s.len() == 0 {
        None
    } else {
        let d = if s[0] == 43 {
            s.drop_first()
        } else {
            s
        };
        if d.len() == 0 {
            None
        } else {
            match digits_value(d, radix) {
                Some(v) => if v <= u64::MAX {
                    Some(v as u64)
                } else {
                    None
                },
                None => None,
            }
        }
    }
}

/// Each prefix of a valid digit string is valid.
proof fn lemma_digits_some_prefix(d: Seq<u8>, radix: nat, i: int)
    requires
        0 <= i <= d.len(),
        digits_value(d, radix) is Some,
    ensures
        digits_value(d.subrange(0, i), radix) is Some,
    decreases d.len() - i,
{
    if i < d.len() {
        lemma_digits_some_prefix(d, radix, i + 1);
        let p = d.subrange(0, i + 1);
        assert(p.drop_last() =~= d.subrange(0, i));
    } else {
        assert(d.subrange(0, i) =~= d);
    }
}

/// A number only grows as more digits follow.
proof fn lemma_digits_grow(d: Seq<u8>, radix: nat, i: int)
    requires
        0 <= i <= d.len(),
        radix >= 1,
        digits_value(d.subrange(0, i), radix) is Some,
        digits_value(d, radix) is Some,
    ensures
        digits_value(d.subrange(0, i), radix)->0 <= digits_value(d, radix)->0,
    decreases d.len() - i,
{
    if i < d.len() {
        let p = d.subrange(0, i + 1);
        assert(p.drop_last() =~= d.subrange(0, i));
        lemma_digits_some_prefix(d, radix, i + 1);
        let a = digits_value(d.subrange(0, i), radix)->0;
        let x = digit_value(p.last(), radix)->0;
        assert(radix * a + x >= a) by (nonlinear_arith)
            requires
                radix >= 1,
        ;
        lemma_digits_grow(d, radix, i + 1);
    } else {
        assert(d.subrange(0, i) =~= d);
    }
}

/// The value of digit `c` in base `radix`, if it is one.
fn digit(c: u8, radix: u64) -> (r: Option<u64>)
    requires
        2 <= radix <= 36,
    ensures
        match r {
            Some(x) => digit_value(c, radix as nat) == Some(x as nat) && x < radix,
            None => digit_value(c, radix as nat) is None,
        },
{
    let v: u64 = if 48u8 <= c && c <= 57u8 {
        (c - 48u8) as u64
    } else if 97u8 <= c && c <= 122u8 {
        (c - 87u8) as u64
    } else if 65u8 <= c && c <= 90u8 {
        (c - 55u8) as u64
    } else {
        36
    };
    if v < radix {
        Some(v)
    } else {
        None
    }
}

/// Reads an unsigned number in base `radix` from `s`, as
/// `u64::from_str_radix(s, radix)` does.
pub fn parse_u64(s: &str, radix: u64) -> (r: Option<u64>)
    requires
        2 <= radix <= 36,
    ensures
        r == spec_parse_u64(encode_utf8(s@), radix as nat),
{
    let b = s.as_bytes();
    let n = b.len();
    if n == 0 {
        return None;
    }
    let start: usize = if b[0] == 43u8 {
        1
    } else {
        0
    };
    if start == n {
        return None;
    }
    let ghost rad = radix as nat;
    let ghost d = if b@[0] == 43 {
        b@.drop_first()
    } else {
        b@
    };
    assert(d =~= b@.subrange(start as int, n as int));
    assert(d.subrange(0, 0) =~= Seq::<u8>::empty());
    let mut v: u64 = 0;
    let mut i: usize = start;
    while i < n
        invariant
            start <= i <= n,
            n == b@.len(),
            2 <= radix <= 36,
            rad == radix as nat,
            d == b@.subrange(start as int, n as int),
            digits_value(d.subrange(0, i - start), rad) == Some(v as nat),
            b@ == encode_utf8(s@),
            spec_parse_u64(b@, rad) == (match digits_value(d, rad) {
                Some(w) => if w <= u64::MAX {
                    Some(w as u64)
                } else {
                    None
                },
                None => None,
            }),
        decreases n - i,
    {
        let c = b[i];
        let p = Ghost(d.subrange(0, i + 1 - start));
        proof {
            assert(p@.drop_last() =~= d.subrange(0, i - start));
            assert(p@.last() == c);
        }
        let x = match digit(c, radix) {
            Some(x) => x,
            None => {
                proof {
                    if digits_value(d, rad) is Some {
                        lemma_digits_some_prefix(d, rad, i + 1 - start);
                    }
                }
                return None;
            },
        };
        assert(digits_value(p@, rad) == Some(rad * (v as nat) + x as nat));
        let lim = (u64::MAX - x) / radix;
        if v > lim {
            proof {
                assert(radix * (v as nat) + x as nat > u64::MAX) by (nonlinear_arith)
                    requires
                        lim == (u64::MAX - x) as int / radix as int,
                        v > lim,
                        x < radix,
                        radix >= 2,
                ;
                if digits_value(d, rad) is Some {
                    lemma_digits_grow(d, rad, i + 1 - start);
                }
            }
            return None;
        }
        assert(radix * (v as nat) + x as nat <= u64::MAX) by (nonlinear_arith)
            requires
                lim == (u64::MAX - x) as int / radix as int,
                v <= lim,
                x < radix,
                radix >= 2,
        ;
        v = v * radix + x;
        i = i + 1;
    }
    assert(d.subrange(0, n - start) =~= d);
    Some(v)
}

} // verus!
