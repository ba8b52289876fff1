//! Fixed-point rendering and parsing of millisecond quantities.
//!
//! A quantity of milliseconds is held as a `u64` count of ticks, one tick
//! being one ten-thousandth of a millisecond. Rendering always writes four
//! fraction digits (`0.5000`, `3.1400`); parsing accepts an unsigned decimal
//! literal and truncates anything past the fourth fraction digit.

use vstd::prelude::*;
use vstd::arithmetic::div_mod::lemma_fundamental_div_mod;
use vstd::arithmetic::div_mod::lemma_div_denominator;
use vstd::arithmetic::div_mod::lemma_small_mod;
use crate::text::find_from;
use crate::text::lemma_find_from;
use crate::text::lemma_find_from_is;
use crate::text::find_byte;

verus! {

/// ASCII code of the digit `d`, for `d < 10`.
pub open spec fn digit_ascii(d: nat) -> u8 {
    (48 + d) as u8
}

pub open spec fn is_ascii_digit(b: u8) -> bool {
    48 <= b <= 57
}

/// The decimal digits of `n`, most significant first, without leading zeros
/// (`0` is rendered as the single digit `0`).
pub open spec fn dec_digits(n: nat) -> Seq<u8>
    decreases n,
{
    if n < 10 {
        seq![digit_ascii(n)]
    } else {
        dec_digits(n / 10).push(digit_ascii(n % 10))
    }
}

/// The four zero-padded fraction digits of a tick count below 10000.
pub open spec fn frac4_digits(f: nat) -> Seq<u8> {
    seq![
        digit_ascii(f / 1000 % 10),
        digit_ascii(f / 100 % 10),
        digit_ascii(f / 10 % 10),
        digit_ascii(f % 10),
    ]
}

/// `q` ticks rendered as milliseconds with exactly four fraction digits.
pub open spec fn spec_format_ticks(q: nat) -> Seq<u8> {
    dec_digits(q / 10000) + seq![46u8] + frac4_digits(q % 10000)
}

fn push_dec_digits(n: u64, out: &mut Vec<u8>)
    ensures
        final(out)@ == old(out)@ + dec_digits(n as nat),
    decreases n,
{
    if n < 10 {
        out.push(48 + n as u8);
        assert(out@ =~= old(out)@ + dec_digits(n as nat));
    } else {
        push_dec_digits(n / 10, out);
        out.push(48 + (n % 10) as u8);
        assert(out@ =~= old(out)@ + dec_digits(n as nat));
    }
}

/// Renders `q` ticks as milliseconds: the integer part without leading
/// zeros, a dot, then exactly four fraction digits.
pub fn format_ticks(q: u64) -> (r: Vec<u8>)
    ensures
        r@ == spec_format_ticks(q as nat),
{
    let mut out: Vec<u8> = Vec::new();
    push_dec_digits(q / 10000, &mut out);
    out.push(46);
    let f = q % 10000;
    out.push(48 + (f / 1000) as u8);
    out.push(48 + ((f / 100) % 10) as u8);
    out.push(48 + ((f / 10) % 10) as u8);
    out.push(48 + (f % 10) as u8);
    assert(out@ =~= spec_format_ticks(q as nat));
    out
}

pub open spec fn all_digits(s: Seq<u8>) -> bool {
    forall|i: int| 0 <= i < s.len() ==> is_ascii_digit(#[trigger] s[i])
}

/// Value of a string of decimal digits, most significant first.
pub open spec fn dec_val(s: Seq<u8>) -> nat
    decreases s.len(),
{
    if s.len() == 0 {
        0
    } else {
        dec_val(s.drop_last()) * 10 + (s.last() - 48) as nat
    }
}

/// Ticks contributed by the fraction digits: the first four count, any
/// further digits are truncated.
pub open spec fn frac_val4(fp: Seq<u8>) -> nat {
    if fp.len() == 0 {
        0
    } else if fp.len() == 1 {
        dec_val(fp) * 1000
    } else if fp.len() == 2 {
        dec_val(fp) * 100
    } else if fp.len() == 3 {
        dec_val(fp) * 10
    } else {
        dec_val(fp.subrange(0, 4))
    }
}

/// An unsigned decimal millisecond literal read as ticks: decimal digits
/// with at most one dot and at least one digit in all. Fraction digits
/// past the fourth are truncated; a value beyond `u64::MAX` ticks is
/// rejected.
pub open spec fn spec_parse_ticks(s: Seq<u8>) -> Option<u64> {
    let d = find_from(s, 0, 46);
    let ip = s.subrange(0, d);
    let fp = if d == s.len() {
        Seq::<u8>::empty()
    } else {
        s.subrange(d + 1, s.len() as int)
    };
    if all_digits(ip) && all_digits(fp) && ip.len() + fp.len() > 0 {
        if dec_val(ip) * 10000 + frac_val4(fp) <= u64::MAX {
            Some((dec_val(ip) * 10000 + frac_val4(fp)) as u64)
        } else {
            None
        }
    } else {
        None
    }
}

/// A digit string is worth at least any of its prefixes.
proof fn lemma_dec_val_prefix(s: Seq<u8>, k: int)
    requires
        0 <= k <= s.len(),
    ensures
        dec_val(s.subrange(0, k)) <= dec_val(s),
    decreases s.len(),
{
    if k < s.len() {
        assert(s.drop_last().subrange(0, k) =~= s.subrange(0, k));
        lemma_dec_val_prefix(s.drop_last(), k);
    } else {
        assert(s.subrange(0, k) =~= s);
    }
}

spec fn pow10(n: nat) -> nat
    decreases n,
{
    if n == 0 {
        1
    } else {
        10 * pow10((n - 1) as nat)
    }
}

proof fn lemma_dec_val_bound(s: Seq<u8>)
    requires
        all_digits(s),
    ensures
        dec_val(s) < pow10(s.len()),
    decreases s.len(),
{
    if s.len() > 0 {
        assert(all_digits(s.drop_last())) by {
            assert(forall|i: int| 0 <= i < s.len() - 1 ==> s.drop_last()[i] == s[i]);
        }
        lemma_dec_val_bound(s.drop_last());
        assert(is_ascii_digit(s.last()));
    }
}

/// The digits of `n` read back as `n`.
proof fn lemma_dec_digits(n: nat)
    ensures
        dec_digits(n).len() >= 1,
        all_digits(dec_digits(n)),
        dec_val(dec_digits(n)) == n,
    decreases n,
{
    if n < 10 {
        let s = dec_digits(n);
        assert(s.drop_last() =~= Seq::<u8>::empty());
        assert(dec_val(s) == dec_val(s.drop_last()) * 10 + (s.last() - 48) as nat);
    } else {
        lemma_dec_digits(n / 10);
        let p = dec_digits(n / 10);
        let s = dec_digits(n);
        assert(s == p.push(digit_ascii(n % 10)));
        assert(s.drop_last() =~= p);
        assert(s.last() == digit_ascii(n % 10));
        assert(dec_val(s) == dec_val(p) * 10 + (n % 10));
        assert(n / 10 * 10 + n % 10 == n) by {
            lemma_fundamental_div_mod(n as int, 10);
        }
        assert(forall|i: int| 0 <= i < s.len() ==> is_ascii_digit(#[trigger] s[i])) by {
            assert(forall|i: int| 0 <= i < p.len() ==> s[i] == p[i]);
        }
    }
}

/// The four padded fraction digits of `f < 10000` read back as `f`.
proof fn lemma_frac4_digits(f: nat)
    requires
        f < 10000,
    ensures
        frac4_digits(f).len() == 4,
        all_digits(frac4_digits(f)),
        dec_val(frac4_digits(f)) == f,
{
    let s = frac4_digits(f);
    let a = f / 1000 % 10;
    let b = f / 100 % 10;
    let c = f / 10 % 10;
    let d = f % 10;
    let s3 = s.drop_last();
    let s2 = s3.drop_last();
    let s1 = s2.drop_last();
    assert(s3 =~= seq![digit_ascii(a), digit_ascii(b), digit_ascii(c)]);
    assert(s2 =~= seq![digit_ascii(a), digit_ascii(b)]);
    assert(s1 =~= seq![digit_ascii(a)]);
    assert(s1.drop_last() =~= Seq::<u8>::empty());
    assert(dec_val(Seq::<u8>::empty()) == 0);
    assert(dec_val(s1) == a);
    assert(dec_val(s2) == a * 10 + b);
    assert(dec_val(s3) == (a * 10 + b) * 10 + c);
    assert(dec_val(s) == ((a * 10 + b) * 10 + c) * 10 + d);
    assert(1000 * (f / 1000) + 100 * (f / 100 % 10) + 10 * (f / 10 % 10) + f % 10 == f) by {
        lemma_fundamental_div_mod(f as int, 10);
        lemma_fundamental_div_mod(f as int / 10, 10);
        lemma_fundamental_div_mod(f as int / 100, 10);
        lemma_div_denominator(f as int, 10, 10);
        lemma_div_denominator(f as int, 100, 10);
    }
    assert(f / 1000 % 10 == f / 1000) by {
        assert(f / 1000 < 10);
        lemma_small_mod(f / 1000, 10);
    }
}

/// Every byte of a rendered tick count is a digit or the dot.
pub proof fn lemma_format_ticks_bytes(q: nat)
    ensures
        forall|i: int|
            0 <= i < spec_format_ticks(q).len() ==> (is_ascii_digit(
                #[trigger] spec_format_ticks(q)[i],
            ) || spec_format_ticks(q)[i] == 46),
{
    let s = spec_format_ticks(q);
    let dd = dec_digits(q / 10000);
    let fr = frac4_digits(q % 10000);
    lemma_dec_digits(q / 10000);
    assert forall|i: int| 0 <= i < s.len() implies (is_ascii_digit(s[i]) || s[i] == 46) by {
        if i < dd.len() {
            assert(s[i] == dd[i]);
        } else if i > dd.len() {
            let j = i - dd.len() - 1;
            assert(s[i] == fr[j]);
            if j == 0 {
            } else if j == 1 {
            } else if j == 2 {
            } else {
                assert(j == 3);
            }
        }
    }
}

/// Formatting then parsing gives the tick count back unchanged.
pub proof fn lemma_ticks_round_trip(q: u64)
    ensures
        spec_parse_ticks(spec_format_ticks(q as nat)) == Some(q),
{
    let s = spec_format_ticks(q as nat);
    let hi = (q as nat) / 10000;
    let lo = (q as nat) % 10000;
    let dd = dec_digits(hi);
    lemma_dec_digits(hi);
    lemma_frac4_digits(lo);
    let k = dd.len() as int;
    assert forall|j: int| 0 <= j < k implies s[j] != 46 by {
        assert(s[j] == dd[j]);
        assert(is_ascii_digit(dd[j]));
    }
    assert(s[k] == 46);
    lemma_find_from_is(s, 0, 46, k);
    let ip = s.subrange(0, k);
    let fp = s.subrange(k + 1, s.len() as int);
    assert(ip =~= dd);
    assert(fp =~= frac4_digits(lo));
    assert(fp.subrange(0, 4) =~= fp);
    assert(dec_val(ip) * 10000 + frac_val4(fp) == hi * 10000 + lo);
    assert(hi * 10000 + lo == q) by {
        lemma_fundamental_div_mod(q as int, 10000);
    }
}

/// Reads an unsigned decimal millisecond literal as ticks. Digits with at
/// most one dot; fraction digits past the fourth are truncated; rejects
/// anything else, and values beyond `u64::MAX` ticks.
pub fn parse_ticks(s: &[u8]) -> (r: Option<u64>)
    ensures
        r == spec_parse_ticks(s@),
{
    proof {
        lemma_find_from(s@, 0, 46);
    }
    let n = s.len();
    let d = find_byte(s, 0, 46);
    let ghost ip = s@.subrange(0, d as int);
    let ghost fp = if d == n {
        Seq::<u8>::empty()
    } else {
        s@.subrange(d as int + 1, n as int)
    };
    if d == 0 && n <= 1 {
        return None;
    }

    // integer part
    let mut acc: u64 = 0;
    let mut i: usize = 0;
    while i < d
        invariant
            0 <= i <= d <= n == s@.len(),
            d == find_from(s@, 0, 46),
            ip == s@.subrange(0, d as int),
            all_digits(s@.subrange(0, i as int)),
            acc == dec_val(s@.subrange(0, i as int)),
        decreases d - i,
    {
        let b = s[i];
        proof {
            assert(s@.subrange(0, i as int + 1).drop_last() =~= s@.subrange(0, i as int));
            assert(s@.subrange(0, i as int + 1).last() == s@[i as int]);
        }
        if b < 48 || b > 57 {
            proof {
                assert(ip[i as int] == b && !is_ascii_digit(b));
            }
            return None;
        }
        let dg = (b - 48) as u64;
        let stepped = match acc.checked_mul(10) {
            Some(v) => v.checked_add(dg),
            None => None,
        };
        match stepped {
            Some(v) => {
                acc = v;
                i += 1;
            },
            None => {
                proof {
                    let ghost pre = s@.subrange(0, i as int + 1);
                    assert(dec_val(pre) == acc * 10 + dg);
                    assert(dec_val(pre) > u64::MAX);
                    if all_digits(ip) {
                        assert(ip.subrange(0, i as int + 1) =~= pre);
                        lemma_dec_val_prefix(ip, i as int + 1);
                        assert(dec_val(ip) * 10000 >= dec_val(ip));
                    }
                }
                return None;
            },
        }
    }
    proof {
        assert(s@.subrange(0, d as int) =~= ip);
    }

    // fraction part
    let mut f: u64 = 0;
    let mut cnt: usize = 0;
    if d < n {
        let mut j: usize = d + 1;
        while j < n
            invariant
                d as int + 1 <= j as int <= n == s@.len(),
                d < n,
                d == find_from(s@, 0, 46),
                fp == s@.subrange(d as int + 1, n as int),
                all_digits(s@.subrange(d as int + 1, j as int)),
                cnt == j - d - 1,
                cnt <= 4 ==> f == dec_val(s@.subrange(d as int + 1, j as int)),
                cnt > 4 ==> f == dec_val(s@.subrange(d as int + 1, d as int + 5)),
            decreases n - j,
        {
            let b = s[j];
            proof {
                assert(s@.subrange(d as int + 1, j as int + 1).drop_last() =~= s@.subrange(
                    d as int + 1,
                    j as int,
                ));
                assert(s@.subrange(d as int + 1, j as int + 1).last() == s@[j as int]);
            }
            if b < 48 || b > 57 {
                proof {
                    assert(fp[j - d - 1] == b && !is_ascii_digit(b));
                }
                return None;
            }
            if cnt < 4 {
                proof {
                    lemma_dec_val_bound(s@.subrange(d as int + 1, j as int));
                    assert(pow10(0) == 1);
                    assert(pow10(1) == 10);
                    assert(pow10(2) == 100);
                    assert(pow10(3) == 1000);
                }
                f = f * 10 + (b - 48) as u64;
            }
            cnt += 1;
            j += 1;
        }
        proof {
            assert(s@.subrange(d as int + 1, n as int) =~= fp);
        }
    }
    let f4: u64 = if cnt == 0 {
        0
    } else if cnt == 1 {
        proof {
            lemma_dec_val_bound(fp);
            assert(pow10(0) == 1);
            assert(pow10(1) == 10);
        }
        f * 1000
    } else if cnt == 2 {
        proof {
            lemma_dec_val_bound(fp);
            assert(pow10(0) == 1);
            assert(pow10(1) == 10);
            assert(pow10(2) == 100);
        }
        f * 100
    } else if cnt == 3 {
        proof {
            lemma_dec_val_bound(fp);
            assert(pow10(0) == 1);
            assert(pow10(1) == 10);
            assert(pow10(2) == 100);
            assert(pow10(3) == 1000);
        }
        f * 10
    } else {
        proof {
            if cnt == 4 {
                assert(s@.subrange(d as int + 1, n as int) =~= fp);
                assert(fp.subrange(0, 4) =~= fp);
            } else {
                assert(fp.subrange(0, 4) =~= s@.subrange(d as int + 1, d as int + 5));
            }
        }
        f
    };
    proof {
        assert(f4 == frac_val4(fp));
        assert(ip.len() + fp.len() > 0);
    }
    let total = match acc.checked_mul(10000) {
        Some(v) => v.checked_add(f4),
        None => None,
    };
    match total {
        Some(v) => {
            proof {
                assert(spec_parse_ticks(s@) == Some(v));
            }
            Some(v)
        },
        None => {
            proof {
                assert(dec_val(ip) * 10000 + frac_val4(fp) > u64::MAX);
            }
            None
        },
    }
}

} // verus!
