//! Exact parsing of decimal number tokens.
//!
//! A coordinate token has the shape `-?\d+\.\d+`: an optional leading
//! minus sign, at least one integer digit, a mandatory dot, and at least
//! one fractional digit.  A token is parsed into an exact fixed-point
//! value counted in micro-units (millionths); fractional digits beyond
//! the sixth are truncated.

use vstd::prelude::*;

verus! {

/// Largest magnitude representable in micro-units.
pub const MAX_MICRO: i64 = 0x7fff_ffff_ffff_ffff;

/// ASCII digit.
pub open spec fn is_digit(c: u8) -> bool {
    48 <= c && c <= 57
}

/// Numeric value of one ASCII digit.
pub open spec fn digit_val(c: u8) -> int {
    c - 48
}

/// Value of a digit string, most significant digit first.
pub open spec fn digits_val(s: Seq<u8>) -> int
    decreases s.len(),
{
    if s.len() == 0 {
        0
    } else {
        digits_val(s.drop_last()) * 10 + digit_val(s.last())
    }
}

pub open spec fn all_digits(s: Seq<u8>) -> bool {
    forall|i: int| 0 <= i < s.len() ==> is_digit(#[trigger] s[i])
}

pub open spec fn pow10(n: nat) -> int
    decreases n,
{
    if n == 0 {
        1
    } else {
        10 * pow10((n - 1) as nat)
    }
}

/// `s` is an unsigned decimal token whose dot stands at index `k`.
pub open spec fn unsigned_shape_at(s: Seq<u8>, k: int) -> bool {
    &&& 1 <= k
    &&& k < s.len() - 1
    &&& s[k] == 46
    &&& (forall|i: int| 0 <= i < k ==> is_digit(#[trigger] s[i]))
    &&& (forall|i: int| k < i < s.len() ==> is_digit(#[trigger] s[i]))
}

/// `s` matches `\d+\.\d+`.
pub open spec fn is_unsigned_decimal(s: Seq<u8>) -> bool {
    exists|k: int| unsigned_shape_at(s, k)
}

/// The index of the (unique) dot of an unsigned decimal token.
pub open spec fn dot_of(s: Seq<u8>) -> int {
    choose|k: int| unsigned_shape_at(s, k)
}

/// Micro-unit value of the fractional digit string `f`: the first six
/// digits, padded with zeros up to six places.
pub open spec fn frac_micro(f: Seq<u8>) -> int {
    if f.len() >= 6 {
        digits_val(f.subrange(0, 6))
    } else {
        digits_val(f) * pow10((6 - f.len()) as nat)
    }
}

/// Micro-unit value of an unsigned decimal token.
pub open spec fn unsigned_micro(s: Seq<u8>) -> int {
    let k = dot_of(s);
    digits_val(s.subrange(0, k)) * 1000000 + frac_micro(s.subrange(k + 1, s.len() as int))
}

/// `s` matches `-?\d+\.\d+`.
pub open spec fn is_decimal(s: Seq<u8>) -> bool {
    if s.len() > 0 && s[0] == 45 {
        is_unsigned_decimal(s.skip(1))
    } else {
        is_unsigned_decimal(s)
    }
}

/// Exact micro-unit value of a decimal token.
pub open spec fn decimal_micro(s: Seq<u8>) -> int {
    if s.len() > 0 && s[0] == 45 {
        -unsigned_micro(s.skip(1))
    } else {
        unsigned_micro(s)
    }
}

/// The token's value fits the fixed-point range.
pub open spec fn decimal_fits(s: Seq<u8>) -> bool {
    -(MAX_MICRO as int) <= decimal_micro(s) <= MAX_MICRO as int
}

/// Outcome of parsing one token.
pub enum Parsed {
    /// The token does not have the decimal shape.
    NotDecimal,
    /// The token is a decimal but its magnitude exceeds the range.
    TooLarge,
    /// The exact value in micro-units.
    Value(i64),
}

pub proof fn lemma_dot_unique(s: Seq<u8>, k1: int, k2: int)
    requires
        unsigned_shape_at(s, k1),
        unsigned_shape_at(s, k2),
    ensures
        k1 == k2,
{
    if k1 < k2 {
        assert(is_digit(s[k2]));
    }
    if k2 < k1 {
        assert(is_digit(s[k1]));
    }
}

pub proof fn lemma_digits_val_bound(s: Seq<u8>)
    requires
        all_digits(s),
    ensures
        0 <= digits_val(s) < pow10(s.len()),
    decreases s.len(),
{
    if s.len() > 0 {
        assert(all_digits(s.drop_last()));
        lemma_digits_val_bound(s.drop_last());
        assert(is_digit(s.last()));
    }
}

fn byte_is_digit(c: u8) -> (b: bool)
    ensures
        b == is_digit(c),
{
    48 <= c && c <= 57
}

/// Parses one whitespace-free token against `-?\d+\.\d+` and returns its
/// exact micro-unit value, reporting separately a token of the right
/// shape whose magnitude does not fit the fixed-point range.
pub fn parse_decimal(s: &[u8]) -> (r: Parsed)
    ensures
        (r is NotDecimal) <==> !is_decimal(s@),
        (r is TooLarge) <==> (is_decimal(s@) && !decimal_fits(s@)),
        r matches Parsed::Value(v) ==> is_decimal(s@) && decimal_fits(s@) && v == decimal_micro(s@),
{
    let n = s.len();
    if n == 0 {
        return Parsed::NotDecimal;
    }
    let neg = s[0] == 45;
    let st: usize = if neg { 1 } else { 0 };
    let ghost u = s@.skip(st as int);

    // Integer digits.
    let mut j = st;
    while j < n && byte_is_digit(s[j])
        invariant
            st <= j <= n,
            n == s@.len(),
            st <= n,
            forall|i: int| st <= i < j ==> is_digit(#[trigger] s@[i]),
        decreases n - j,
    {
        j += 1;
    }
    if j == st {
        // No integer digit at the front.
        proof {
            assert forall|k: int| !unsigned_shape_at(u, k) by {
                if unsigned_shape_at(u, k) {
                    assert(is_digit(u[0]));
                    assert(u[0] == s@[st as int]);
                }
            }
        }
        return Parsed::NotDecimal;
    }
    if j == n || s[j] != 46 {
        // Digits not followed by a dot.
        proof {
            assert forall|k: int| !unsigned_shape_at(u, k) by {
                if unsigned_shape_at(u, k) {
                    let jd = j - st;
                    if k < jd {
                        assert(is_digit(u[k]));
                        assert(u[k] == s@[k + st]);
                    } else if k == jd {
                        assert(u[k] == s@[j as int]);
                    } else {
                        assert(is_digit(u[jd]));
                        assert(u[jd] == s@[j as int]);
                    }
                }
            }
        }
        return Parsed::NotDecimal;
    }
    // s[j] == '.'
    let mut j2 = j + 1;
    while j2 < n && byte_is_digit(s[j2])
        invariant
            j + 1 <= j2 <= n,
            n == s@.len(),
            forall|i: int| j + 1 <= i < j2 ==> is_digit(#[trigger] s@[i]),
        decreases n - j2,
    {
        j2 += 1;
    }
    if j2 < n || j2 == j + 1 {
        // A non-digit inside the fraction, or no fraction digit at all.
        proof {
            assert forall|k: int| !unsigned_shape_at(u, k) by {
                if unsigned_shape_at(u, k) {
                    let jd = j - st;
                    if k < jd {
                        assert(is_digit(u[k]));
                        assert(u[k] == s@[k + st]);
                    } else if k > jd {
                        assert(is_digit(u[jd]));
                        assert(u[jd] == s@[j as int]);
                    } else {
                        // dot at jd: the fraction run must cover the tail
                        if j2 < n {
                            assert(is_digit(u[j2 - st]));
                            assert(u[j2 - st] == s@[j2 as int]);
                            assert(!is_digit(s@[j2 as int]));
                        } else {
                            // j2 == j + 1 == n is impossible: k < u.len() - 1
                            assert(u.len() == n - st);
                        }
                    }
                }
            }
        }
        return Parsed::NotDecimal;
    }
    // Shape established: dot at j - st within the unsigned part.
    let ghost kd = j - st;
    proof {
        assert forall|i: int| 0 <= i < kd implies is_digit(#[trigger] u[i]) by {
            assert(u[i] == s@[i + st]);
        }
        assert forall|i: int| kd < i < u.len() implies is_digit(#[trigger] u[i]) by {
            assert(u[i] == s@[i + st]);
        }
        assert(u[kd] == s@[j as int]);
        assert(unsigned_shape_at(u, kd));
        lemma_dot_unique(u, dot_of(u), kd);
        assert(dot_of(u) == kd);
    }

    // Value of the integer part, with saturation above the range.
    let ghost ipart = u.subrange(0, kd);
    proof {
        assert(ipart =~= s@.subrange(st as int, j as int));
    }
    let mut ip: u64 = 0;
    let mut big = false;
    let mut i = st;
    while i < j
        invariant
            st <= i <= j <= n,
            n == s@.len(),
            forall|q: int| st <= q < j ==> is_digit(#[trigger] s@[q]),
            !big ==> ip == digits_val(s@.subrange(st as int, i as int)) && ip <= 9223372036854,
            big ==> digits_val(s@.subrange(st as int, i as int)) > 9223372036854,
        decreases j - i,
    {
        let d = (s[i] - 48) as u64;
        proof {
            assert(s@.subrange(st as int, i + 1).drop_last() =~= s@.subrange(st as int, i as int));
            assert(s@.subrange(st as int, i + 1).last() == s@[i as int]);
            assert(all_digits(s@.subrange(st as int, i as int)));
            lemma_digits_val_bound(s@.subrange(st as int, i as int));
        }
        if !big {
            let next = ip * 10 + d;
            if next > 9223372036854 {
                big = true;
            } else {
                ip = next;
            }
        } else {
            proof {
                let prev = digits_val(s@.subrange(st as int, i as int));
                assert(prev * 10 >= prev) by (nonlinear_arith)
                    requires prev >= 0;
                assert(prev >= 0) by {
                    lemma_digits_val_bound(s@.subrange(st as int, i as int));
                };
            }
        }
        i += 1;
    }
    proof {
        assert(s@.subrange(st as int, j as int) == s@.subrange(st as int, i as int));
    }

    // Value of the fraction, truncated to six digits and zero-padded.
    let ghost fpart = u.subrange(kd + 1, u.len() as int);
    proof {
        assert(fpart =~= s@.subrange(j + 1, n as int));
        assert(all_digits(fpart));
    }
    let flen = n - (j + 1);
    let taken = if flen >= 6 { 6 } else { flen };
    let mut fv: u64 = 0;
    let mut t = 0usize;
    while t < taken
        invariant
            0 <= t <= taken <= 6,
            taken <= flen,
            flen == n - j - 1,
            n == s@.len(),
            j + 1 <= n,
            fpart == s@.subrange(j + 1, n as int),
            all_digits(fpart),
            fv == digits_val(fpart.subrange(0, t as int)),
            fv < 1000000,
        decreases taken - t,
    {
        proof {
            assert(fpart.subrange(0, t + 1).drop_last() =~= fpart.subrange(0, t as int));
            assert(fpart.subrange(0, t + 1).last() == fpart[t as int]);
            assert(fpart[t as int] == s@[j + 1 + t]);
            assert(all_digits(fpart.subrange(0, t + 1)));
            lemma_digits_val_bound(fpart.subrange(0, t + 1));
            lemma_pow10_vals();
            assert(pow10((t + 1) as nat) <= pow10(6)) by {
                lemma_pow10_le((t + 1) as nat, 6);
            };
        }
        let d = (s[j + 1 + t] - 48) as u64;
        fv = fv * 10 + d;
        t += 1;
    }
    // Zero-pad short fractions.
    proof {
        assert(all_digits(fpart.subrange(0, taken as int)));
        lemma_digits_val_bound(fpart.subrange(0, taken as int));
    }
    let mut pad = taken;
    while pad < 6
        invariant
            taken <= pad <= 6,
            taken <= flen,
            fpart.len() == flen,
            all_digits(fpart),
            fv == digits_val(fpart.subrange(0, taken as int)) * pow10((pad - taken) as nat),
            0 <= fv < pow10(pad as nat),
        decreases 6 - pad,
    {
        proof {
            lemma_pow10_le(pad as nat, 5);
            lemma_pow10_vals();
            let dv = digits_val(fpart.subrange(0, taken as int));
            let p = pow10((pad - taken) as nat);
            assert(dv * (10 * p) == (dv * p) * 10) by (nonlinear_arith);
            assert(pow10((pad + 1 - taken) as nat) == 10 * p);
            assert(pow10((pad + 1) as nat) == 10 * pow10(pad as nat));
        }
        fv = fv * 10;
        pad += 1;
    }
    proof {
        lemma_pow10_vals();
        assert(fv < 1000000);
    }
    proof {
        if flen >= 6 {
            assert(taken == 6);
            assert(pow10(0) == 1);
            assert(frac_micro(fpart) == digits_val(fpart.subrange(0, 6)));
            assert(fv == frac_micro(fpart));
        } else {
            assert(taken == flen);
            assert(fpart.subrange(0, flen as int) =~= fpart);
            assert(fv == frac_micro(fpart));
        }
    }

    // Range check and assembly.
    let fits = !big && (ip < 9223372036854 || (ip == 9223372036854 && fv <= 775807));
    proof {
        let ipv = digits_val(ipart);
        let um = unsigned_micro(u);
        assert(um == ipv * 1000000 + frac_micro(fpart));
        if big {
            assert(ipv > 9223372036854);
            assert(ipv * 1000000 >= 9223372036855 * 1000000) by (nonlinear_arith)
                requires ipv >= 9223372036855;
            assert(um > MAX_MICRO as int);
        } else {
            assert(ipv == ip);
            if ip < 9223372036854 {
                assert(ipv * 1000000 <= 9223372036853 * 1000000) by (nonlinear_arith)
                    requires ipv <= 9223372036853;
                assert(um <= MAX_MICRO as int);
            } else {
                assert(ipv * 1000000 == 9223372036854000000) by (nonlinear_arith)
                    requires ipv == 9223372036854;
            }
            lemma_digits_val_bound(ipart);
            assert(ipv * 1000000 >= 0) by (nonlinear_arith)
                requires ipv >= 0;
        }
        if neg {
            assert(s@.skip(1) == u);
            assert(is_decimal(s@));
            assert(decimal_micro(s@) == -um);
        } else {
            assert(u =~= s@);
            assert(is_decimal(s@));
            assert(decimal_micro(s@) == um);
        }
    }
    if !fits {
        return Parsed::TooLarge;
    }
    let mag: u64 = ip * 1000000 + fv;
    let v: i64 = if neg { -(mag as i64) } else { mag as i64 };
    Parsed::Value(v)
}

proof fn lemma_pow10_le(a: nat, b: nat)
    requires
        a <= b,
    ensures
        pow10(a) <= pow10(b),
    decreases b,
{
    lemma_pow10_pos(a);
    if a < b {
        lemma_pow10_le(a, (b - 1) as nat);
    }
}

pub proof fn lemma_pow10_vals()
    ensures
        pow10(5) == 100000,
        pow10(6) == 1000000,
{
    assert(pow10(0) == 1);
    assert(pow10(1) == 10);
    assert(pow10(2) == 100);
    assert(pow10(3) == 1000);
    assert(pow10(4) == 10000);
    assert(pow10(5) == 100000);
    assert(pow10(6) == 1000000);
}

pub proof fn lemma_pow10_pos(n: nat)
    ensures
        pow10(n) >= 1,
    decreases n,
{
    if n > 0 {
        lemma_pow10_pos((n - 1) as nat);
    }
}

} // verus!
