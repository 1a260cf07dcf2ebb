//! Rational-timebase conversion from container ticks to seconds.
//!
//! A timebase is a rational number of seconds per tick, `num / den`.
//! Converting a tick count to seconds is exact whenever `den` divides the
//! tick count: the value in seconds is the integer `(timestamp / den) * num`.
//! Otherwise the value is the rational `timestamp * num / den`, which the
//! caller renders with whatever rounding it can afford. To keep the exact
//! case exact, the converter returns a symbolic result instead of a lossy
//! machine number.

use vstd::arithmetic::div_mod::lemma_fundamental_div_mod;
use vstd::prelude::*;

verus! {

/// A tick count converted to seconds.
///
/// `Exact(s)` means the value is exactly `s` seconds (an integer).
/// `Approx { timestamp, num, den }` means the value is the rational
/// `timestamp * num / den` seconds, carried unevaluated so that no
/// precision is lost inside the library.
#[derive(Debug, Clone, Copy, PartialEq, Eq, Structural)]
pub enum Seconds {
    Exact(i128),
    Approx { timestamp: i64, num: i64, den: i64 },
}

/// The value `timestamp_to_seconds` returns: the exact integer path when
/// `den` divides `timestamp`, the symbolic rational otherwise.
pub open spec fn spec_to_seconds(timestamp: i64, num: i64, den: i64) -> Seconds {
    if timestamp as int % (den as int) == 0 {
        Seconds::Exact(((timestamp as int / den as int) * num as int) as i128)
    } else {
        Seconds::Approx { timestamp, num, den }
    }
}

/// A multiple of `d` has remainder zero and the matching quotient under
/// `d`, whatever the signs of the operands.
proof fn lemma_multiple_div_mod(t: int, d: int, q: int)
    requires
        d != 0,
        t == q * d,
    ensures
        t % d == 0,
        t / d == q,
{
    assert(t % d == 0 && t / d == q) by (nonlinear_arith)
        requires
            d != 0,
            t == q * d,
    ;
}

/// Divisibility of `t` by `d`, and the quotient in the divisible case,
/// expressed through the magnitudes `ta == |t|` and `da == |d|`.
proof fn lemma_div_by_magnitudes(t: int, d: int, ta: int, da: int)
    requires
        d != 0,
        ta == if t >= 0 { t } else { -t },
        da == if d >= 0 { d } else { -d },
    ensures
        (ta % da == 0) <==> (t % d == 0),
        ta % da == 0 ==> t / d == (if (t >= 0) == (d >= 0) { ta / da } else { -(ta / da) }),
{
    if ta % da == 0 {
        lemma_fundamental_div_mod(ta, da);
        let qm = ta / da;
        let qs = if (t >= 0) == (d >= 0) { qm } else { -qm };
        assert(t == qs * d) by (nonlinear_arith)
            requires
                d != 0,
                ta == if t >= 0 { t } else { -t },
                da == if d >= 0 { d } else { -d },
                ta == da * qm + 0,
                qs == if (t >= 0) == (d >= 0) { qm } else { -qm },
        ;
        lemma_multiple_div_mod(t, d, qs);
    }
    if t % d == 0 {
        lemma_fundamental_div_mod(t, d);
        let q = t / d;
        let qm = if q >= 0 { q } else { -q };
        assert(ta == qm * da) by (nonlinear_arith)
            requires
                d != 0,
                ta == if t >= 0 { t } else { -t },
                da == if d >= 0 { d } else { -d },
                t == d * q + 0,
                qm == if q >= 0 { q } else { -q },
        ;
        lemma_multiple_div_mod(ta, da, qm);
    }
}

/// Convert a container timestamp (tick count) under the timebase
/// `num / den` into seconds.
///
/// When `den` divides `timestamp` exactly, the result is the exact integer
/// `(timestamp / den) * num`; otherwise the rational inputs are carried
/// through unevaluated. A zero denominator is undefined input: the demuxing
/// engine supplies only non-zero denominators, and callers must reject a
/// zero before calling.
pub fn timestamp_to_seconds(timestamp: i64, num: i64, den: i64) -> (s: Seconds)
    requires
        den != 0,
    ensures
        s == spec_to_seconds(timestamp, num, den),
{
    let ta: u64 = if timestamp >= 0 {
        timestamp as u64
    } else {
        (-(timestamp as i128)) as u64
    };
    let da: u64 = if den >= 0 {
        den as u64
    } else {
        (-(den as i128)) as u64
    };
    proof {
        lemma_div_by_magnitudes(timestamp as int, den as int, ta as int, da as int);
    }
    if ta % da == 0 {
        let qm: u64 = ta / da;
        proof {
            assert(qm as int <= ta as int) by (nonlinear_arith)
                requires
                    da as int >= 1,
                    qm as int == ta as int / da as int,
                    ta as int >= 0,
            ;
        }
        let qs: i128 = if (timestamp >= 0) == (den >= 0) {
            qm as i128
        } else {
            -(qm as i128)
        };
        proof {
            assert(-0x40000000000000000000000000000000 <= qs as int * num as int
                && qs as int * num as int <= 0x40000000000000000000000000000000)
                by (nonlinear_arith)
                requires
                    -0x8000000000000000 <= qs as int <= 0x8000000000000000,
                    -0x8000000000000000 <= num as int <= 0x8000000000000000,
            ;
        }
        Seconds::Exact(qs * (num as i128))
    } else {
        Seconds::Approx { timestamp, num, den }
    }
}

} // verus!
