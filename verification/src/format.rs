//! Rendering a duration as `HH:MM:SS` (hours growing past two digits when
//! they must).

use vstd::prelude::*;
use crate::codec::{dec_fix, lemma_pow10_le, pow10, push_dec_fix};
use crate::session::MAX_TIMESTAMP;
use crate::strutil::chars_to_string;

verus! {

/// How many decimal digits `n` takes.
pub open spec fn numlen(n: int) -> nat
    decreases n, via numlen_decreases
{
    if n < 10 {
        1
    } else {
        (1 + numlen(n / 10)) as nat
    }
}

#[via_fn]
proof fn numlen_decreases(n: int) {
    if n >= 10 {
        assert(0 <= n / 10 < n) by (nonlinear_arith)
            requires
                n >= 10;
    }
}

/// `numlen` is exactly the count of digits: `n` lies under `pow10` of it
/// and, once positive, at or above `pow10` of one less.
proof fn lemma_numlen_bounds(n: int)
    requires
        n >= 0,
    ensures
        numlen(n) >= 1,
        n < pow10(numlen(n)),
        n >= 1 ==> pow10((numlen(n) - 1) as nat) <= n,
    decreases n,
{
    if n < 10 {
        reveal_with_fuel(pow10, 3);
    } else {
        let q = n / 10;
        assert(1 <= q < n) by (nonlinear_arith)
            requires
                n >= 10 && q == n / 10;
        lemma_numlen_bounds(q);
        vstd::arithmetic::div_mod::lemma_fundamental_div_mod(n, 10);
        vstd::arithmetic::div_mod::lemma_mod_bound(n, 10);
        let l = numlen(q);
        assert(pow10((l + 1) as nat) == 10 * pow10(l));
        assert(pow10(l) == 10 * pow10((l - 1) as nat));
    }
}

/// Any width whose `pow10` window holds `n` is its digit count.
proof fn lemma_numlen_unique(n: int, w: nat)
    requires
        n >= 0,
        w >= 1,
        n < pow10(w),
        w > 1 ==> pow10((w - 1) as nat) <= n,
    ensures
        w == numlen(n),
{
    lemma_numlen_bounds(n);
    let l = numlen(n);
    if w < l {
        lemma_pow10_le(w, (l - 1) as nat);
        assert(n >= 1) by {
            if n == 0 {
                reveal_with_fuel(pow10, 2);
            }
        }
    }
    if w > l {
        lemma_pow10_le(l, (w - 1) as nat);
    }
}

/// `n` in decimal with at least two digits, zero padded.
pub open spec fn dec_min2(n: int) -> Seq<char> {
    dec_fix(
        n,
        if numlen(n) < 2 {
            2
        } else {
            numlen(n)
        },
    )
}

/// A duration of `secs` seconds as the clock face shows it:
/// hours (two digits or more), minutes and seconds, colon separated.
pub open spec fn dur_str(secs: int) -> Seq<char> {
    dec_min2(secs / 3600) + seq![':'] + dec_fix((secs % 3600) / 60, 2) + seq![':'] + dec_fix(
        secs % 60,
        2,
    )
}

/// Formats a duration in seconds as `HH:MM:SS`.
pub fn format_duration_str(secs: i64) -> (r: String)
    requires
        0 <= secs <= MAX_TIMESTAMP,
    ensures
        r@ == dur_str(secs as int),
{
    proof {
        reveal_with_fuel(pow10, 13);
    }
    let h = secs / 3600;
    let m = (secs % 3600) / 60;
    let s = secs % 60;
    proof {
        vstd::arithmetic::div_mod::lemma_mod_bound(secs as int, 3600);
        vstd::arithmetic::div_mod::lemma_mod_bound(secs as int, 60);
        vstd::arithmetic::div_mod::lemma_div_pos_is_pos(secs as int, 3600);
        vstd::arithmetic::div_mod::lemma_div_pos_is_pos((secs as int) % 3600, 60);
        vstd::arithmetic::div_mod::lemma_div_pos_is_pos(secs as int, 60);
        assert((secs as int) / 3600 < pow10(9)) by (nonlinear_arith)
            requires
                0 <= secs <= 99_999_999_999 && pow10(9) == 1_000_000_000;
        assert((secs % 3600) / 60 < 60) by (nonlinear_arith)
            requires
                0 <= secs % 3600 < 3600;
    }
    // the width the hours need, at least one digit
    let mut w: usize = 1;
    let mut p: i64 = 10;
    while h >= p
        invariant
            0 <= h < pow10(9),
            1 <= w <= 9,
            p == pow10(w as nat),
            w > 1 ==> pow10((w - 1) as nat) <= h,
        decreases 9 - w,
    {
        proof {
            reveal_with_fuel(pow10, 13);
            if w == 9 {
                assert(false);
            }
        }
        p = p * 10;
        w = w + 1;
    }
    proof {
        lemma_numlen_unique(h as int, w as nat);
    }
    let w2 = if w < 2 {
        2
    } else {
        w
    };
    proof {
        reveal_with_fuel(pow10, 3);
        if w2 != w {
            assert(h < 10);
        }
        lemma_pow10_le(w as nat, w2 as nat);
    }
    let mut out: Vec<char> = Vec::new();
    push_dec_fix(&mut out, h, w2);
    out.push(':');
    push_dec_fix(&mut out, m, 2);
    out.push(':');
    push_dec_fix(&mut out, s, 2);
    proof {
        assert(out@ =~= dur_str(secs as int));
    }
    chars_to_string(out)
}

} // verus!
