//! Amounts of currency. On the wire an amount is a decimal string; the
//! library computes on whole numbers of atomic units, with eight
//! fraction digits to one coin, so arithmetic on amounts is exact.
use vstd::prelude::*;

use crate::config::{DevFeeConfig, DevFeeMode};
use crate::text::{
    all_dec_digits, dec_digits, digit_char, digit_str, digits_val, find_char, first_idx,
    lemma_digits_val_nonneg, lemma_first_idx_at, lemma_first_idx_none, parse_digits_u64,
    u64_to_string,
};

verus! {

/// Atomic units in one coin: eight fraction digits.
pub const UNITS_PER_XMR: u64 = 100000000;

/// A run of `n` zero digits.
pub open spec fn zeroes(n: int) -> Seq<char> {
    Seq::new(
        if n < 0 {
            0
        } else {
            n as nat
        },
        |i: int| '0',
    )
}

/// The atomic-unit value a decimal amount string names: its digits with
/// the fraction part right-padded to eight digits. `None` for anything
/// but `digits`, `digits.fraction` (fraction up to eight digits; either
/// side of the point may be empty, not both). A finer fraction than
/// the atomic unit, or any other written form, deliberately names no
/// amount; lenient callers then fall back to zero.
pub open spec fn spec_parse_xmr(s: Seq<char>) -> Option<int> {
    let i = first_idx(s, '.');
    if i < 0 {
        if s.len() > 0 && all_dec_digits(s) {
            Some(digits_val(s + zeroes(8)))
        } else {
            None
        }
    } else {
        let a = s.take(i);
        let b = s.skip(i + 1);
        if a.len() + b.len() > 0 && all_dec_digits(a) && all_dec_digits(b) && b.len() <= 8 {
            Some(digits_val(a + b + zeroes(8 - b.len())))
        } else {
            None
        }
    }
}

/// The amount a string names, or zero when it names none or does not
/// fit; lenient callers treat unreadable amounts as zero.
pub open spec fn spec_amount_or_zero(s: Seq<char>) -> int {
    match spec_parse_xmr(s) {
        Some(v) => if 0 <= v <= u64::MAX as int {
            v
        } else {
            0
        },
        None => 0,
    }
}

fn append_zeroes(s: &mut String, n: usize)
    ensures
        final(s)@ == old(s)@ + zeroes(n as int),
{
    let mut j: usize = 0;
    proof {
        assert(s@ =~= old(s)@ + zeroes(0));
    }
    while j < n
        invariant
            j <= n,
            s@ == old(s)@ + zeroes(j as int),
        decreases n - j,
    {
        s.append("0");
        proof {
            reveal_strlit("0");
            assert("0"@ =~= seq!['0']);
            assert(old(s)@ + zeroes(j as int) + "0"@ =~= old(s)@ + zeroes(j + 1));
        }
        j = j + 1;
    }
}

/// Parse a decimal amount into atomic units.
pub fn parse_xmr(s: &str) -> (r: Option<u64>)
    ensures
        match r {
            Some(v) => spec_parse_xmr(s@) == Some(v as int),
            None => !(spec_parse_xmr(s@) matches Some(v) && v <= u64::MAX as int),
        },
{
    let l = s.unicode_len();
    match find_char(s, '.') {
        None => {
            proof {
                lemma_first_idx_none(s@, '.');
            }
            if l == 0 {
                return None;
            }
            let mut padded = String::from_str(s);
            append_zeroes(&mut padded, 8);
            let r = parse_digits_u64(padded.as_str(), 0);
            proof {
                assert(padded@.skip(0) =~= s@ + zeroes(8));
                if all_dec_digits(s@) {
                    assert(all_dec_digits(s@ + zeroes(8)));
                } else {
                    let j = choose|j: int| 0 <= j < s@.len() && !crate::text::is_dec_digit(s@[j]);
                    assert((s@ + zeroes(8))[j] == s@[j]);
                }
            }
            r
        },
        Some(i) => {
            proof {
                lemma_first_idx_at(s@, '.', i as int);
            }
            let head = s.substring_char(0, i);
            let tail = s.substring_char(i + 1, l);
            let blen = tail.unicode_len();
            proof {
                assert(head@ =~= s@.take(i as int));
                assert(tail@ =~= s@.skip(i + 1));
            }
            if i == 0 && blen == 0 {
                return None;
            }
            if blen > 8 {
                return None;
            }
            let mut padded = String::from_str(head);
            padded.append(tail);
            append_zeroes(&mut padded, 8 - blen);
            let r = parse_digits_u64(padded.as_str(), 0);
            proof {
                let a = s@.take(i as int);
                let b = s@.skip(i + 1);
                assert(padded@.skip(0) =~= a + b + zeroes(8 - b.len()));
                if all_dec_digits(a) && all_dec_digits(b) {
                    assert(all_dec_digits(a + b + zeroes(8 - b.len()))) by {
                        assert(forall|j: int|
                            0 <= j < a.len() ==> (a + b + zeroes(8 - b.len()))[j] == a[j]);
                        assert(forall|j: int|
                            a.len() <= j < a.len() + b.len() ==> #[trigger] (a + b + zeroes(
                                8 - b.len(),
                            ))[j] == b[j - a.len()]);
                        assert(forall|j: int|
                            a.len() + b.len() <= j < (a + b + zeroes(8 - b.len())).len()
                                ==> #[trigger] (a + b + zeroes(8 - b.len()))[j] == '0');
                    }
                } else {
                    if !all_dec_digits(a) {
                        let j = choose|j: int|
                            0 <= j < a.len() && !crate::text::is_dec_digit(a[j]);
                        assert((a + b + zeroes(8 - b.len()))[j] == a[j]);
                    } else {
                        let j = choose|j: int|
                            0 <= j < b.len() && !crate::text::is_dec_digit(b[j]);
                        assert((a + b + zeroes(8 - b.len()))[j + a.len()] == b[j]);
                    }
                }
            }
            r
        },
    }
}

/// Fixed-width digit rendering: exactly `k` digits of `n`, zero-padded.
pub open spec fn fixed_digits(n: int, k: int) -> Seq<char>
    decreases k,
{
    if k <= 0 {
        Seq::empty()
    } else {
        fixed_digits(n / 10, k - 1).push(digit_char(n % 10))
    }
}

fn fixed_digits_str(n: u64, k: usize) -> (r: String)
    ensures
        r@ == fixed_digits(n as int, k as int),
    decreases k,
{
    if k == 0 {
        String::new()
    } else {
        let pre = fixed_digits_str(n / 10, k - 1);
        let r = pre.concat(digit_str(n % 10));
        proof {
            assert(r@ =~= fixed_digits(n as int, k as int));
        }
        r
    }
}

/// The wire text of an amount: whole coins, a point, and exactly eight
/// fraction digits.
pub open spec fn spec_format_xmr(v: int) -> Seq<char> {
    dec_digits(v / (UNITS_PER_XMR as int)) + seq!['.'] + fixed_digits(
        v % (UNITS_PER_XMR as int),
        8,
    )
}

/// Render an amount of atomic units as its decimal wire text.
pub fn format_xmr(v: u64) -> (r: String)
    ensures
        r@ == spec_format_xmr(v as int),
{
    let whole = v / UNITS_PER_XMR;
    let frac = v % UNITS_PER_XMR;
    let mut r = u64_to_string(whole);
    r.append(".");
    let f = fixed_digits_str(frac, 8);
    r.append(f.as_str());
    proof {
        reveal_strlit(".");
        assert("."@ =~= seq!['.']);
        assert(r@ =~= spec_format_xmr(v as int));
    }
    r
}

/// The dev fee in atomic units: the amount times the configured value,
/// divided by ten thousand for basis points or a hundred for percent.
pub open spec fn spec_fee_units(amount: int, mode: DevFeeMode, value: int) -> int {
    match mode {
        DevFeeMode::Bps => amount * value / 10000,
        DevFeeMode::Percent => amount * value / 100,
    }
}

/// Fee on `amount` atomic units; `None` when it exceeds `u64::MAX`.
pub fn fee_units(amount: u64, fee: &DevFeeConfig) -> (r: Option<u64>)
    ensures
        match r {
            Some(f) => f as int == spec_fee_units(amount as int, fee.mode, fee.value as int),
            None => spec_fee_units(amount as int, fee.mode, fee.value as int) > u64::MAX as int,
        },
{
    proof {
        assert((amount as int) * (fee.value as int) <= (u64::MAX as int) * (u32::MAX as int))
            by (nonlinear_arith)
            requires
                0 <= amount as int <= u64::MAX as int,
                0 <= fee.value as int <= u32::MAX as int,
        ;
    }
    let prod: u128 = (amount as u128) * (fee.value as u128);
    let d: u128 = match fee.mode {
        DevFeeMode::Bps => 10000,
        DevFeeMode::Percent => 100,
    };
    let q: u128 = prod / d;
    if q > u64::MAX as u128 {
        None
    } else {
        Some(q as u64)
    }
}

/// The fee text for an amount text, as the command handlers quote it:
/// an unreadable amount counts as zero; `None` only when the fee
/// overflows the unit range.
pub fn compute_fee(amount: &str, config: &DevFeeConfig) -> (r: Option<String>)
    ensures
        ({
            let fee = spec_fee_units(spec_amount_or_zero(amount@), config.mode, config.value as int);
            match r {
                Some(t) => fee <= u64::MAX as int && t@ == spec_format_xmr(fee),
                None => fee > u64::MAX as int,
            }
        }),
{
    let units = match parse_xmr(amount) {
        Some(v) => v,
        None => 0,
    };
    match fee_units(units, config) {
        Some(f) => Some(format_xmr(f)),
        None => None,
    }
}


/// Powers of ten.
pub open spec fn pow10(k: int) -> int
    decreases k,
{
    if k <= 0 {
        1
    } else {
        10 * pow10(k - 1)
    }
}

proof fn lemma_pow10_pos(k: int)
    ensures
        pow10(k) >= 1,
    decreases k,
{
    if k > 0 {
        lemma_pow10_pos(k - 1);
    }
}

/// Concatenating digit strings multiplies the left value by ten to the
/// length of the right.
proof fn lemma_digits_val_concat(a: Seq<char>, b: Seq<char>)
    ensures
        digits_val(a + b) == digits_val(a) * pow10(b.len() as int) + digits_val(b),
    decreases b.len(),
{
    if b.len() == 0 {
        assert(a + b =~= a);
        assert(pow10(0) == 1);
    } else {
        lemma_digits_val_concat(a, b.drop_last());
        assert((a + b).drop_last() =~= a + b.drop_last());
        assert((a + b).last() == b.last());
        let va = digits_val(a);
        let p = pow10(b.len() - 1);
        assert(digits_val(a + b) == (va * p + digits_val(b.drop_last())) * 10 + crate::text::digit_val(
            b.last(),
        ));
        assert((va * p + digits_val(b.drop_last())) * 10 == va * (10 * p) + digits_val(
            b.drop_last(),
        ) * 10) by (nonlinear_arith);
        assert(pow10(b.len() as int) == 10 * p);
    }
}

/// A fixed-width rendering is `k` digits carrying `n` modulo ten to
/// the `k`.
proof fn lemma_fixed_digits(n: int, k: int)
    requires
        n >= 0,
        k >= 0,
    ensures
        fixed_digits(n, k).len() == k,
        all_dec_digits(fixed_digits(n, k)),
        digits_val(fixed_digits(n, k)) == n % pow10(k),
    decreases k,
{
    if k == 0 {
        assert(pow10(0) == 1);
        assert(n % 1 == 0) by {
            vstd::arithmetic::div_mod::lemma_mod_self_0(1);
            vstd::arithmetic::div_mod::lemma_small_mod(0, 1);
            assert(n % 1 == 0) by (nonlinear_arith)
                requires
                    n >= 0,
            ;
        }
    } else {
        lemma_fixed_digits(n / 10, k - 1);
        let d = fixed_digits(n, k);
        assert(d =~= fixed_digits(n / 10, k - 1).push(crate::text::digit_char(n % 10)));
        assert(d.drop_last() =~= fixed_digits(n / 10, k - 1));
        lemma_pow10_pos(k - 1);
        assert(crate::text::digit_val(crate::text::digit_char(n % 10)) == n % 10);
        assert(all_dec_digits(d)) by {
            assert(forall|i: int|
                0 <= i < d.len() - 1 ==> d[i] == fixed_digits(n / 10, k - 1)[i]);
            assert(crate::text::is_dec_digit(d.last()));
        }
        vstd::arithmetic::div_mod::lemma_mod_breakdown(n, 10, pow10(k - 1));
        assert(pow10(k) == 10 * pow10(k - 1));
        assert(digits_val(d) == ((n / 10) % pow10(k - 1)) * 10 + n % 10);
        assert(10 * ((n / 10) % pow10(k - 1)) == ((n / 10) % pow10(k - 1)) * 10);
    }
}

/// Rendering an amount and reading it back returns the amount: the
/// wire text of a balance is lossless.
pub proof fn lemma_format_parse_round_trip(v: int)
    requires
        0 <= v <= u64::MAX,
    ensures
        spec_parse_xmr(spec_format_xmr(v)) == Some(v),
{
    let units = UNITS_PER_XMR as int;
    let w = v / units;
    let f = v % units;
    vstd::arithmetic::div_mod::lemma_fundamental_div_mod(v, units);
    let wd = dec_digits(w);
    let fd = fixed_digits(f, 8);
    let s = spec_format_xmr(v);
    crate::state::lemma_dec_digits_val(w);
    lemma_fixed_digits(f, 8);
    assert(pow10(8) == 100000000) by {
        assert(pow10(0) == 1 && pow10(1) == 10 && pow10(2) == 100 && pow10(3) == 1000 && pow10(4)
            == 10000 && pow10(5) == 100000 && pow10(6) == 1000000 && pow10(7) == 10000000 && pow10(
            8,
        ) == 100000000);
    }
    assert(digits_val(fd) == f) by {
        vstd::arithmetic::div_mod::lemma_small_mod(f as nat, 100000000nat);
    }
    // the one point stands right after the whole part
    assert(s.len() == wd.len() + 1 + fd.len());
    assert(s[wd.len() as int] == '.');
    assert(forall|j: int| 0 <= j < wd.len() ==> #[trigger] s[j] == wd[j]);
    assert(forall|j: int| 0 <= j < wd.len() ==> s[j] != '.') by {
        assert(forall|j: int|
            0 <= j < wd.len() ==> crate::text::is_dec_digit(#[trigger] wd[j]));
        assert('.' as u32 == 46);
    }
    lemma_first_idx_at(s, '.', wd.len() as int);
    let a = s.take(wd.len() as int);
    let b = s.skip(wd.len() as int + 1);
    assert(a =~= wd);
    assert(b =~= fd);
    assert(a + b + zeroes(8 - b.len()) =~= wd + fd);
    lemma_digits_val_concat(wd, fd);
    assert(digits_val(wd) * pow10(8) == w * units) by (nonlinear_arith)
        requires
            digits_val(wd) == w,
            pow10(8) == units,
    ;
}

} // verus!
