//! Lenient parsing of one numeric token into a fixed-point scalar.
//!
//! A well-formed numeral is an optional sign, then decimal digits with at
//! most one dot and at least one digit in total (`7`, `-0.25`, `+.5`, `1.`).
//! The value keeps the first six fraction digits; further fraction digits
//! are truncated toward zero. A malformed token, or one whose magnitude
//! does not fit the scalar range, stands for zero: numeric leniency is a
//! deliberate resilience policy of the model loader, not an error.

use vstd::prelude::*;
use crate::fixed::Fixed;

verus! {

/// ASCII code of the decimal dot.
pub const DOT: u8 = 46;

/// ASCII code of the plus sign.
pub const PLUS: u8 = 43;

/// ASCII code of the minus sign.
pub const MINUS: u8 = 45;

/// Whether `b` is an ASCII decimal digit.
pub open spec fn is_digit(b: u8) -> bool {
    48 <= b && b <= 57
}

/// The numeric value of one ASCII digit.
pub open spec fn digit_val(b: u8) -> int {
    b - 48
}

/// Whether every byte of `s` is an ASCII digit.
pub open spec fn all_digits(s: Seq<u8>) -> bool {
    forall|i: int| 0 <= i < s.len() ==> is_digit(s[i])
}

/// The value of a digit string read in base 10 (zero for the empty string).
pub open spec fn digits_val(s: Seq<u8>) -> int
    decreases s.len(),
{
    if s.len() == 0 {
        0
    } else {
        digits_val(s.drop_last()) * 10 + digit_val(s.last())
    }
}

/// Position of the first dot in `s`, or `s.len()` if there is none.
pub open spec fn first_dot(s: Seq<u8>) -> int
    decreases s.len(),
{
    if s.len() == 0 {
        0
    } else if s[0] == DOT {
        0
    } else {
        1 + first_dot(s.skip(1))
    }
}

/// Whether `b` is a sign byte.
pub open spec fn is_sign(b: u8) -> bool {
    b == PLUS || b == MINUS
}

/// The token without its optional leading sign.
pub open spec fn body_of(t: Seq<u8>) -> Seq<u8> {
    if t.len() > 0 && is_sign(t[0]) {
        t.skip(1)
    } else {
        t
    }
}

/// Whether the token carries a minus sign.
pub open spec fn is_negative(t: Seq<u8>) -> bool {
    t.len() > 0 && t[0] == MINUS
}

/// The integer digits of a body: everything before the first dot.
pub open spec fn int_part(b: Seq<u8>) -> Seq<u8> {
    b.take(first_dot(b))
}

/// The fraction digits of a body: everything after the first dot, or the
/// empty string when there is no dot.
pub open spec fn frac_part(b: Seq<u8>) -> Seq<u8> {
    if first_dot(b) < b.len() {
        b.skip(first_dot(b) + 1)
    } else {
        Seq::empty()
    }
}

/// Whether a token is a well-formed numeral.
pub open spec fn is_numeral(t: Seq<u8>) -> bool {
    let b = body_of(t);
    all_digits(int_part(b)) && all_digits(frac_part(b)) && int_part(b).len() + frac_part(b).len()
        >= 1
}

/// Powers of ten.
pub open spec fn pow10(e: nat) -> int
    decreases e,
{
    if e == 0 {
        1
    } else {
        10 * pow10((e - 1) as nat)
    }
}

/// The value of the fraction digits in millionths: the first six digits,
/// padded with zeros on the right when fewer were written.
pub open spec fn frac_units(f: Seq<u8>) -> int {
    if f.len() >= 6 {
        digits_val(f.take(6))
    } else {
        digits_val(f) * pow10((6 - f.len()) as nat)
    }
}

/// The magnitude of a well-formed body in fixed-point units.
pub open spec fn magnitude_units(b: Seq<u8>) -> int {
    digits_val(int_part(b)) * 1_000_000 + frac_units(frac_part(b))
}

/// The value of one scalar token under the lenient policy: a malformed
/// token, or one whose magnitude exceeds `i64::MAX` units, stands for zero.
pub open spec fn scalar_units(t: Seq<u8>) -> int {
    if !is_numeral(t) {
        0
    } else if magnitude_units(body_of(t)) > i64::MAX {
        0
    } else if is_negative(t) {
        -magnitude_units(body_of(t))
    } else {
        magnitude_units(body_of(t))
    }
}

/// Where the first dot sits: within bounds, on a dot, and past none.
pub proof fn lemma_first_dot(s: Seq<u8>)
    ensures
        0 <= first_dot(s) <= s.len(),
        first_dot(s) < s.len() ==> s[first_dot(s)] == DOT,
        forall|m: int| 0 <= m < first_dot(s) ==> s[m] != DOT,
    decreases s.len(),
{
    if s.len() == 0 {
    } else if s[0] == DOT {
    } else {
        lemma_first_dot(s.skip(1));
        assert forall|m: int| 0 <= m < first_dot(s) implies s[m] != DOT by {
            if m >= 1 {
                assert(s.skip(1)[m - 1] == s[m]);
            }
        }
        if first_dot(s) < s.len() {
            assert(s.skip(1)[first_dot(s) - 1] == s[first_dot(s)]);
        }
    }
}

/// A prefix free of dots pushes the first dot past it.
pub proof fn lemma_no_dot_prefix(b: Seq<u8>, m: int)
    requires
        0 <= m <= b.len(),
        forall|k: int| 0 <= k < m ==> b[k] != DOT,
    ensures
        first_dot(b) >= m,
{
    lemma_first_dot(b);
}

/// Every power of ten is positive.
pub proof fn lemma_pow10_pos(e: nat)
    ensures
        pow10(e) >= 1,
    decreases e,
{
    if e > 0 {
        lemma_pow10_pos((e - 1) as nat);
    }
}

/// Powers of ten grow with the exponent.
pub proof fn lemma_pow10_mono(a: nat, b: nat)
    requires
        a <= b,
    ensures
        pow10(a) <= pow10(b),
    decreases b,
{
    lemma_pow10_pos(a);
    if a < b {
        lemma_pow10_mono(a, (b - 1) as nat);
        lemma_pow10_pos((b - 1) as nat);
    }
}

/// Splitting an exponent splits the power.
pub proof fn lemma_pow10_add(a: nat, b: nat)
    ensures
        pow10(a) * pow10(b) == pow10(a + b),
    decreases a,
{
    if a == 0 {
        assert(pow10(0) * pow10(b) == pow10(b));
    } else {
        lemma_pow10_add((a - 1) as nat, b);
        assert(pow10(a) * pow10(b) == 10 * (pow10((a - 1) as nat) * pow10(b)))
            by (nonlinear_arith)
            requires
                pow10(a) == 10 * pow10((a - 1) as nat),
        ;
    }
}

/// One million is the sixth power of ten.
pub proof fn lemma_pow10_six()
    ensures
        pow10(6) == 1_000_000,
{
    reveal_with_fuel(pow10, 7);
}

/// A digit string's value is nonnegative and below ten to its length.
pub proof fn lemma_digits_val_bounds(s: Seq<u8>)
    requires
        all_digits(s),
    ensures
        0 <= digits_val(s) < pow10(s.len()),
    decreases s.len(),
{
    if s.len() == 0 {
    } else {
        assert forall|i: int| 0 <= i < s.drop_last().len() implies is_digit(
            #[trigger] s.drop_last()[i],
        ) by {
            assert(s.drop_last()[i] == s[i]);
        }
        lemma_digits_val_bounds(s.drop_last());
        assert(pow10(s.len()) == 10 * pow10((s.len() - 1) as nat));
        assert(is_digit(s.last()));
    }
}

/// The fraction digits are worth fewer than one million millionths.
pub proof fn lemma_frac_units_bounds(f: Seq<u8>)
    requires
        all_digits(f),
    ensures
        0 <= frac_units(f) < 1_000_000,
{
    lemma_pow10_six();
    if f.len() >= 6 {
        assert forall|i: int| 0 <= i < f.take(6).len() implies is_digit(
            #[trigger] f.take(6)[i],
        ) by {
            assert(f.take(6)[i] == f[i]);
        }
        lemma_digits_val_bounds(f.take(6));
    } else {
        lemma_digits_val_bounds(f);
        lemma_pow10_pos((6 - f.len()) as nat);
        lemma_pow10_add(f.len(), (6 - f.len()) as nat);
        assert(0 <= digits_val(f) * pow10((6 - f.len()) as nat) < pow10(f.len()) * pow10(
            (6 - f.len()) as nat,
        )) by (nonlinear_arith)
            requires
                0 <= digits_val(f) < pow10(f.len()),
                pow10((6 - f.len()) as nat) >= 1,
        ;
    }
}

/// A token's value always fits the scalar range.
pub proof fn lemma_scalar_units_range(t: Seq<u8>)
    ensures
        -i64::MAX <= scalar_units(t) <= i64::MAX,
{
    if is_numeral(t) {
        let b = body_of(t);
        lemma_digits_val_bounds(int_part(b));
        lemma_frac_units_bounds(frac_part(b));
    }
}

/// Ten to the `e` for small exponents.
fn six_zeros(e: usize) -> (r: u64)
    requires
        e <= 6,
    ensures
        r as int == pow10(e as nat),
{
    proof {
        reveal_with_fuel(pow10, 7);
    }
    if e == 0 {
        1
    } else if e == 1 {
        10
    } else if e == 2 {
        100
    } else if e == 3 {
        1_000
    } else if e == 4 {
        10_000
    } else if e == 5 {
        100_000
    } else {
        1_000_000
    }
}

/// Parses one token as a fixed-point scalar under the lenient policy.
#[verifier::rlimit(100)]
pub fn parse_scalar(t: &[u8]) -> (r: Fixed)
    ensures
        r.units as int == scalar_units(t@),
{
    let n = t.len();
    let mut i: usize = 0;
    let mut neg = false;
    if n > 0 && (t[0] == PLUS || t[0] == MINUS) {
        neg = t[0] == MINUS;
        i = 1;
    }
    let ghost b = body_of(t@);
    proof {
        assert(b =~= t@.skip(i as int));
        lemma_first_dot(b);
    }
    // Scan the integer digits, tracking their value until it leaves range.
    let mut acc: u128 = 0;
    let mut over = false;
    let mut j = i;
    while j < n && t[j] != DOT && 48 <= t[j] && t[j] <= 57
        invariant
            t@.len() == n,
            i <= j <= n,
            i <= 1,
            b == t@.skip(i as int),
            all_digits(b.take(j - i)),
            !over ==> acc as int == digits_val(b.take(j - i)) && acc <= i64::MAX as u128,
            over ==> digits_val(b.take(j - i)) > i64::MAX,
        decreases n - j,
    {
        let d = t[j] - 48;
        proof {
            assert(b.take(j + 1 - i).drop_last() =~= b.take(j - i));
            assert(b.take(j + 1 - i).last() == b[j - i]);
            assert(b[j - i] == t@[j as int]);
            assert forall|k: int| 0 <= k < j + 1 - i implies is_digit(
                #[trigger] b.take(j + 1 - i)[k],
            ) by {
                assert(b.take(j + 1 - i)[k] == b[k]);
                if k < j - i {
                    assert(b.take(j - i)[k] == b[k]);
                }
            }
        }
        if !over {
            let next: u128 = acc * 10 + (d as u128);
            if next > i64::MAX as u128 {
                over = true;
            } else {
                acc = next;
            }
        }
        j = j + 1;
    }
    let ghost fd = first_dot(b);
    let ghost m = j - i;
    proof {
        assert forall|k: int| 0 <= k < m implies b[k] != DOT by {
            assert(b.take(m)[k] == b[k]);
            assert(is_digit(b.take(m)[k]));
        }
        lemma_no_dot_prefix(b, m);
    }
    if j < n && t[j] != DOT {
        // A byte that is neither digit nor dot sits in the integer part.
        proof {
            assert(b[m] == t@[j as int]);
            assert(fd > m);
            assert(int_part(b)[m] == b[m]);
            assert(!is_digit(int_part(b)[m]));
            assert(!is_numeral(t@));
        }
        return Fixed { units: 0 };
    }
    let mut facc: u64 = 0;
    let ghost frac = frac_part(b);
    if j < n {
        // The scan stopped on the dot: the fraction digits follow.
        proof {
            assert(b[m] == t@[j as int]);
            assert(fd == m);
            assert(frac =~= b.skip(m + 1));
        }
        let mut k = j + 1;
        while k < n
            invariant
                t@.len() == n,
                i <= j < k <= n,
                i <= 1,
                j < n,
                b == t@.skip(i as int),
                b == body_of(t@),
                frac == frac_part(b),
                frac =~= b.skip(j + 1 - i),
                frac.len() == n - j - 1,
                all_digits(frac.take(k - j - 1)),
                k - j - 1 <= 6 ==> facc as int == digits_val(frac.take(k - j - 1)) && (facc as int) < pow10((k - j - 1) as nat),
                k - j - 1 > 6 ==> facc as int == digits_val(frac.take(6)) && (facc as int) < pow10(6),
            decreases n - k,
        {
            let c = t[k];
            proof {
                assert(frac[k - j - 1] == b[k - i]);
                assert(b[k - i] == t@[k as int]);
            }
            if c < 48 || c > 57 {
                // A non-digit (a second dot included) spoils the fraction.
                proof {
                    assert(!is_digit(frac[k - j - 1]));
                    assert(!is_numeral(t@));
                }
                return Fixed { units: 0 };
            }
            proof {
                assert(frac.take(k - j).drop_last() =~= frac.take(k - j - 1));
                assert(frac.take(k - j).last() == frac[k - j - 1]);
                assert forall|q: int| 0 <= q < k - j implies is_digit(
                    #[trigger] frac.take(k - j)[q],
                ) by {
                    assert(frac.take(k - j)[q] == frac[q]);
                    if q < k - j - 1 {
                        assert(frac.take(k - j - 1)[q] == frac[q]);
                    }
                }
                lemma_pow10_six();
                if k - j - 1 <= 6 {
                    lemma_pow10_mono(((k - j - 1) as nat), 6);
                }
                if k - j - 1 < 6 {
                    assert(pow10((k - j) as nat) == 10 * pow10((k - j - 1) as nat));
                }
                if k - j - 1 >= 6 {
                    assert(frac.take(6) =~= frac.take(k - j).take(6));
                }
            }
            if k < n && k - j - 1 < 6 {
                facc = facc * 10 + ((c - 48) as u64);
            }
            k = k + 1;
        }
        proof {
            assert(frac.take(frac.len() as int) =~= frac);
        }
    } else {
        // No dot anywhere: the whole body is the integer part.
        proof {
            assert(m == b.len());
            if fd < b.len() {
                assert(b.take(m)[fd] == b[fd]);
                assert(is_digit(b[fd]));
            }
            assert(fd == m);
            assert(frac =~= Seq::<u8>::empty());
        }
    }
    proof {
        assert(int_part(b) =~= b.take(m));
        assert(int_part(b).len() == m);
    }
    // Reject a sign or dot with no digit at all.
    if j == i && (j == n || j + 1 == n) {
        proof {
            assert(int_part(b).len() + frac_part(b).len() == 0);
            assert(!is_numeral(t@));
        }
        return Fixed { units: 0 };
    }
    proof {
        assert(all_digits(frac));
        assert(is_numeral(t@));
        lemma_frac_units_bounds(frac);
        lemma_pow10_six();
    }
    // Assemble the magnitude in millionths and clamp the lenient way.
    let fl: usize = if j < n {
        n - j - 1
    } else {
        0
    };
    let fu: u64 = if fl >= 6 {
        facc
    } else {
        proof {
            lemma_pow10_mono((fl as nat), 6);
            assert(facc as int * pow10((6 - fl) as nat) == frac_units(frac));
            assert(facc as int * pow10((6 - fl) as nat) < 1_000_000);
        }
        facc * six_zeros(6 - fl)
    };
    proof {
        assert(fu as int == frac_units(frac));
        assert(fu < 1_000_000);
    }
    if over {
        // The integer digits alone exceed the scalar range.
        proof {
            assert(digits_val(int_part(b)) > i64::MAX);
            assert(digits_val(int_part(b)) * 1_000_000 >= digits_val(int_part(b)));
            assert(magnitude_units(b) > i64::MAX);
        }
        return Fixed { units: 0 };
    }
    let total: u128 = acc * 1_000_000 + (fu as u128);
    proof {
        assert(total as int == magnitude_units(b));
    }
    if total > i64::MAX as u128 {
        return Fixed { units: 0 };
    }
    let ui = total as i64;
    if neg {
        Fixed { units: -ui }
    } else {
        Fixed { units: ui }
    }
}

} // verus!
