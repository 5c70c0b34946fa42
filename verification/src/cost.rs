//! Exact reading of decimal cost figures.
//!
//! Result messages report a cost as a JSON decimal such as `0.05`. The
//! crate keeps costs as whole micro-units (`0.05` becomes `50_000`) so that
//! accumulation stays exact. This module defines what a decimal numeral is
//! worth in micro-units and provides the verified reader for it.

use vstd::prelude::*;

verus! {

/// One million micro-units per whole unit.
pub const MICROS_PER_UNIT: u64 = 1000000;

pub open spec fn is_digit(c: char) -> bool {
    48 <= c as int <= 57
}

pub open spec fn digit_val(c: char) -> int {
    c as int - 48
}

pub open spec fn all_digits(s: Seq<char>) -> bool {
    forall|i: int| 0 <= i < s.len() ==> is_digit(s[i])
}

/// The integer denoted by a sequence of decimal digits (most significant
/// first); an empty sequence denotes zero.
pub open spec fn digits_val(s: Seq<char>) -> int
    decreases s.len(),
{
    if s.len() == 0 {
        0
    } else {
        digits_val(s.drop_last()) * 10 + digit_val(s.last())
    }
}

pub open spec fn pow10(n: nat) -> int
    decreases n,
{
    if n == 0 {
        1
    } else {
        10 * pow10((n - 1) as nat)
    }
}

/// Index of the first `.` in `s`, or `s.len()` if there is none.
pub open spec fn dot_pos(s: Seq<char>) -> int
    decreases s.len(),
{
    if s.len() == 0 {
        0
    } else if s[0] == '.' {
        0
    } else {
        1 + dot_pos(s.drop_first())
    }
}

/// Micro-units denoted by a fraction part: the first six fractional digits,
/// scaled to six places; digits beyond the sixth are truncated.
pub open spec fn frac_micros(frac: Seq<char>) -> int {
    if frac.len() >= 6 {
        digits_val(frac.take(6))
    } else {
        digits_val(frac) * pow10((6 - frac.len()) as nat)
    }
}

/// The number of micro-units denoted by a plain decimal numeral: digits,
/// optionally followed by `.` and at least one more digit. Anything else —
/// a sign, an exponent, a second dot, an empty part — denotes nothing, as
/// does a value above `u64::MAX` micro-units.
pub open spec fn micros_of_text(s: Seq<char>) -> Option<u64> {
    let d = dot_pos(s);
    if d == s.len() {
        if s.len() > 0 && all_digits(s) && digits_val(s) * MICROS_PER_UNIT <= u64::MAX {
            Some((digits_val(s) * MICROS_PER_UNIT) as u64)
        } else {
            None
        }
    } else {
        let ip = s.take(d);
        let fp = s.skip(d + 1);
        if ip.len() > 0 && fp.len() > 0 && all_digits(ip) && all_digits(fp) && digits_val(ip)
            * MICROS_PER_UNIT + frac_micros(fp) <= u64::MAX {
            Some((digits_val(ip) * MICROS_PER_UNIT + frac_micros(fp)) as u64)
        } else {
            None
        }
    }
}

proof fn lemma_digits_val_nonneg(s: Seq<char>)
    requires
        all_digits(s),
    ensures
        digits_val(s) >= 0,
    decreases s.len(),
{
    if s.len() > 0 {
        assert(all_digits(s.drop_last()));
        lemma_digits_val_nonneg(s.drop_last());
    }
}

proof fn lemma_digits_val_bound(s: Seq<char>)
    requires
        all_digits(s),
    ensures
        0 <= digits_val(s) < pow10(s.len()),
    decreases s.len(),
{
    if s.len() > 0 {
        assert(all_digits(s.drop_last()));
        lemma_digits_val_bound(s.drop_last());
    }
}

proof fn lemma_pow10_pos(n: nat)
    ensures
        pow10(n) >= 1,
    decreases n,
{
    if n > 0 {
        lemma_pow10_pos((n - 1) as nat);
    }
}

/// Reading a longer digit string never yields a smaller value.
proof fn lemma_digits_val_prefix(s: Seq<char>, k: int)
    requires
        all_digits(s),
        0 <= k <= s.len(),
    ensures
        digits_val(s.take(k)) <= digits_val(s),
    decreases s.len() - k,
{
    if k < s.len() {
        let t = s.take(k + 1);
        assert(all_digits(t));
        assert(t.drop_last() =~= s.take(k));
        assert(digits_val(t) == digits_val(s.take(k)) * 10 + digit_val(s[k]));
        lemma_digits_val_nonneg(s.take(k));
        assert(digits_val(s.take(k)) <= digits_val(t));
        lemma_digits_val_prefix(s, k + 1);
        assert(s.take(s.len() as int) =~= s);
    } else {
        assert(s.take(k) =~= s);
    }
}

/// Reads the digit run `s[from..to]`; `None` when a non-digit occurs there
/// or the value exceeds `u64::MAX`.
fn parse_digit_run(s: &str, from: usize, to: usize) -> (r: Option<u64>)
    requires
        from <= to <= s@.len(),
    ensures
        (match r {
            Some(x) => all_digits(s@.subrange(from as int, to as int)) && x == digits_val(
                s@.subrange(from as int, to as int),
            ),
            None => !(all_digits(s@.subrange(from as int, to as int)) && digits_val(
                s@.subrange(from as int, to as int),
            ) <= u64::MAX),
        }),
{
    let ghost whole = s@.subrange(from as int, to as int);
    let mut acc: u64 = 0;
    let mut i: usize = from;
    while i < to
        invariant
            from <= i <= to <= s@.len(),
            whole == s@.subrange(from as int, to as int),
            all_digits(s@.subrange(from as int, i as int)),
            acc == digits_val(s@.subrange(from as int, i as int)),
        decreases to - i,
    {
        let c = s.get_char(i);
        let u = c as u32;
        proof {
            assert(s@.subrange(from as int, (i + 1) as int).drop_last() =~= s@.subrange(
                from as int,
                i as int,
            ));
        }
        if !(48 <= u && u <= 57) {
            proof {
                assert(s@.subrange(from as int, to as int)[i - from] == s@[i as int]);
                assert(!is_digit(s@[i as int]));
            }
            return None;
        }
        let d: u64 = (u - 48) as u64;
        let stepped = match acc.checked_mul(10) {
            Some(t) => t.checked_add(d),
            None => None,
        };
        match stepped {
            Some(next) => {
                acc = next;
                i = i + 1;
            },
            None => {
                proof {
                    let pre = s@.subrange(from as int, (i + 1) as int);
                    assert(forall|j: int|
                        0 <= j < pre.len() ==> pre[j] == #[trigger] s@[from + j]);
                    assert(all_digits(pre));
                    assert(digits_val(pre) == acc * 10 + d);
                    if all_digits(whole) {
                        assert(pre =~= whole.take(i + 1 - from));
                        lemma_digits_val_prefix(whole, i + 1 - from);
                        assert(digits_val(whole) > u64::MAX);
                    }
                }
                return None;
            },
        }
        proof {
            let pre = s@.subrange(from as int, i as int);
            assert(forall|j: int| 0 <= j < pre.len() ==> pre[j] == #[trigger] s@[from + j]);
            assert(all_digits(pre));
        }
    }
    proof {
        assert(s@.subrange(from as int, i as int) =~= whole);
    }
    Some(acc)
}

/// Reads a decimal numeral as a number of micro-units, exactly as
/// [`micros_of_text`] defines it.
#[verifier::loop_isolation(false)]
pub fn micros_of(s: &str) -> (r: Option<u64>)
    ensures
        r == micros_of_text(s@),
{
    let n = s.unicode_len();
    // locate the first dot
    let mut d: usize = 0;
    while d < n && s.get_char(d) as u32 != 46
        invariant
            0 <= d <= n == s@.len(),
            forall|j: int| 0 <= j < d ==> s@[j] != '.',
        decreases n - d,
    {
        d = d + 1;
    }
    proof {
        lemma_dot_pos_at(s@, d as int);
    }
    if d == n {
        // no fraction part
        match parse_digit_run(s, 0, n) {
            Some(x) => {
                proof {
                    assert(s@.subrange(0, n as int) =~= s@);
                }
                if n == 0 {
                    return None;
                }
                match x.checked_mul(MICROS_PER_UNIT) {
                    Some(total) => Some(total),
                    None => None,
                }
            },
            None => {
                proof {
                    assert(s@.subrange(0, n as int) =~= s@);
                    lemma_digits_val_nonneg_or(s@);
                }
                None
            },
        }
    } else {
        let ghost ip = s@.take(d as int);
        let ghost fp = s@.skip(d + 1);
        if d == 0 || d + 1 == n {
            // empty integer or fraction part
            return None;
        }
        let int_part = match parse_digit_run(s, 0, d) {
            Some(x) => x,
            None => {
                proof {
                    assert(s@.subrange(0, d as int) =~= ip);
                    lemma_digits_val_nonneg_or(ip);
                    lemma_frac_nonneg(fp);
                }
                return None;
            },
        };
        proof {
            assert(s@.subrange(0, d as int) =~= ip);
        }
        let frac_end = if n - (d + 1) >= 6 {
            d + 7
        } else {
            n
        };
        let ghost taken = s@.subrange((d + 1) as int, frac_end as int);
        proof {
            if frac_end < n {
                assert(taken =~= fp.take(6));
            } else {
                assert(taken =~= fp);
            }
        }
        let leading_frac = match parse_digit_run(s, d + 1, frac_end) {
            Some(x) => x,
            None => {
                proof {
                    // a run of at most six digits cannot overflow, so the
                    // failure means a non-digit, which also invalidates `fp`
                    if all_digits(taken) {
                        lemma_digits_val_bound(taken);
                        lemma_pow10_mono(taken.len() as nat, 6);
                        assert(pow10(6) == 1000000) by { reveal_with_fuel(pow10, 7); };
                    }
                    if all_digits(fp) {
                        assert forall|i: int| 0 <= i < taken.len() implies is_digit(taken[i]) by {
                            assert(taken[i] == fp[i]);
                        }
                        assert(false);
                    }
                }
                return None;
            },
        };
        // validate any truncated tail of the fraction
        proof {
            lemma_run_of_digits(s@, (d + 1) as int, frac_end as int);
        }
        if frac_end < n {
            let mut j: usize = frac_end;
            while j < n
                invariant
                    d + 1 <= frac_end <= j <= n == s@.len(),
                    forall|k: int| (d + 1) <= k < j ==> is_digit(#[trigger] s@[k]),
                decreases n - j,
            {
                let c = s.get_char(j);
                let u = c as u32;
                if !(48 <= u && u <= 57) {
                    proof {
                        assert(fp[j - (d + 1)] == s@[j as int]);
                        lemma_digits_val_nonneg_or(ip);
                    }
                    return None;
                }
                j = j + 1;
            }
        }
        proof {
            assert(fp =~= s@.subrange((d + 1) as int, n as int));
            lemma_digits_of_run(s@, (d + 1) as int, n as int);
            assert(all_digits(fp));
        }
        // scale the fraction to six places
        let frac_len = frac_end - (d + 1);
        let mut fm: u64 = leading_frac;
        if frac_len < 6 {
            proof {
                assert(fm == digits_val(fp));
                lemma_digits_val_bound(fp);
                lemma_pow10_pos((6 - fp.len()) as nat);
                assert(digits_val(fp) * pow10((6 - fp.len()) as nat) < pow10(fp.len() as nat)
                    * pow10((6 - fp.len()) as nat)) by (nonlinear_arith)
                    requires
                        0 <= digits_val(fp) < pow10(fp.len() as nat),
                        pow10((6 - fp.len()) as nat) >= 1,
                ;
                lemma_pow10_mul(fp.len() as nat, (6 - fp.len()) as nat);
                assert(pow10(6) == 1000000) by { reveal_with_fuel(pow10, 7); };
                assert(digits_val(fp) * pow10((6 - fp.len()) as nat) >= 0) by (nonlinear_arith)
                    requires
                        digits_val(fp) >= 0,
                        pow10((6 - fp.len()) as nat) >= 1,
                ;
            }
            let mut steps: usize = 6 - frac_len;
            while steps > 0
                invariant
                    steps <= 6,
                    fp.len() < 6,
                    all_digits(fp),
                    fm * pow10(steps as nat) == digits_val(fp) * pow10((6 - fp.len()) as nat),
                    0 <= fm * pow10(steps as nat) < 1000000,
                decreases steps,
            {
                proof {
                    assert(pow10(steps as nat) == 10 * pow10((steps - 1) as nat));
                    lemma_pow10_pos((steps - 1) as nat);
                    assert((fm * 10) * pow10((steps - 1) as nat) == fm * (10 * pow10(
                        (steps - 1) as nat,
                    ))) by (nonlinear_arith);
                    assert(fm * 10 <= (fm * 10) * pow10((steps - 1) as nat)) by (nonlinear_arith)
                        requires
                            pow10((steps - 1) as nat) >= 1,
                            fm >= 0,
                            (fm * 10) * pow10((steps - 1) as nat) >= 0,
                    ;
                }
                fm = fm * 10;
                steps = steps - 1;
            }
            proof {
                assert(pow10(0) == 1) by { reveal_with_fuel(pow10, 1); };
                assert(fm == frac_micros(fp));
            }
        } else {
            proof {
                assert(fp.len() >= 6);
                if frac_end == n {
                    assert(fp.take(6) =~= fp);
                }
                assert(fm == digits_val(fp.take(6)));
                assert(fm == frac_micros(fp));
            }
        }
        let base = match int_part.checked_mul(MICROS_PER_UNIT) {
            Some(b) => b,
            None => {
                return None;
            },
        };
        match base.checked_add(fm) {
            Some(total) => Some(total),
            None => None,
        }
    }
}

/// Transfers digit-hood from a subrange to the indices it covers.
proof fn lemma_run_of_digits(s: Seq<char>, a: int, b: int)
    requires
        0 <= a <= b <= s.len(),
        all_digits(s.subrange(a, b)),
    ensures
        forall|k: int| a <= k < b ==> is_digit(#[trigger] s[k]),
{
    assert forall|k: int| a <= k < b implies is_digit(s[k]) by {
        assert(s.subrange(a, b)[k - a] == s[k]);
    }
}

/// Transfers digit-hood from indices to the subrange they form.
proof fn lemma_digits_of_run(s: Seq<char>, a: int, b: int)
    requires
        0 <= a <= b <= s.len(),
        forall|k: int| a <= k < b ==> is_digit(#[trigger] s[k]),
    ensures
        all_digits(s.subrange(a, b)),
{
    assert forall|i: int| 0 <= i < b - a implies is_digit(s.subrange(a, b)[i]) by {
        assert(s.subrange(a, b)[i] == s[a + i]);
    }
}

proof fn lemma_pow10_mono(a: nat, b: nat)
    requires
        a <= b,
    ensures
        pow10(a) <= pow10(b),
    decreases b,
{
    if a < b {
        lemma_pow10_mono(a, (b - 1) as nat);
        lemma_pow10_pos((b - 1) as nat);
    }
}

proof fn lemma_pow10_mul(a: nat, b: nat)
    ensures
        pow10(a) * pow10(b) == pow10(a + b),
    decreases a,
{
    if a == 0 {
        assert(pow10(0) == 1);
    } else {
        lemma_pow10_mul((a - 1) as nat, b);
        assert((10 * pow10((a - 1) as nat)) * pow10(b) == 10 * (pow10((a - 1) as nat) * pow10(b)))
            by (nonlinear_arith);
    }
}

/// `digits_val` is non-negative whenever it matters; stated as a disjunction
/// so callers can discharge the `None` case of [`micros_of_text`] without a
/// digit check.
proof fn lemma_digits_val_nonneg_or(s: Seq<char>)
    ensures
        all_digits(s) ==> digits_val(s) >= 0,
{
    if all_digits(s) {
        lemma_digits_val_nonneg(s);
    }
}

proof fn lemma_frac_nonneg(fp: Seq<char>)
    ensures
        all_digits(fp) ==> frac_micros(fp) >= 0,
{
    if all_digits(fp) {
        if fp.len() >= 6 {
            assert(all_digits(fp.take(6)));
            lemma_digits_val_nonneg(fp.take(6));
        } else {
            lemma_digits_val_nonneg(fp);
            lemma_pow10_pos((6 - fp.len()) as nat);
            assert(digits_val(fp) * pow10((6 - fp.len()) as nat) >= 0) by (nonlinear_arith)
                requires
                    digits_val(fp) >= 0,
                    pow10((6 - fp.len()) as nat) >= 1,
            ;
        }
    }
}

/// Connects an exec scan for the first dot with `dot_pos`.
proof fn lemma_dot_pos_at(s: Seq<char>, d: int)
    requires
        0 <= d <= s.len(),
        forall|j: int| 0 <= j < d ==> s[j] != '.',
        d < s.len() ==> s[d] == '.',
    ensures
        dot_pos(s) == d,
    decreases s.len(),
{
    if s.len() == 0 {
    } else if s[0] == '.' {
    } else {
        assert(forall|j: int| 0 <= j < d - 1 ==> s.drop_first()[j] == s[j + 1]);
        lemma_dot_pos_at(s.drop_first(), d - 1);
    }
}

} // verus!
