use vstd::prelude::*;

verus! {

/// Milliseconds per day.
pub const MS_PER_DAY: i64 = 86_400_000;

/// Milliseconds per seven-day week.
pub const MS_PER_WEEK: i64 = 604_800_000;

/// Milliseconds per thirty-day month.
pub const MS_PER_MONTH: i64 = 2_592_000_000;

/// Days in the fallback window used when a recency string cannot be parsed.
pub const DEFAULT_RECENT_DAYS: i64 = 30;

/// ASCII decimal digit.
pub open spec fn is_digit(c: char) -> bool {
    ('0' as u32) <= (c as u32) && (c as u32) <= ('9' as u32)
}

/// Numeric value of a digit character.
pub open spec fn digit_val(c: char) -> int {
    (c as u32) as int - ('0' as u32) as int
}

/// Every character is an ASCII decimal digit.
pub open spec fn all_digits(s: Seq<char>) -> bool {
    forall|i: int| 0 <= i < s.len() ==> is_digit(#[trigger] s[i])
}

/// Value of a string of decimal digits, most significant first.
pub open spec fn digits_val(s: Seq<char>) -> int
    decreases s.len(),
{
    if s.len() == 0 {
        0
    } else {
        digits_val(s.drop_last()) * 10 + digit_val(s.last())
    }
}

/// Split of a duration string into its digit part and the milliseconds per
/// unit: `d` for days, `w` for weeks, `mo` for thirty-day months.
pub open spec fn spec_split_duration(s: Seq<char>) -> Option<(Seq<char>, i64)> {
    if s.len() >= 2 && s[s.len() - 2] == 'm' && s[s.len() - 1] == 'o' {
        Some((s.subrange(0, s.len() - 2), MS_PER_MONTH))
    } else if s.len() >= 1 && s.last() == 'd' {
        Some((s.drop_last(), MS_PER_DAY))
    } else if s.len() >= 1 && s.last() == 'w' {
        Some((s.drop_last(), MS_PER_WEEK))
    } else {
        None
    }
}

/// Meaning of a duration string: a non-empty run of digits followed by a
/// unit, as milliseconds; `None` when the shape is wrong or the value does
/// not fit in an `i64`.
pub open spec fn parse_duration_spec(s: Seq<char>) -> Option<i64> {
    match spec_split_duration(s) {
        None => None,
        Some((digits, unit)) => if digits.len() > 0 && all_digits(digits) && digits_val(digits)
            * unit <= i64::MAX {
            Some((digits_val(digits) * unit) as i64)
        } else {
            None
        },
    }
}

/// A digit string's value is non-negative.
proof fn lemma_digits_val_nonneg(s: Seq<char>)
    requires
        all_digits(s),
    ensures
        digits_val(s) >= 0,
    decreases s.len(),
{
    if s.len() > 0 {
        assert(all_digits(s.drop_last()));
        lemma_digits_val_nonneg(s.drop_last());
    }
}

/// Extending a digit string never shrinks its value.
proof fn lemma_digits_val_prefix_le(s: Seq<char>, i: int)
    requires
        all_digits(s),
        0 <= i <= s.len(),
    ensures
        digits_val(s.subrange(0, i)) <= digits_val(s),
    decreases s.len() - i,
{
    if i < s.len() {
        let t = s.subrange(0, i + 1);
        assert(t.drop_last() =~= s.subrange(0, i));
        assert(all_digits(s.subrange(0, i)));
        lemma_digits_val_nonneg(s.subrange(0, i));
        assert(digits_val(t) == digits_val(s.subrange(0, i)) * 10 + digit_val(s[i]));
        assert(digits_val(s.subrange(0, i)) * 10 >= digits_val(s.subrange(0, i))) by (nonlinear_arith)
            requires
                digits_val(s.subrange(0, i)) >= 0,
        ;
        lemma_digits_val_prefix_le(s, i + 1);
    } else {
        assert(s.subrange(0, i) =~= s);
    }
}

/// Parses the digit prefix `s[0 .. dlen]` and scales it by `unit`
/// milliseconds; `None` on a malformed prefix or an overflowing value.
fn parse_scaled(s: &str, dlen: usize, unit: i64) -> (r: Option<i64>)
    requires
        dlen <= s@.len(),
        1 <= unit,
    ensures
        r == (if dlen > 0 && all_digits(s@.subrange(0, dlen as int)) && digits_val(
            s@.subrange(0, dlen as int),
        ) * unit <= i64::MAX {
            Some((digits_val(s@.subrange(0, dlen as int)) * unit) as i64)
        } else {
            None::<i64>
        }),
{
    let ghost digits = s@.subrange(0, dlen as int);
    if dlen == 0 {
        return None;
    }
    let mut acc: i64 = 0;
    let mut i: usize = 0;
    while i < dlen
        invariant
            dlen <= s@.len(),
            1 <= unit,
            digits == s@.subrange(0, dlen as int),
            0 <= i <= dlen,
            forall|k: int| 0 <= k < i ==> is_digit(#[trigger] digits[k]),
            acc == digits_val(digits.subrange(0, i as int)),
            acc >= 0,
        decreases dlen - i,
    {
        let c = s.get_char(i);
        proof {
            assert(digits[i as int] == s@[i as int]);
        }
        let cv = c as u32;
        if cv < 48 || cv > 57 {
            proof {
                assert(!is_digit(digits[i as int]));
            }
            return None;
        }
        let d = (cv - 48) as i64;
        let next = match acc.checked_mul(10) {
            Some(x) => x.checked_add(d),
            None => None,
        };
        match next {
            Some(y) => {
                proof {
                    assert(digits.subrange(0, i as int + 1).drop_last() =~= digits.subrange(
                        0,
                        i as int,
                    ));
                    assert(digits.subrange(0, i as int + 1).last() == digits[i as int]);
                }
                acc = y;
            },
            None => {
                // The digits read so far already exceed `i64::MAX`, so the
                // full value cannot fit either.
                proof {
                    if all_digits(digits) && digits_val(digits) * unit <= i64::MAX {
                        assert(digits.subrange(0, i as int + 1).drop_last() =~= digits.subrange(
                            0,
                            i as int,
                        ));
                        assert(digits.subrange(0, i as int + 1).last() == digits[i as int]);
                        assert(digits_val(digits.subrange(0, i as int + 1)) == acc * 10 + digit_val(
                            digits[i as int],
                        ));
                        lemma_digits_val_prefix_le(digits, i as int + 1);
                        lemma_digits_val_nonneg(digits);
                        assert(digits_val(digits) * unit >= digits_val(digits) * 1)
                            by (nonlinear_arith)
                            requires
                                digits_val(digits) >= 0,
                                unit >= 1,
                        ;
                        assert(false);
                    }
                }
                return None;
            },
        }
        i += 1;
    }
    proof {
        assert(digits.subrange(0, dlen as int) =~= digits);
    }
    match acc.checked_mul(unit) {
        Some(v) => Some(v),
        None => {
            proof {
                lemma_digits_val_nonneg(digits);
            }
            None
        },
    }
}

/// Parses a recency duration string such as `7d`, `2w` or `1mo` into
/// milliseconds. `None` marks a malformed or overflowing string; callers
/// treat that as non-fatal and fall back to the default window.
pub fn parse_time_duration(s: &str) -> (r: Option<i64>)
    ensures
        r == parse_duration_spec(s@),
{
    let n = s.unicode_len();
    if n >= 2 && s.get_char(n - 2) == 'm' && s.get_char(n - 1) == 'o' {
        parse_scaled(s, n - 2, MS_PER_MONTH)
    } else if n >= 1 && s.get_char(n - 1) == 'd' {
        proof {
            assert(s@.drop_last() =~= s@.subrange(0, s@.len() - 1));
        }
        parse_scaled(s, n - 1, MS_PER_DAY)
    } else if n >= 1 && s.get_char(n - 1) == 'w' {
        proof {
            assert(s@.drop_last() =~= s@.subrange(0, s@.len() - 1));
        }
        parse_scaled(s, n - 1, MS_PER_WEEK)
    } else {
        None
    }
}

} // verus!
