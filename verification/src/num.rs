//! Reading decimal strings into milli-unit integers.
//!
//! A value such as `"1.5"` is read as `1_500`: one thousand milli-units per
//! whole unit, keeping at most three fractional digits (further digits are
//! ignored). An optional leading `-` or `+` is accepted. The whole part is
//! capped at under [`MAX_WHOLE`] to keep every value inside `i64`.

use vstd::prelude::*;

verus! {

/// Upper bound (exclusive) on the whole part of a parsed number.
pub const MAX_WHOLE: i64 = 1_000_000_000;

/// Whether a character is a decimal digit.
pub open spec fn is_digit(c: char) -> bool {
    '0' <= c && c <= '9'
}

/// The numeric value of a decimal digit.
pub open spec fn digit_val(c: char) -> int {
    c as int - '0' as int
}

/// Whether every character of `s` is a decimal digit.
pub open spec fn all_digits(s: Seq<char>) -> bool {
    forall|i: int| 0 <= i < s.len() ==> is_digit(#[trigger] s[i])
}

/// The value of a run of decimal digits.
pub open spec fn digits_val(s: Seq<char>) -> int
    decreases s.len(),
{
    if s.len() == 0 {
        0
    } else {
        digits_val(s.drop_last()) * 10 + digit_val(s.last())
    }
}

pub proof fn lemma_digits_val_bounds(s: Seq<char>)
    requires
        all_digits(s),
    ensures
        0 <= digits_val(s),
    decreases s.len(),
{
    if s.len() > 0 {
        assert(all_digits(s.drop_last()));
        lemma_digits_val_bounds(s.drop_last());
    }
}

/// A digit run is worth at least any of its prefixes.
proof fn lemma_digits_val_prefix(s: Seq<char>, i: int)
    requires
        all_digits(s),
        0 <= i <= s.len(),
    ensures
        digits_val(s.take(i)) <= digits_val(s),
    decreases s.len() - i,
{
    assert(all_digits(s.take(i)));
    lemma_digits_val_bounds(s.take(i));
    if i < s.len() {
        assert(s.take(i + 1).drop_last() =~= s.take(i));
        lemma_digits_val_prefix(s, i + 1);
    } else {
        assert(s.take(i) =~= s);
    }
}

/// The position of the first `.` in `s`, or the length of `s`.
pub open spec fn dot_idx(s: Seq<char>) -> int
    decreases s.len(),
{
    if s.len() == 0 {
        0
    } else if s[0] == '.' {
        0
    } else {
        1 + dot_idx(s.drop_first())
    }
}

proof fn lemma_dot_idx(s: Seq<char>)
    ensures
        0 <= dot_idx(s) <= s.len(),
        forall|i: int| 0 <= i < dot_idx(s) ==> #[trigger] s[i] != '.',
        dot_idx(s) < s.len() ==> s[dot_idx(s)] == '.',
    decreases s.len(),
{
    if s.len() > 0 && s[0] != '.' {
        lemma_dot_idx(s.drop_first());
        assert forall|i: int| 0 <= i < dot_idx(s) implies #[trigger] s[i] != '.' by {
            if i > 0 {
                assert(s.drop_first()[i - 1] != '.');
            }
        }
    }
}

/// The milli-unit value of up to three fractional digits.
pub open spec fn frac_milli(s: Seq<char>) -> int {
    (if s.len() >= 1 {
        digit_val(s[0]) * 100
    } else {
        0
    }) + (if s.len() >= 2 {
        digit_val(s[1]) * 10
    } else {
        0
    }) + (if s.len() >= 3 {
        digit_val(s[2])
    } else {
        0
    })
}

/// Reads an unsigned decimal: digits, with at most one `.`, at least one
/// digit in all, and a whole part under [`MAX_WHOLE`].
pub open spec fn parse_unsigned_milli(s: Seq<char>) -> Option<int> {
    let d = dot_idx(s);
    let whole = s.take(d);
    let frac = if d < s.len() {
        s.subrange(d + 1, s.len() as int)
    } else {
        Seq::empty()
    };
    if s.len() == 0 {
        None
    } else if !all_digits(whole) || !all_digits(frac) {
        None
    } else if whole.len() == 0 && frac.len() == 0 {
        None
    } else if digits_val(whole) >= MAX_WHOLE {
        None
    } else {
        Some(digits_val(whole) * 1000 + frac_milli(frac))
    }
}

/// Reads a decimal with an optional leading sign, in milli-units.
pub open spec fn parse_milli(s: Seq<char>) -> Option<int> {
    if s.len() > 0 && s[0] == '-' {
        match parse_unsigned_milli(s.drop_first()) {
            Some(v) => Some(-v),
            None => None,
        }
    } else if s.len() > 0 && s[0] == '+' {
        parse_unsigned_milli(s.drop_first())
    } else {
        parse_unsigned_milli(s)
    }
}

/// Every successfully parsed value lies strictly within these bounds.
pub open spec fn milli_in_range(v: int) -> bool {
    -1_000_000_000_000 < v < 1_000_000_000_000
}

pub proof fn lemma_parse_unsigned_range(s: Seq<char>)
    ensures
        parse_unsigned_milli(s) is Some ==> 0 <= parse_unsigned_milli(s).unwrap()
            < 1_000_000_000_000,
{
    if parse_unsigned_milli(s) is Some {
        let d = dot_idx(s);
        lemma_dot_idx(s);
        let whole = s.take(d);
        let frac = if d < s.len() {
            s.subrange(d + 1, s.len() as int)
        } else {
            Seq::empty()
        };
        lemma_digits_val_bounds(whole);
    }
}

pub proof fn lemma_parse_milli_range(s: Seq<char>)
    ensures
        parse_milli(s) is Some ==> milli_in_range(parse_milli(s).unwrap()),
{
    if s.len() > 0 && (s[0] == '-' || s[0] == '+') {
        lemma_parse_unsigned_range(s.drop_first());
    } else {
        lemma_parse_unsigned_range(s);
    }
}

/// Scans `s` between `from` and `to`, checking that every character is a
/// decimal digit.
fn scan_all_digits(s: &str, from: usize, to: usize) -> (r: bool)
    requires
        from <= to <= s@.len(),
    ensures
        r == all_digits(s@.subrange(from as int, to as int)),
{
    let ghost sub = s@.subrange(from as int, to as int);
    let mut i: usize = from;
    while i < to
        invariant
            from <= i <= to <= s@.len(),
            sub == s@.subrange(from as int, to as int),
            forall|k: int| 0 <= k < i - from ==> is_digit(#[trigger] sub[k]),
        decreases to - i,
    {
        let c = s.get_char(i);
        if !(c >= '0' && c <= '9') {
            proof {
                assert(sub[i - from as int] == s@[i as int]);
            }
            return false;
        }
        i += 1;
    }
    true
}

/// The value of the digits of `s` between `from` and `to`, if they are all
/// digits and worth less than [`MAX_WHOLE`].
fn scan_digits_val(s: &str, from: usize, to: usize) -> (r: Option<i64>)
    requires
        from <= to <= s@.len(),
    ensures
        ({
            let sub = s@.subrange(from as int, to as int);
            match r {
                Some(v) => all_digits(sub) && digits_val(sub) == v && 0 <= v < MAX_WHOLE,
                None => !all_digits(sub) || digits_val(sub) >= MAX_WHOLE,
            }
        }),
{
    let ghost sub = s@.subrange(from as int, to as int);
    let mut acc: i64 = 0;
    let mut i: usize = from;
    while i < to
        invariant
            from <= i <= to <= s@.len(),
            sub == s@.subrange(from as int, to as int),
            all_digits(sub.take(i - from)),
            acc == digits_val(sub.take(i - from)),
            0 <= acc < MAX_WHOLE,
        decreases to - i,
    {
        let c = s.get_char(i);
        if !(c >= '0' && c <= '9') {
            proof {
                assert(sub[i - from as int] == s@[i as int]);
            }
            return None;
        }
        let d = (c as u32) - ('0' as u32);
        proof {
            assert(sub[i - from as int] == s@[i as int]);
            assert(sub.take(i - from as int + 1).drop_last() =~= sub.take(i - from as int));
            assert(sub.take(i - from as int + 1).last() == sub[i - from as int]);
        }
        let next = acc * 10 + (d as i64);
        if next >= MAX_WHOLE {
            proof {
                if all_digits(sub) {
                    lemma_digits_val_prefix(sub, i - from as int + 1);
                }
            }
            return None;
        }
        acc = next;
        i += 1;
    }
    proof {
        assert(sub.take(to - from as int) =~= sub);
    }
    Some(acc)
}

/// Reads a decimal string into milli-units; executable twin of
/// [`parse_milli`].
pub fn parse_milli_str(s: &str) -> (r: Option<i64>)
    ensures
        match r {
            Some(v) => parse_milli(s@) == Some(v as int),
            None => parse_milli(s@) is None,
        },
{
    let n = s.unicode_len();
    if n == 0 {
        return None;
    }
    let c0 = s.get_char(0);
    if c0 == '-' {
        proof {
            assert(s@.subrange(1, n as int) =~= s@.drop_first());
        }
        match parse_unsigned_str(s, 1, n) {
            Some(v) => Some(-v),
            None => None,
        }
    } else if c0 == '+' {
        proof {
            assert(s@.subrange(1, n as int) =~= s@.drop_first());
        }
        parse_unsigned_str(s, 1, n)
    } else {
        proof {
            assert(s@.subrange(0, n as int) =~= s@);
        }
        parse_unsigned_str(s, 0, n)
    }
}

/// Reads the unsigned decimal in `s` between `from` and `to`; executable
/// twin of [`parse_unsigned_milli`] on that range.
fn parse_unsigned_str(s: &str, from: usize, to: usize) -> (r: Option<i64>)
    requires
        from <= to <= s@.len(),
    ensures
        ({
            let sub = s@.subrange(from as int, to as int);
            match r {
                Some(v) => parse_unsigned_milli(sub) == Some(v as int) && 0 <= v
                    < 1_000_000_000_000i64,
                None => parse_unsigned_milli(sub) is None,
            }
        }),
{
    let ghost sub = s@.subrange(from as int, to as int);
    if from == to {
        return None;
    }
    // Find the first '.', if any.
    let mut d: usize = from;
    while d < to && s.get_char(d) != '.'
        invariant
            from <= d <= to <= s@.len(),
            sub == s@.subrange(from as int, to as int),
            forall|k: int| 0 <= k < d - from ==> #[trigger] sub[k] != '.',
        decreases to - d,
    {
        proof {
            assert(sub[d - from as int] == s@[d as int]);
        }
        d += 1;
    }
    proof {
        lemma_dot_idx_of(sub, d - from as int);
    }
    let whole = scan_digits_val(s, from, d);
    let whole_v = match whole {
        Some(v) => v,
        None => {
            proof {
                assert(sub.take(d - from as int) =~= s@.subrange(from as int, d as int));
            }
            return None;
        },
    };
    proof {
        assert(sub.take(d - from as int) =~= s@.subrange(from as int, d as int));
    }
    if d == to {
        // No fractional part.
        if d == from {
            return None;
        }
        proof {
            assert(parse_unsigned_milli(sub) == Some(digits_val(sub.take(d - from as int)) * 1000 + 0));
        }
        Some(whole_v * 1000)
    } else {
        let fstart = d + 1;
        let ghost frac = sub.subrange(d - from as int + 1, sub.len() as int);
        proof {
            assert(frac =~= s@.subrange(fstart as int, to as int));
        }
        if !scan_all_digits(s, fstart, to) {
            return None;
        }
        if d == from && fstart == to {
            return None;
        }
        let flen = to - fstart;
        let f0: i64 = if flen >= 1 {
            digit_at(s, fstart)
        } else {
            0
        };
        let f1: i64 = if flen >= 2 {
            digit_at(s, fstart + 1)
        } else {
            0
        };
        let f2: i64 = if flen >= 3 {
            digit_at(s, fstart + 2)
        } else {
            0
        };
        proof {
            if frac.len() >= 1 {
                assert(frac[0] == s@[fstart as int]);
            }
            if frac.len() >= 2 {
                assert(frac[1] == s@[fstart + 1]);
            }
            if frac.len() >= 3 {
                assert(frac[2] == s@[fstart + 2]);
            }
        }
        Some(whole_v * 1000 + f0 * 100 + f1 * 10 + f2)
    }
}

/// The digit at position `i` of `s`, as a number.
fn digit_at(s: &str, i: usize) -> (r: i64)
    requires
        i < s@.len(),
        is_digit(s@[i as int]),
    ensures
        r == digit_val(s@[i as int]),
        0 <= r <= 9,
{
    let c = s.get_char(i);
    ((c as u32) - ('0' as u32)) as i64
}

/// If the first `k` characters of `s` are not dots, and either `k` is the
/// length or `s[k]` is a dot, then `dot_idx(s) == k`.
proof fn lemma_dot_idx_of(s: Seq<char>, k: int)
    requires
        0 <= k <= s.len(),
        forall|i: int| 0 <= i < k ==> #[trigger] s[i] != '.',
        k < s.len() ==> s[k] == '.',
    ensures
        dot_idx(s) == k,
    decreases s.len(),
{
    if s.len() > 0 && s[0] != '.' {
        assert(k > 0);
        lemma_dot_idx_of(s.drop_first(), k - 1);
    }
}

} // verus!
