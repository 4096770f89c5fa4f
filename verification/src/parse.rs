//! String normalizers: raw textual fields to numeric domain values.
//!
//! [`parse_percent`] turns a percentage string such as `"-5.25%"` or
//! `"1,234.56%"` into an exact [`Dec`]; [`parse_apply_status_limit`] turns a
//! subscription-status string into a purchase limit, falling back to the
//! [`UNLIMITED_LIMIT`] sentinel whenever the text is not recognized, so that
//! unparseable limit text can never make a fund pass a limit filter as zero.

use vstd::prelude::*;
use crate::decimal::{
    all_dec_alphabet, all_digits, dec_from_chars, dec_of_lit, digit_val, digits_val, first_dot,
    frac_part, int_part, is_dec_lit, is_digit, pow10, Dec,
};
use crate::fund::UNLIMITED_LIMIT;

verus! {

// ---------------------------------------------------------------------------
// Characters
// ---------------------------------------------------------------------------
/// The whitespace characters trimmed from raw fields.
pub open spec fn is_space(c: char) -> bool {
    c == ' ' || c == '\t' || c == '\n' || c == '\r' || c == '\u{B}' || c == '\u{C}'
}

/// Collects the characters of a string slice.
pub(crate) fn chars_of(s: &str) -> (v: Vec<char>)
    ensures
        v@ == s@,
{
    let n = s.unicode_len();
    let mut v: Vec<char> = Vec::new();
    let mut i: usize = 0;
    while i < n
        invariant
            i <= n,
            n as nat == s@.len(),
            v@ == s@.take(i as int),
        decreases n - i,
    {
        let c = s.get_char(i);
        v.push(c);
        proof {
            assert(s@.take(i + 1) =~= s@.take(i as int).push(s@[i as int]));
        }
        i += 1;
    }
    proof {
        assert(s@.take(n as int) =~= s@);
    }
    v
}

fn char_digit(c: char) -> (r: Option<u64>)
    ensures
        is_digit(c) ==> r == Some(digit_val(c) as u64),
        !is_digit(c) ==> r is None,
{
    let u = c as u32;
    if 48 <= u && u <= 57 {
        Some((u - 48) as u64)
    } else {
        None
    }
}

// ---------------------------------------------------------------------------
// Digit strings
// ---------------------------------------------------------------------------
pub proof fn lemma_digits_val_nonneg(s: Seq<char>)
    requires
        all_digits(s),
    ensures
        digits_val(s) >= 0,
    decreases s.len(),
{
    if s.len() > 0 {
        lemma_digits_val_nonneg(s.drop_last());
    }
}

/// A digit string's value is below ten to its length.
pub proof fn lemma_digits_val_len_bound(s: Seq<char>)
    requires
        all_digits(s),
    ensures
        0 <= digits_val(s) < pow10(s.len()),
    decreases s.len(),
{
    if s.len() > 0 {
        lemma_digits_val_len_bound(s.drop_last());
    }
}

/// Extending a digit string never lowers its value.
pub proof fn lemma_digits_val_prefix(s: Seq<char>, i: int)
    requires
        all_digits(s),
        0 <= i <= s.len(),
    ensures
        digits_val(s.take(i)) <= digits_val(s),
    decreases s.len(),
{
    if i == s.len() {
        assert(s.take(i) =~= s);
    } else {
        lemma_digits_val_nonneg(s.drop_last());
        lemma_digits_val_prefix(s.drop_last(), i);
        assert(s.take(i) =~= s.drop_last().take(i));
    }
}

/// Reads the base-ten value of `cs[from..to]`; `None` when the range is
/// empty, holds a non-digit, or overflows.
fn digits_value(cs: &Vec<char>, from: usize, to: usize) -> (r: Option<u64>)
    requires
        from <= to <= cs@.len(),
    ensures
        match r {
            Some(v) => {
                let sub = cs@.subrange(from as int, to as int);
                all_digits(sub) && sub.len() >= 1 && digits_val(sub) == v
            },
            None => {
                let sub = cs@.subrange(from as int, to as int);
                !(all_digits(sub) && sub.len() >= 1 && digits_val(sub) <= u64::MAX)
            },
        },
{
    let ghost sub = cs@.subrange(from as int, to as int);
    if from == to {
        return None;
    }
    let mut acc: u128 = 0;
    let mut i: usize = from;
    while i < to
        invariant
            from <= i <= to <= cs@.len(),
            sub == cs@.subrange(from as int, to as int),
            all_digits(sub.take(i - from)),
            acc <= u64::MAX,
            acc == digits_val(sub.take(i - from)),
        decreases to - i,
    {
        let ghost pre = sub.take(i - from);
        let c = cs[i];
        proof {
            assert(sub[i - from] == cs@[i as int]);
            assert(sub.take(i + 1 - from) =~= pre.push(cs@[i as int]));
        }
        match char_digit(c) {
            Some(d) => {
                let next: u128 = acc * 10 + d as u128;
                proof {
                    assert forall|x: int| 0 <= x < i + 1 - from implies is_digit(
                        #[trigger] sub.take(i + 1 - from)[x],
                    ) by {
                        if x < i - from {
                            assert(sub.take(i + 1 - from)[x] == pre[x]);
                        } else {
                            assert(sub.take(i + 1 - from)[x] == cs@[i as int]);
                        }
                    }
                    assert(sub.take(i + 1 - from).drop_last() =~= pre);
                    assert(sub.take(i + 1 - from).last() == cs@[i as int]);
                    assert(digits_val(sub.take(i + 1 - from)) == acc * 10 + digit_val(
                        cs@[i as int],
                    ));
                }
                if next > u64::MAX as u128 {
                    proof {
                        if all_digits(sub) {
                            lemma_digits_val_prefix(sub, i + 1 - from);
                            assert(digits_val(sub) > u64::MAX);
                        }
                    }
                    return None;
                }
                acc = next;
            },
            None => {
                proof {
                    assert(!is_digit(sub[i - from]));
                }
                return None;
            },
        }
        i += 1;
    }
    proof {
        assert(sub.take(to - from) =~= sub);
    }
    Some(acc as u64)
}

// ---------------------------------------------------------------------------
// Status strings
// ---------------------------------------------------------------------------
/// Status text meaning the fund is open for subscription.
pub open spec fn open_status() -> Seq<char> {
    seq!['\u{5F00}', '\u{653E}', '\u{7533}', '\u{8D2D}']
}

/// Status text meaning subscription is suspended.
pub open spec fn suspended_status() -> Seq<char> {
    seq!['\u{6682}', '\u{505C}', '\u{7533}', '\u{8D2D}']
}

/// The prefix marking a stated limit.
pub open spec fn limit_prefix_char() -> char {
    '\u{9650}'
}

/// The ten-thousand unit suffix.
pub open spec fn myriad_char() -> char {
    '\u{4E07}'
}

/// The thousand unit suffix.
pub open spec fn thousand_char() -> char {
    '\u{5343}'
}

/// A bare digit string's value, or the unlimited sentinel when it is not a
/// digit string or does not fit.
pub open spec fn bare_limit(s: Seq<char>) -> u64 {
    if all_digits(s) && s.len() >= 1 && digits_val(s) <= u64::MAX {
        digits_val(s) as u64
    } else {
        UNLIMITED_LIMIT
    }
}

/// Floor of the fractional digits `f`, read as `0.f`, scaled by ten to the
/// `k`: the first `k` fractional digits, padded with zeros.
pub open spec fn scaled_frac(f: Seq<char>, k: nat) -> int {
    if f.len() <= k {
        digits_val(f) * pow10((k - f.len()) as nat)
    } else {
        digits_val(f.take(k as int))
    }
}

/// Floor of an unsigned decimal body's value scaled by ten to the `k`.
pub open spec fn scaled_val(s: Seq<char>, k: nat) -> int {
    digits_val(int_part(s)) * pow10(k) + scaled_frac(frac_part(s), k)
}

/// An unsigned decimal body: digits around at most one point, at least one
/// digit in all.
pub open spec fn is_plain_number(s: Seq<char>) -> bool {
    &&& all_digits(int_part(s))
    &&& all_digits(frac_part(s))
    &&& int_part(s).len() + frac_part(s).len() >= 1
}

/// A number-with-unit limit: the number's value scaled by ten to the `k` and
/// truncated, or the unlimited sentinel when the text is not a number or the
/// result does not fit.
pub open spec fn unit_limit(s: Seq<char>, k: nat) -> u64 {
    if is_plain_number(s) && scaled_val(s, k) <= u64::MAX {
        scaled_val(s, k) as u64
    } else {
        UNLIMITED_LIMIT
    }
}

/// The purchase limit a status string denotes: the open and suspended
/// statuses mean unlimited; a limit-prefixed number, with an optional
/// thousand or ten-thousand unit suffix, means that many units; anything
/// else falls back to unlimited, never zero.
pub open spec fn spec_apply_status_limit(s: Seq<char>) -> u64 {
    if s == open_status() || s == suspended_status() {
        UNLIMITED_LIMIT
    } else if s.len() >= 1 && s[0] == limit_prefix_char() {
        let rest = s.drop_first();
        if rest.len() >= 1 && rest.last() == myriad_char() {
            unit_limit(rest.drop_last(), 4)
        } else if rest.len() >= 1 && rest.last() == thousand_char() {
            unit_limit(rest.drop_last(), 3)
        } else {
            bare_limit(rest)
        }
    } else {
        UNLIMITED_LIMIT
    }
}

/// The fail-open policy: a status string that neither matches a known
/// unlimited status nor carries a parseable limit after the limit prefix
/// yields the unlimited sentinel — never zero — so unparseable limit text
/// cannot make a fund pass a limit filter as if capped at nothing.
pub proof fn lemma_unrecognized_status_fails_open(s: Seq<char>)
    requires
        s != open_status(),
        s != suspended_status(),
        s.len() >= 1 && s[0] == limit_prefix_char() ==> ({
            let rest = s.drop_first();
            &&& !(rest.len() >= 1 && rest.last() == myriad_char() && is_plain_number(
                rest.drop_last(),
            ) && scaled_val(rest.drop_last(), 4) <= u64::MAX)
            &&& !(rest.len() >= 1 && rest.last() == thousand_char() && is_plain_number(
                rest.drop_last(),
            ) && scaled_val(rest.drop_last(), 3) <= u64::MAX)
            &&& !(all_digits(rest) && rest.len() >= 1 && digits_val(rest) <= u64::MAX)
        }),
    ensures
        spec_apply_status_limit(s) == UNLIMITED_LIMIT,
        spec_apply_status_limit(s) != 0,
{
}

fn chars_eq4(cs: &Vec<char>, a: char, b: char, c: char, d: char) -> (r: bool)
    ensures
        r == (cs@ == seq![a, b, c, d]),
{
    if cs.len() == 4 && cs[0] == a && cs[1] == b && cs[2] == c && cs[3] == d {
        proof {
            assert(cs@ =~= seq![a, b, c, d]);
        }
        true
    } else {
        proof {
            if cs@ == seq![a, b, c, d] {
                assert(cs@.len() == 4);
            }
        }
        false
    }
}

/// First index of `'.'` in `cs[from..to]` relative to `from`, or `to` when
/// there is none.
fn find_dot(cs: &Vec<char>, from: usize, to: usize) -> (r: usize)
    requires
        from <= to <= cs@.len(),
    ensures
        from <= r <= to,
        first_dot(cs@.subrange(from as int, to as int)) == r - from,
{
    let ghost sub = cs@.subrange(from as int, to as int);
    let mut i: usize = from;
    while i < to && cs[i] != '.'
        invariant
            from <= i <= to <= cs@.len(),
            sub == cs@.subrange(from as int, to as int),
            forall|j: int| 0 <= j < i - from ==> sub[j] != '.',
        decreases to - i,
    {
        i += 1;
    }
    proof {
        lemma_first_dot_at(sub, i - from);
    }
    i
}

proof fn lemma_first_dot_at(s: Seq<char>, i: int)
    requires
        0 <= i <= s.len(),
        forall|j: int| 0 <= j < i ==> s[j] != '.',
        i == s.len() || s[i] == '.',
    ensures
        first_dot(s) == i,
    decreases i,
{
    if i > 0 {
        lemma_first_dot_at(s.drop_first(), i - 1);
    }
}

/// The scaled-number limit of `cs[from..to]` with unit ten to the `k`.
fn unit_limit_value(cs: &Vec<char>, from: usize, to: usize, k: u32) -> (r: u64)
    requires
        from <= to <= cs@.len(),
        k == 3 || k == 4,
    ensures
        r == unit_limit(cs@.subrange(from as int, to as int), k as nat),
{
    let ghost sub = cs@.subrange(from as int, to as int);
    proof {
        lemma_small_pow10();
    }
    let dot = find_dot(cs, from, to);
    proof {
        assert(int_part(sub) =~= cs@.subrange(from as int, dot as int));
        if dot < to {
            assert(frac_part(sub) =~= cs@.subrange(dot + 1, to as int));
        } else {
            assert(frac_part(sub) =~= cs@.subrange(to as int, to as int));
            assert(frac_part(sub) =~= Seq::<char>::empty());
        }
    }
    // integer part
    let iv: u64;
    if dot == from {
        iv = 0;
        proof {
            assert(int_part(sub) =~= Seq::<char>::empty());
        }
    } else {
        match digits_value(cs, from, dot) {
            Some(v) => {
                iv = v;
            },
            None => {
                proof {
                    if all_digits(int_part(sub)) && all_digits(frac_part(sub)) {
                        // the digits overflowed, so the scaled value cannot fit
                        lemma_digits_val_nonneg(int_part(sub));
                        crate::decimal::lemma_pow10_pos(k as nat);
                        lemma_scaled_frac_nonneg(frac_part(sub), k as nat);
                        vstd::arithmetic::mul::lemma_mul_inequality(
                            1,
                            pow10(k as nat),
                            digits_val(int_part(sub)),
                        );
                    }
                }
                return UNLIMITED_LIMIT;
            },
        }
    }
    // fractional part
    let (f_from, f_to): (usize, usize) = if dot < to {
        (dot + 1, to)
    } else {
        (to, to)
    };
    if f_to == f_from && dot == from {
        return UNLIMITED_LIMIT;
    }
    let m: usize = f_to - f_from;
    let fs: u128;
    if m == 0 {
        fs = 0;
        proof {
            assert(digits_val(frac_part(sub)) == 0);
            vstd::arithmetic::mul::lemma_mul_basics(pow10((k as nat - frac_part(sub).len()) as nat));
            assert(scaled_frac(frac_part(sub), k as nat) == 0);
        }
    } else if m <= k as usize {
        match digits_value(cs, f_from, f_to) {
            Some(v) => {
                let ghost f = frac_part(sub);
                proof {
                    assert(digits_val(f) == v);
                    assert(f.len() == m as nat);
                    assert(scaled_frac(f, k as nat) == digits_val(f) * pow10((k - m) as nat));
                }
                let d: usize = k as usize - m;
                if d == 0 {
                    fs = v as u128;
                    proof {
                        vstd::arithmetic::mul::lemma_mul_basics(digits_val(f));
                    }
                } else if d == 1 {
                    fs = (v as u128) * 10;
                } else if d == 2 {
                    fs = (v as u128) * 100;
                } else {
                    proof {
                        assert(d == 3);
                    }
                    fs = (v as u128) * 1000;
                }
                proof {
                    assert(fs as int == scaled_frac(frac_part(sub), k as nat));
                }
            },
            None => {
                proof {
                    if all_digits(frac_part(sub)) {
                        lemma_digits_val_len_bound(frac_part(sub));
                        lemma_pow10_le(frac_part(sub).len(), 4);
                    }
                }
                return UNLIMITED_LIMIT;
            },
        }
    } else {
        // more fractional digits than the unit: truncate, but the tail must
        // still be digits for the text to be a number
        proof {
            assert(frac_part(sub).take(k as int) =~= cs@.subrange(
                f_from as int,
                f_from + k as int,
            ));
        }
        match digits_value(cs, f_from, f_from + k as usize) {
            Some(v) => {
                fs = v as u128;
            },
            None => {
                proof {
                    if all_digits(frac_part(sub)) {
                        assert(all_digits(frac_part(sub).take(k as int)));
                        lemma_digits_val_len_bound(frac_part(sub).take(k as int));
                        lemma_pow10_le(frac_part(sub).take(k as int).len(), 4);
                    }
                }
                return UNLIMITED_LIMIT;
            },
        }
        let mut j: usize = f_from + k as usize;
        while j < f_to
            invariant
                f_from + k as usize <= j <= f_to <= cs@.len(),
                sub == cs@.subrange(from as int, to as int),
                frac_part(sub) == cs@.subrange(f_from as int, f_to as int),
                forall|x: int| 0 <= x < j - f_from ==> is_digit(#[trigger] frac_part(sub)[x]),
            decreases f_to - j,
        {
            let digit_here = char_digit(cs[j]);
            proof {
                assert(frac_part(sub)[j - f_from] == cs@[j as int]);
            }
            if digit_here.is_none() {
                return UNLIMITED_LIMIT;
            }
            j += 1;
        }
    }
    proof {
        assert(is_plain_number(sub));
        assert(iv as int == digits_val(int_part(sub)));
        assert(fs as int == scaled_frac(frac_part(sub), k as nat));
    }
    // combine, watching for overflow past the sentinel's range
    let total: u128 = if k == 3 {
        (iv as u128) * 1000 + fs
    } else {
        (iv as u128) * 10000 + fs
    };
    proof {
        assert(total as int == scaled_val(sub, k as nat));
    }
    if total > u64::MAX as u128 {
        return UNLIMITED_LIMIT;
    }
    total as u64
}

proof fn lemma_pow10_le(a: nat, b: nat)
    requires
        a <= b,
    ensures
        pow10(a) <= pow10(b),
    decreases b,
{
    if a < b {
        lemma_pow10_le(a, (b - 1) as nat);
        crate::decimal::lemma_pow10_pos((b - 1) as nat);
    }
}

proof fn lemma_scaled_frac_nonneg(f: Seq<char>, k: nat)
    requires
        all_digits(f),
    ensures
        scaled_frac(f, k) >= 0,
{
    if f.len() <= k {
        lemma_digits_val_nonneg(f);
        crate::decimal::lemma_pow10_pos((k - f.len()) as nat);
        broadcast use vstd::arithmetic::mul::lemma_mul_nonnegative;

    } else {
        lemma_digits_val_nonneg(f.take(k as int));
    }
}

proof fn lemma_small_pow10()
    ensures
        pow10(0) == 1,
        pow10(1) == 10,
        pow10(2) == 100,
        pow10(3) == 1000,
        pow10(4) == 10000,
{
    assert(pow10(0) == 1);
    assert(pow10(1) == 10);
    assert(pow10(2) == 100);
    assert(pow10(3) == 1000);
    assert(pow10(4) == 10000);
}

// ---------------------------------------------------------------------------
// Percentage strings
// ---------------------------------------------------------------------------
/// Leading whitespace removed.
pub open spec fn trim_front(s: Seq<char>) -> Seq<char>
    decreases s.len(),
{
    if s.len() > 0 && is_space(s[0]) {
        trim_front(s.drop_first())
    } else {
        s
    }
}

/// Trailing whitespace removed.
pub open spec fn trim_back(s: Seq<char>) -> Seq<char>
    decreases s.len(),
{
    if s.len() > 0 && is_space(s.last()) {
        trim_back(s.drop_last())
    } else {
        s
    }
}

/// Whitespace removed from both ends.
pub open spec fn trim(s: Seq<char>) -> Seq<char> {
    trim_back(trim_front(s))
}

/// Trailing percent signs removed.
pub open spec fn strip_pct(s: Seq<char>) -> Seq<char>
    decreases s.len(),
{
    if s.len() > 0 && s.last() == '%' {
        strip_pct(s.drop_last())
    } else {
        s
    }
}

/// Every comma removed, other characters kept in order.
pub open spec fn drop_commas(s: Seq<char>) -> Seq<char>
    decreases s.len(),
{
    if s.len() == 0 {
        s
    } else if s.last() == ',' {
        drop_commas(s.drop_last())
    } else {
        drop_commas(s.drop_last()) + seq![s.last()]
    }
}

/// A raw percentage field cleaned down to a bare numeric literal: trimmed,
/// trailing percent signs stripped, thousands-separator commas removed, and
/// trimmed again.
pub open spec fn clean_percent(s: Seq<char>) -> Seq<char> {
    trim(drop_commas(strip_pct(trim(s))))
}

fn is_space_char(c: char) -> (r: bool)
    ensures
        r == is_space(c),
{
    c == ' ' || c == '\t' || c == '\n' || c == '\r' || c == '\u{B}' || c == '\u{C}'
}

pub(crate) fn copy_range(v: &Vec<char>, from: usize, to: usize) -> (out: Vec<char>)
    requires
        from <= to <= v@.len(),
    ensures
        out@ == v@.subrange(from as int, to as int),
{
    let mut out: Vec<char> = Vec::new();
    let mut x: usize = from;
    while x < to
        invariant
            from <= x <= to <= v@.len(),
            out@ == v@.subrange(from as int, x as int),
        decreases to - x,
    {
        out.push(v[x]);
        proof {
            assert(v@.subrange(from as int, x + 1) =~= v@.subrange(from as int, x as int).push(
                v@[x as int],
            ));
        }
        x += 1;
    }
    out
}

/// Whitespace trimmed from both ends.
fn trim_chars(v: &Vec<char>) -> (out: Vec<char>)
    ensures
        out@ == trim(v@),
{
    let n = v.len();
    proof {
        assert(v@.skip(0) =~= v@);
    }
    let mut i: usize = 0;
    while i < n && is_space_char(v[i])
        invariant
            i <= n,
            n == v@.len(),
            trim_front(v@) == trim_front(v@.skip(i as int)),
        decreases n - i,
    {
        proof {
            assert(v@.skip(i as int)[0] == v@[i as int]);
            assert(v@.skip(i as int).drop_first() =~= v@.skip(i + 1));
        }
        i += 1;
    }
    proof {
        if i == n {
            assert(v@.skip(i as int) =~= Seq::<char>::empty());
        } else {
            assert(v@.skip(i as int)[0] == v@[i as int]);
        }
        assert(trim_front(v@) == v@.skip(i as int));
        assert(v@.skip(i as int) =~= v@.subrange(i as int, n as int));
    }
    let mut j: usize = n;
    while j > i && is_space_char(v[j - 1])
        invariant
            i <= j <= n,
            n == v@.len(),
            trim_front(v@) == v@.subrange(i as int, n as int),
            trim_back(trim_front(v@)) == trim_back(v@.subrange(i as int, j as int)),
        decreases j,
    {
        proof {
            assert(v@.subrange(i as int, j as int).last() == v@[j - 1]);
            assert(v@.subrange(i as int, j as int).drop_last() =~= v@.subrange(i as int, j - 1));
        }
        j -= 1;
    }
    proof {
        if j > i {
            assert(v@.subrange(i as int, j as int).last() == v@[j - 1]);
        }
        assert(trim_back(v@.subrange(i as int, j as int)) == v@.subrange(i as int, j as int));
    }
    copy_range(v, i, j)
}

/// Trailing percent signs stripped.
fn strip_percents(v: &Vec<char>) -> (out: Vec<char>)
    ensures
        out@ == strip_pct(v@),
{
    let n = v.len();
    proof {
        assert(v@.subrange(0, n as int) =~= v@);
    }
    let mut j: usize = n;
    while j > 0 && v[j - 1] == '%'
        invariant
            j <= n,
            n == v@.len(),
            strip_pct(v@) == strip_pct(v@.subrange(0, j as int)),
        decreases j,
    {
        proof {
            assert(v@.subrange(0, j as int).last() == v@[j - 1]);
            assert(v@.subrange(0, j as int).drop_last() =~= v@.subrange(0, j - 1));
        }
        j -= 1;
    }
    proof {
        if j > 0 {
            assert(v@.subrange(0, j as int).last() == v@[j - 1]);
        }
        assert(strip_pct(v@.subrange(0, j as int)) == v@.subrange(0, j as int));
    }
    copy_range(v, 0, j)
}

/// Every comma removed.
fn drop_commas_chars(v: &Vec<char>) -> (out: Vec<char>)
    ensures
        out@ == drop_commas(v@),
{
    let n = v.len();
    let mut out: Vec<char> = Vec::new();
    let mut i: usize = 0;
    while i < n
        invariant
            i <= n,
            n == v@.len(),
            out@ == drop_commas(v@.take(i as int)),
        decreases n - i,
    {
        let c = v[i];
        proof {
            assert(v@.take(i + 1).drop_last() =~= v@.take(i as int));
            assert(v@.take(i + 1).last() == v@[i as int]);
        }
        if c != ',' {
            out.push(c);
            proof {
                assert(out@ =~= drop_commas(v@.take(i as int)) + seq![v@[i as int]]);
            }
        }
        i += 1;
    }
    proof {
        assert(v@.take(n as int) =~= v@);
    }
    out
}

/// Parses a percentage string into an exact decimal.
///
/// The raw field is trimmed, trailing percent signs are stripped,
/// thousands-separator commas are removed, and the rest is trimmed again;
/// whenever that leaves a plain decimal literal in range — optional sign,
/// digits, at most one point — the result is exactly its value, sign and
/// fractional precision preserved. Text that is not numeric yields nothing.
pub fn parse_percent(s: &str) -> (r: Option<Dec>)
    ensures
        is_dec_lit(clean_percent(s@)) ==> r == Some(dec_of_lit(clean_percent(s@))),
        r is Some ==> r.unwrap().wf() && all_dec_alphabet(clean_percent(s@)),
        !all_dec_alphabet(clean_percent(s@)) ==> r is None,
{
    let cs = chars_of(s);
    let t1 = trim_chars(&cs);
    let t2 = strip_percents(&t1);
    let t3 = drop_commas_chars(&t2);
    let t4 = trim_chars(&t3);
    dec_from_chars(&t4)
}

/// Classifies a subscription-status string into a purchase limit.
///
/// The exact open or suspended status means unlimited; a limit prefix
/// followed by a bare integer means that integer; with a thousand or
/// ten-thousand unit suffix the numeric part is scaled and truncated; any
/// other text, including an unparseable numeric part, falls back to the
/// unlimited sentinel rather than zero.
pub fn parse_apply_status_limit(s: &str) -> (r: u64)
    ensures
        r == spec_apply_status_limit(s@),
{
    let cs = chars_of(s);
    if chars_eq4(&cs, '\u{5F00}', '\u{653E}', '\u{7533}', '\u{8D2D}') {
        return UNLIMITED_LIMIT;
    }
    if chars_eq4(&cs, '\u{6682}', '\u{505C}', '\u{7533}', '\u{8D2D}') {
        return UNLIMITED_LIMIT;
    }
    let n = cs.len();
    if n == 0 || cs[0] != '\u{9650}' {
        return UNLIMITED_LIMIT;
    }
    let ghost rest = s@.drop_first();
    proof {
        assert(rest =~= cs@.subrange(1, n as int));
    }
    if n >= 2 && cs[n - 1] == '\u{4E07}' {
        proof {
            assert(rest.drop_last() =~= cs@.subrange(1, n - 1));
        }
        unit_limit_value(&cs, 1, n - 1, 4)
    } else if n >= 2 && cs[n - 1] == '\u{5343}' {
        proof {
            assert(rest.drop_last() =~= cs@.subrange(1, n - 1));
        }
        unit_limit_value(&cs, 1, n - 1, 3)
    } else {
        match digits_value(&cs, 1, n) {
            Some(v) => v,
            None => UNLIMITED_LIMIT,
        }
    }
}

} // verus!
