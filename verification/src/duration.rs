//! The compact duration grammar: an optional sign followed by one or more
//! `unit_value` terms, each a magnitude of one to ten digits and a unit
//! suffix (`h`, `m`, `s`). Terms accumulate by plain summation and the
//! leading sign applies to the whole total.

use vstd::prelude::*;

use crate::chars::{
    chars_vec, digit_val, is_digit_char, is_sign_char, is_unit_char, lemma_trim_noop,
    spec_trim, trim_chars, unit_secs,
};
use crate::error::Error;
use crate::time::{Duration, MAX_DURATION_SECONDS, MILLIS_PER_SECOND};

verus! {

/// Every character of `s` is a decimal digit.
pub open spec fn all_digits(s: Seq<char>) -> bool {
    forall|i: int| 0 <= i < s.len() ==> is_digit_char(s[i])
}

/// The number spelled by a digit sequence, most significant digit first.
pub open spec fn digits_val(s: Seq<char>) -> int
    decreases s.len(),
{
    if s.len() == 0 {
        0
    } else {
        digits_val(s.drop_last()) * 10 + digit_val(s.last())
    }
}

/// Ten to the power `n`.
pub open spec fn pow10(n: nat) -> int
    decreases n,
{
    if n == 0 {
        1
    } else {
        10 * pow10((n - 1) as nat)
    }
}

/// Length of the run of digits that opens `s`.
pub open spec fn digit_run(s: Seq<char>) -> int
    decreases s.len(),
{
    if s.len() > 0 && is_digit_char(s[0]) {
        1 + digit_run(s.drop_first())
    } else {
        0
    }
}

/// The seconds denoted by a whole-string sequence of `unit_value` terms:
/// each term contributes `magnitude * unit_secs`, terms simply add up, and
/// a magnitude longer than ten digits, a missing unit, or any other stray
/// character fails the whole parse.
pub open spec fn terms_secs(s: Seq<char>) -> Option<int>
    decreases s.len(),
{
    if s.len() == 0 {
        Some(0)
    } else {
        let n = digit_run(s);
        if 1 <= n <= 10 && n < s.len() && is_unit_char(s[n]) {
            match terms_secs(s.skip(n + 1)) {
                Some(rest) => Some(digits_val(s.take(n)) * unit_secs(s[n]) + rest),
                None => None,
            }
        } else {
            None
        }
    }
}

/// The signed seconds denoted by an already-trimmed duration string: an
/// optional single leading sign, then at least one `unit_value` term; the
/// sign negates the accumulated total as a whole.
pub open spec fn trimmed_duration_secs(t: Seq<char>) -> Option<int> {
    if t.len() == 0 {
        None
    } else if is_sign_char(t[0]) {
        if t.len() == 1 {
            None
        } else {
            match terms_secs(t.drop_first()) {
                Some(v) => Some(if t[0] == '-' { -v } else { v }),
                None => None,
            }
        }
    } else {
        terms_secs(t)
    }
}

/// The signed seconds denoted by a raw duration string, whitespace at the
/// ends ignored.
pub open spec fn duration_secs_of(s: Seq<char>) -> Option<int> {
    trimmed_duration_secs(spec_trim(s))
}

/// A seconds total that the `Duration` representation can carry.
pub open spec fn duration_in_range(v: int) -> bool {
    -(MAX_DURATION_SECONDS as int) <= v <= MAX_DURATION_SECONDS as int
}

/// A digit string of length `n` spells a value below ten to the `n`.
pub proof fn lemma_digits_val_bound(s: Seq<char>)
    requires
        all_digits(s),
    ensures
        0 <= digits_val(s) < pow10(s.len()),
    decreases s.len(),
{
    if s.len() == 0 {
    } else {
        assert(is_digit_char(s[s.len() - 1]));
        lemma_digits_val_bound(s.drop_last());
    }
}

/// `pow10` is positive.
pub proof fn lemma_pow10_pos(n: nat)
    ensures
        pow10(n) >= 1,
    decreases n,
{
    if n > 0 {
        lemma_pow10_pos((n - 1) as nat);
    }
}

/// `pow10` grows with its exponent.
pub proof fn lemma_pow10_mono(a: nat, b: nat)
    requires
        a <= b,
    ensures
        1 <= pow10(a) <= pow10(b),
    decreases b,
{
    lemma_pow10_pos(a);
    if a < b {
        lemma_pow10_mono(a, (b - 1) as nat);
        lemma_pow10_pos((b - 1) as nat);
    }
}

/// The opening digit run is exactly the first position holding a non-digit.
pub proof fn lemma_digit_run_is(s: Seq<char>, k: int)
    requires
        0 <= k <= s.len(),
        forall|i: int| 0 <= i < k ==> is_digit_char(s[i]),
        k == s.len() || !is_digit_char(s[k]),
    ensures
        digit_run(s) == k,
    decreases k,
{
    if k == 0 {
    } else {
        lemma_digit_run_is(s.drop_first(), k - 1);
    }
}

/// The facts the run length implies about the characters themselves.
pub proof fn lemma_digit_run_facts(s: Seq<char>)
    ensures
        0 <= digit_run(s) <= s.len(),
        forall|i: int| 0 <= i < digit_run(s) ==> is_digit_char(s[i]),
        digit_run(s) == s.len() || !is_digit_char(s[digit_run(s)]),
    decreases s.len(),
{
    if s.len() > 0 && is_digit_char(s[0]) {
        lemma_digit_run_facts(s.drop_first());
        assert forall|i: int| 0 <= i < digit_run(s) implies is_digit_char(s[i]) by {
            if i > 0 {
                assert(is_digit_char(s.drop_first()[i - 1]));
            }
        }
    }
}

/// A valid term sequence denotes a non-negative total.
pub proof fn lemma_terms_nonneg(s: Seq<char>)
    requires
        terms_secs(s) is Some,
    ensures
        terms_secs(s)->Some_0 >= 0,
    decreases s.len(),
{
    if s.len() == 0 {
    } else {
        let n = digit_run(s);
        lemma_terms_nonneg(s.skip(n + 1));
        lemma_digit_run_facts(s);
        assert(all_digits(s.take(n)));
        lemma_digits_val_bound(s.take(n));
        vstd::arithmetic::mul::lemma_mul_nonnegative(digits_val(s.take(n)), unit_secs(s[n]));
    }
}

/// `o` shifted up by the already-accumulated total `a`.
pub open spec fn sum_opt(a: int, o: Option<int>) -> Option<int> {
    match o {
        Some(x) => Some(a + x),
        None => None,
    }
}

/// Whether `c` is a decimal digit of the magnitude grammar.
pub fn is_digit(c: char) -> (b: bool)
    ensures
        b == is_digit_char(c),
{
    '0' <= c && c <= '9'
}

/// Whether `c` is a recognized unit suffix.
pub fn is_unit(c: char) -> (b: bool)
    ensures
        b == is_unit_char(c),
{
    c == 'h' || c == 'm' || c == 's'
}

/// Whether `c` is an explicit sign.
pub fn is_sign(c: char) -> (b: bool)
    ensures
        b == is_sign_char(c),
{
    c == '+' || c == '-'
}

/// The magnitude spelled by a digit string; anything non-numeric or beyond
/// `i64` is an integer-conversion failure.
pub fn parse_value(input: &str) -> (r: Result<i64, Error>)
    ensures
        ({
            let s = input@;
            if s.len() > 0 && all_digits(s) && digits_val(s) <= i64::MAX {
                r matches Ok(v) && v == digits_val(s)
            } else {
                r matches Err(e) && e == Error::ParseIntError
            }
        }),
{
    let v = chars_vec(input);
    let n = v.len();
    if n == 0 {
        return Err(Error::ParseIntError);
    }
    let mut value: i64 = 0;
    let mut k: usize = 0;
    while k < n
        invariant
            n == v@.len(),
            n == input@.len(),
            v@ == input@,
            k <= n,
            all_digits(v@.subrange(0, k as int)),
            0 <= value,
            value == digits_val(v@.subrange(0, k as int)),
        decreases n - k,
    {
        let c = v[k];
        if !is_digit(c) {
            return Err(Error::ParseIntError);
        }
        let d = (c as u32 - '0' as u32) as i64;
        if value > (i64::MAX - d) / 10 {
            proof {
                assert(v@.subrange(0, k + 1).drop_last() =~= v@.subrange(0, k as int));
                assert(digits_val(v@.subrange(0, k + 1)) > i64::MAX);
                if all_digits(v@) {
                    lemma_digits_val_prefix(v@, k + 1);
                }
            }
            return Err(Error::ParseIntError);
        }
        value = value * 10 + d;
        k = k + 1;
        proof {
            assert(v@.subrange(0, k as int).drop_last() =~= v@.subrange(0, k as int - 1));
        }
    }
    proof {
        assert(v@.subrange(0, n as int) =~= v@);
    }
    Ok(value)
}

/// A digit prefix never spells more than the whole digit string.
pub proof fn lemma_digits_val_prefix(s: Seq<char>, m: int)
    requires
        all_digits(s),
        0 <= m <= s.len(),
    ensures
        digits_val(s.take(m)) <= digits_val(s),
    decreases s.len() - m,
{
    if m == s.len() {
        assert(s.take(m) =~= s);
    } else {
        lemma_digits_val_prefix(s, m + 1);
        assert(s.take(m + 1).drop_last() =~= s.take(m));
        assert(all_digits(s.take(m)));
        lemma_digits_val_bound(s.take(m));
        assert(is_digit_char(s[m]));
    }
}

/// The seconds of one unit suffix given alone, as the grammar's tables
/// have it: `h`, `m` or `s`.
pub fn parse_unit(input: &str) -> (r: Result<i64, Error>)
    ensures
        ({
            let s = input@;
            if s.len() == 1 && is_unit_char(s[0]) {
                r matches Ok(v) && v == unit_secs(s[0])
            } else {
                r matches Err(e) && e == Error::ParseDurationError
            }
        }),
{
    let v = chars_vec(input);
    if v.len() != 1 {
        return Err(Error::ParseDurationError);
    }
    let c = v[0];
    if c == 'h' {
        Ok(3600)
    } else if c == 'm' {
        Ok(60)
    } else if c == 's' {
        Ok(1)
    } else {
        Err(Error::ParseDurationError)
    }
}

/// The multiplier of an optional sign given alone: empty or `+` is plus
/// one, `-` is minus one.
pub fn parse_sign(input: &str) -> (r: Result<i64, Error>)
    ensures
        ({
            let s = input@;
            if s.len() == 0 {
                r matches Ok(v) && v == 1
            } else if s.len() == 1 && s[0] == '+' {
                r matches Ok(v) && v == 1
            } else if s.len() == 1 && s[0] == '-' {
                r matches Ok(v) && v == -1
            } else {
                r matches Err(e) && e == Error::ParseDurationError
            }
        }),
{
    let v = chars_vec(input);
    if v.len() == 0 {
        Ok(1)
    } else if v.len() == 1 && v[0] == '+' {
        Ok(1)
    } else if v.len() == 1 && v[0] == '-' {
        Ok(-1)
    } else {
        Err(Error::ParseDurationError)
    }
}

/// The accumulated seconds of the term sequence starting at `start`;
/// failure either for a grammar violation or because the running total
/// left `i64`.
fn parse_terms_chars(t: &Vec<char>, start: usize) -> (r: Result<i64, Error>)
    requires
        start <= t@.len(),
    ensures
        r matches Ok(total) ==> 0 <= total && terms_secs(t@.skip(start as int)) == Some(
            total as int,
        ),
        r matches Err(e) ==> e == Error::ParseDurationError && (terms_secs(
            t@.skip(start as int),
        ) is None || terms_secs(t@.skip(start as int))->Some_0 > i64::MAX),
{
    let n = t.len();
    let mut i: usize = start;
    let mut total: i64 = 0;
    while i < n
        invariant
            start <= i <= n,
            n == t@.len(),
            0 <= total,
            sum_opt(total as int, terms_secs(t@.skip(i as int))) == terms_secs(
                t@.skip(start as int),
            ),
        decreases n - i,
    {
        let ghost s = t@.skip(i as int);
        let mut j: usize = i;
        while j < n && is_digit(t[j])
            invariant
                i <= j <= n,
                n == t@.len(),
                forall|k: int| i <= k < j ==> is_digit_char(t@[k]),
            decreases n - j,
        {
            j = j + 1;
        }
        let run = j - i;
        proof {
            assert forall|k: int| 0 <= k < run implies is_digit_char(s[k]) by {
                assert(is_digit_char(t@[i + k]));
            }
            lemma_digit_run_is(s, run as int);
        }
        if run == 0 || run > 10 {
            return Err(Error::ParseDurationError);
        }
        if j == n {
            return Err(Error::ParseDurationError);
        }
        let u = t[j];
        if !(u == 'h' || u == 'm' || u == 's') {
            proof {
                assert(s[run as int] == t@[j as int]);
            }
            return Err(Error::ParseDurationError);
        }
        // the magnitude, most significant digit first
        let mut value: i64 = 0;
        let mut k: usize = i;
        proof {
            assert(s.take(run as int) =~= t@.subrange(i as int, j as int));
            lemma_pow10_mono(0, 10);
        }
        while k < j
            invariant
                i <= k <= j <= n,
                n == t@.len(),
                j - i <= 10,
                forall|x: int| i <= x < j ==> is_digit_char(t@[x]),
                0 <= value,
                value == digits_val(t@.subrange(i as int, k as int)),
                value < pow10((k - i) as nat),
            decreases j - k,
        {
            let c = t[k];
            proof {
                lemma_pow10_mono((k - i + 1) as nat, 10);
                assert(t@.subrange(i as int, k + 1).drop_last() =~= t@.subrange(
                    i as int,
                    k as int,
                ));
                assert(pow10((k - i + 1) as nat) == 10 * pow10((k - i) as nat));
                assert(pow10(10) == 10_000_000_000) by {
                    reveal_with_fuel(pow10, 11);
                }
            }
            let d = (c as u32 - '0' as u32) as i64;
            value = value * 10 + d;
            k = k + 1;
        }
        proof {
            lemma_pow10_mono((j - i) as nat, 10);
            assert(pow10(10) == 10_000_000_000) by {
                reveal_with_fuel(pow10, 11);
            }
            assert(value == digits_val(s.take(run as int)));
        }
        // one term: magnitude times the unit's seconds
        let term: i64 = if u == 'h' {
            value * 3600
        } else if u == 'm' {
            value * 60
        } else {
            value
        };
        proof {
            assert(s[run as int] == t@[j as int]);
            assert(term == digits_val(s.take(run as int)) * unit_secs(s[run as int]));
            assert(s.skip(run + 1) =~= t@.skip(j + 1));
            if terms_secs(s.skip(run + 1)) is Some {
                lemma_terms_nonneg(s.skip(run + 1));
            }
        }
        if term > i64::MAX - total {
            return Err(Error::ParseDurationError);
        }
        total = total + term;
        i = j + 1;
    }
    proof {
        assert(t@.skip(n as int).len() == 0);
    }
    Ok(total)
}

/// The signed seconds of an already-trimmed duration string, when the
/// total fits the `Duration` range.
pub fn parse_trimmed_duration_seconds(t: &Vec<char>) -> (r: Result<i64, Error>)
    ensures
        ({
            match trimmed_duration_secs(t@) {
                Some(v) => {
                    if duration_in_range(v) {
                        r matches Ok(x) && x == v
                    } else {
                        r matches Err(e) && e == Error::ParseDurationError
                    }
                },
                None => r matches Err(e) && e == Error::ParseDurationError,
            }
        }),
{
    let n = t.len();
    if n == 0 {
        return Err(Error::ParseDurationError);
    }
    let c0 = t[0];
    let mut start: usize = 0;
    let mut neg: bool = false;
    if c0 == '+' || c0 == '-' {
        neg = c0 == '-';
        start = 1;
        if n == 1 {
            return Err(Error::ParseDurationError);
        }
    }
    proof {
        if start == 1 {
            assert(t@.skip(1) =~= t@.drop_first());
        } else {
            assert(t@.skip(0) =~= t@);
        }
    }
    let total = match parse_terms_chars(t, start) {
        Ok(x) => x,
        Err(e) => { return Err(e) },
    };
    if total > MAX_DURATION_SECONDS {
        return Err(Error::ParseDurationError);
    }
    if neg {
        Ok(-total)
    } else {
        Ok(total)
    }
}

/// The signed time span spelled by a compact duration string such as
/// `1h30m` or `-2h`: whitespace at the ends is ignored, terms accumulate
/// by summation, the single leading sign negates the whole total, and the
/// string must be consumed entirely.
pub fn parse_duration(input: &str) -> (r: Result<Duration, Error>)
    ensures
        ({
            match duration_secs_of(input@) {
                Some(v) => {
                    if duration_in_range(v) {
                        r matches Ok(d) && d.millis == v * (MILLIS_PER_SECOND as int)
                    } else {
                        r matches Err(e) && e == Error::ParseDurationError
                    }
                },
                None => r matches Err(e) && e == Error::ParseDurationError,
            }
        }),
{
    let v = chars_vec(input);
    let t = trim_chars(&v);
    match parse_trimmed_duration_seconds(&t) {
        Ok(secs) => Ok(Duration::seconds(secs)),
        Err(e) => Err(e),
    }
}

/// A digit run is unaffected by appended characters, as long as the run
/// already ends strictly before the end of the first sequence.
proof fn lemma_digit_run_append(s: Seq<char>, t: Seq<char>)
    requires
        digit_run(s) < s.len(),
    ensures
        digit_run(s + t) == digit_run(s),
{
    lemma_digit_run_facts(s);
    let k = digit_run(s);
    assert forall|i: int| 0 <= i < k implies is_digit_char((s + t)[i]) by {
        assert((s + t)[i] == s[i]);
    }
    assert((s + t)[k] == s[k]);
    lemma_digit_run_is(s + t, k);
}

/// Terms accumulate by plain summation: the total of two term sequences
/// laid end to end is the sum of their totals. In particular repeating a
/// unit (`1h1h`) adds exactly as writing the merged magnitude (`2h`) does.
pub proof fn lemma_terms_concat(a: Seq<char>, b: Seq<char>, x: int, y: int)
    requires
        terms_secs(a) == Some(x),
        terms_secs(b) == Some(y),
    ensures
        terms_secs(a + b) == Some(x + y),
    decreases a.len(),
{
    if a.len() == 0 {
        assert(a + b =~= b);
    } else {
        let n = digit_run(a);
        lemma_digit_run_append(a, b);
        assert((a + b).take(n) =~= a.take(n));
        assert((a + b)[n] == a[n]);
        assert((a + b).skip(n + 1) =~= a.skip(n + 1) + b);
        let rest = terms_secs(a.skip(n + 1))->Some_0;
        lemma_terms_concat(a.skip(n + 1), b, rest, y);
    }
}

/// A valid term sequence opens with a digit and closes with a unit suffix,
/// so it carries no whitespace at either end.
pub proof fn lemma_terms_ends(t: Seq<char>)
    requires
        terms_secs(t) is Some,
        t.len() > 0,
    ensures
        is_digit_char(t[0]),
        is_unit_char(t.last()),
    decreases t.len(),
{
    let n = digit_run(t);
    lemma_digit_run_facts(t);
    if n + 1 == t.len() {
        assert(t.last() == t[n]);
    } else {
        lemma_terms_ends(t.skip(n + 1));
        assert(t.skip(n + 1).last() == t.last());
        assert(t.skip(n + 1)[0] == t[n + 1]);
    }
}

/// The single leading sign negates the accumulated total as a whole:
/// prefixing a valid term sequence with `-` yields exactly the negated
/// unsigned reading.
pub proof fn lemma_sign_distributes(t: Seq<char>, v: int)
    requires
        terms_secs(t) == Some(v),
        t.len() > 0,
    ensures
        duration_secs_of(seq!['-'] + t) == Some(-v),
        duration_secs_of(t) == Some(v),
{
    lemma_terms_ends(t);
    let m = seq!['-'] + t;
    assert(m[0] == '-');
    assert(m.last() == t.last());
    lemma_trim_noop(m);
    lemma_trim_noop(t);
    assert(m.drop_first() =~= t);
}

/// Full consumption: one stray character after a valid term sequence
/// invalidates the whole parse, whatever the character is.
pub proof fn lemma_trailing_char_invalid(t: Seq<char>, c: char)
    requires
        terms_secs(t) is Some,
    ensures
        terms_secs(t.push(c)) is None,
    decreases t.len(),
{
    if t.len() == 0 {
        assert(t.push(c) =~= seq![c]);
        if is_digit_char(c) {
            lemma_digit_run_is(seq![c], 1);
        } else {
            lemma_digit_run_is(seq![c], 0);
        }
    } else {
        let n = digit_run(t);
        lemma_digit_run_facts(t);
        assert(t.push(c) =~= t + seq![c]);
        lemma_digit_run_append(t, seq![c]);
        assert((t.push(c)).take(n) =~= t.take(n));
        assert((t.push(c))[n] == t[n]);
        assert((t.push(c)).skip(n + 1) =~= t.skip(n + 1).push(c));
        lemma_trailing_char_invalid(t.skip(n + 1), c);
    }
}

} // verus!
