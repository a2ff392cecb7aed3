//! Small verified string utilities: decimal formatting, suffix tests and
//! substring replacement, each pinned to a spec-level definition.

use vstd::prelude::*;
use vstd::string::StrSliceExecFns;
use vstd::string::StringExecFns;

verus! {

/// The character of one decimal digit.
pub open spec fn spec_digit_char(d: int) -> char {
    if d == 0 {
        '0'
    } else if d == 1 {
        '1'
    } else if d == 2 {
        '2'
    } else if d == 3 {
        '3'
    } else if d == 4 {
        '4'
    } else if d == 5 {
        '5'
    } else if d == 6 {
        '6'
    } else if d == 7 {
        '7'
    } else if d == 8 {
        '8'
    } else {
        '9'
    }
}

/// The decimal notation of a non-negative number, without leading zeros
/// (just "0" for zero).
pub open spec fn spec_decimal(n: int) -> Seq<char>
    decreases n,
{
    if n < 10 {
        seq![spec_digit_char(n)]
    } else {
        spec_decimal(n / 10).push(spec_digit_char(n % 10))
    }
}

/// The decimal notation of a signed number: a minus sign before the digits
/// of its magnitude when it is negative.
pub open spec fn spec_decimal_signed(n: int) -> Seq<char> {
    if n < 0 {
        seq!['-'] + spec_decimal(-n)
    } else {
        spec_decimal(n)
    }
}

/// `s` ends with `suffix`.
pub open spec fn spec_ends_with(s: Seq<char>, suffix: Seq<char>) -> bool {
    s.len() >= suffix.len() && s.subrange(s.len() - suffix.len(), s.len() as int) == suffix
}

/// Index of the first occurrence of `pat` in `s` at or after `from`, or the
/// length of `s` when there is none.  `pat` must not be empty.
pub open spec fn spec_find_sub(s: Seq<char>, pat: Seq<char>, from: int) -> int
    decreases s.len() + 1 - from,
{
    if from < 0 || from + pat.len() > s.len() {
        s.len() as int
    } else if s.subrange(from, from + pat.len() as int) == pat {
        from
    } else {
        spec_find_sub(s, pat, from + 1)
    }
}

/// `s` with every non-overlapping occurrence of `pat` replaced by `to`,
/// scanning from the left, as `str::replace` computes it for a non-empty
/// pattern.
pub open spec fn spec_replace(s: Seq<char>, pat: Seq<char>, to: Seq<char>) -> Seq<char>
    decreases s.len(),
{
    if pat.len() == 0 {
        s
    } else {
        let j0 = spec_find_sub(s, pat, 0);
        let j = if 0 <= j0 && j0 + pat.len() <= s.len() {
            j0
        } else {
            s.len() as int
        };
        if j == s.len() {
            s
        } else {
            s.subrange(0, j) + to + spec_replace(s.subrange(j + pat.len(), s.len() as int), pat, to)
        }
    }
}

/// A decimal digit.
pub open spec fn spec_is_digit(c: char) -> bool {
    48 <= c as u32 <= 57
}

/// Whether the template `t` matches `s` at position `i`: each template
/// character must equal the subject's, except a dot, which matches any
/// character.
pub open spec fn spec_tmatch(s: Seq<char>, i: int, t: Seq<char>) -> bool {
    &&& 0 <= i
    &&& i + t.len() <= s.len()
    &&& forall|k: int| 0 <= k < t.len() ==> (t[k] == '.' || s[i + k] == #[trigger] t[k])
}

/// Index of the first position at or after `from` where the template
/// matches; the length of `s` when there is none.
pub open spec fn spec_find_t(s: Seq<char>, t: Seq<char>, from: int) -> int
    decreases s.len() + 1 - from,
{
    if from < 0 || from + t.len() > s.len() {
        s.len() as int
    } else if spec_tmatch(s, from, t) {
        from
    } else {
        spec_find_t(s, t, from + 1)
    }
}

/// The end of the digit run starting at `from`: the first index at or after
/// it holding no digit.
pub open spec fn spec_digit_run_end(s: Seq<char>, from: int) -> int
    decreases s.len() - from,
{
    if from < 0 || from >= s.len() {
        s.len() as int
    } else if !spec_is_digit(s[from]) {
        from
    } else {
        spec_digit_run_end(s, from + 1)
    }
}

/// The number a digit string denotes, most significant digit first.
pub open spec fn spec_digits_value(s: Seq<char>) -> int
    decreases s.len(),
{
    if s.len() == 0 {
        0
    } else {
        spec_digits_value(s.drop_last()) * 10 + (s.last() as u32 - 48)
    }
}

/// A digit string's value is non-negative and grows with its length.
pub proof fn lemma_digits_extend(s: Seq<char>, k: int)
    requires
        forall|i: int| 0 <= i < s.len() ==> spec_is_digit(#[trigger] s[i]),
        0 <= k <= s.len(),
    ensures
        0 <= spec_digits_value(s.subrange(0, k)) <= spec_digits_value(s),
    decreases s.len(),
{
    if s.len() == 0 {
        assert(s.subrange(0, k) =~= s);
    } else if k == s.len() {
        assert(s.subrange(0, k) =~= s);
        lemma_digits_extend(s.drop_last(), s.len() - 1);
        assert(s.drop_last().subrange(0, s.len() - 1) =~= s.drop_last());
    } else {
        lemma_digits_extend(s.drop_last(), k);
        assert(s.drop_last().subrange(0, k) =~= s.subrange(0, k));
    }
}

/// Whether the template matches at `i`, as [`spec_tmatch`] defines it.
pub fn tmatch_at(s: &str, n: usize, i: usize, t: &str, m: usize) -> (r: bool)
    requires
        n == s@.len(),
        m == t@.len(),
    ensures
        r == spec_tmatch(s@, i as int, t@),
{
    if i > n || m > n - i {
        return false;
    }
    let mut k: usize = 0;
    while k < m
        invariant
            n == s@.len(),
            m == t@.len(),
            i + m <= n,
            k <= m,
            forall|j: int| 0 <= j < k ==> (t@[j] == '.' || s@[i + j] == #[trigger] t@[j]),
        decreases m - k,
    {
        let tc = t.get_char(k);
        if tc != '.' && s.get_char(i + k) != tc {
            return false;
        }
        k = k + 1;
    }
    true
}

/// The first position at or after `from` where the template matches, as
/// [`spec_find_t`] defines it.
pub fn find_template(s: &str, n: usize, t: &str, m: usize, from: usize) -> (r: usize)
    requires
        n == s@.len(),
        m == t@.len(),
        from <= n,
    ensures
        r == spec_find_t(s@, t@, from as int),
        from <= r <= n,
{
    if m > n {
        return n;
    }
    let mut i: usize = from;
    while i <= n - m
        invariant
            m <= n,
            n == s@.len(),
            m == t@.len(),
            from <= i <= n,
            spec_find_t(s@, t@, from as int) == spec_find_t(s@, t@, i as int),
        decreases n - i,
    {
        if tmatch_at(s, n, i, t, m) {
            return i;
        }
        i = i + 1;
    }
    n
}

/// The end of the digit run starting at `from`, as [`spec_digit_run_end`]
/// defines it.
pub fn digit_run_end(s: &str, n: usize, from: usize) -> (r: usize)
    requires
        n == s@.len(),
        from <= n,
    ensures
        r == spec_digit_run_end(s@, from as int),
        from <= r <= n,
{
    let mut i: usize = from;
    while i < n
        invariant
            n == s@.len(),
            from <= i <= n,
            spec_digit_run_end(s@, from as int) == spec_digit_run_end(s@, i as int),
        decreases n - i,
    {
        let c = s.get_char(i) as u32;
        if c < 48 || c > 57 {
            return i;
        }
        i = i + 1;
    }
    n
}

/// The value of the digit run `s[from..to]`, which must fit in `u32`.
pub fn digits_u32(s: &str, n: usize, from: usize, to: usize) -> (r: u32)
    requires
        n == s@.len(),
        from <= to <= n,
        forall|k: int| from <= k < to ==> spec_is_digit(#[trigger] s@[k]),
        spec_digits_value(s@.subrange(from as int, to as int)) <= u32::MAX,
    ensures
        r as int == spec_digits_value(s@.subrange(from as int, to as int)),
{
    let ghost digits = s@.subrange(from as int, to as int);
    let mut value: u32 = 0;
    let mut i: usize = from;
    while i < to
        invariant
            n == s@.len(),
            from <= i <= to <= n,
            digits == s@.subrange(from as int, to as int),
            forall|k: int| from <= k < to ==> spec_is_digit(#[trigger] s@[k]),
            spec_digits_value(digits) <= u32::MAX,
            value as int == spec_digits_value(s@.subrange(from as int, i as int)),
        decreases to - i,
    {
        proof {
            assert(forall|k: int|
                0 <= k < digits.len() ==> spec_is_digit(#[trigger] digits[k]) && digits[k]
                    == s@[from + k]);
            assert(digits.subrange(0, i + 1 - from) =~= s@.subrange(from as int, i + 1));
            lemma_digits_extend(digits, i + 1 - from);
            assert(s@.subrange(from as int, i + 1).drop_last() =~= s@.subrange(
                from as int,
                i as int,
            ));
        }
        let c = s.get_char(i) as u32;
        value = value * 10 + (c - 48);
        i = i + 1;
    }
    value
}

/// Whether two string slices hold the same characters.
pub fn str_eq(a: &str, b: &str) -> (r: bool)
    ensures
        r == (a@ == b@),
{
    let sa: String = a.to_owned();
    let sb: String = b.to_owned();
    sa == sb
}

/// The one-character string of a decimal digit.
fn digit_str(d: u64) -> (r: &'static str)
    requires
        d < 10,
    ensures
        r@ =~= seq![spec_digit_char(d as int)],
{
    proof {
        reveal_strlit("0");
        reveal_strlit("1");
        reveal_strlit("2");
        reveal_strlit("3");
        reveal_strlit("4");
        reveal_strlit("5");
        reveal_strlit("6");
        reveal_strlit("7");
        reveal_strlit("8");
        reveal_strlit("9");
    }
    if d == 0 {
        "0"
    } else if d == 1 {
        "1"
    } else if d == 2 {
        "2"
    } else if d == 3 {
        "3"
    } else if d == 4 {
        "4"
    } else if d == 5 {
        "5"
    } else if d == 6 {
        "6"
    } else if d == 7 {
        "7"
    } else if d == 8 {
        "8"
    } else {
        "9"
    }
}

/// The decimal notation of `n`, as [`spec_decimal`] defines it.
pub fn u64_to_string(n: u64) -> (r: String)
    ensures
        r@ == spec_decimal(n as int),
    decreases n,
{
    if n < 10 {
        let r: String = digit_str(n).to_owned();
        proof {
            assert(r@ =~= spec_decimal(n as int));
        }
        r
    } else {
        let mut r = u64_to_string(n / 10);
        r.append(digit_str(n % 10));
        proof {
            assert(r@ =~= spec_decimal(n as int));
        }
        r
    }
}

/// The decimal notation of a signed `n`, as [`spec_decimal_signed`] defines
/// it.
pub fn i64_to_string(n: i64) -> (r: String)
    ensures
        r@ == spec_decimal_signed(n as int),
{
    if n >= 0 {
        u64_to_string(n as u64)
    } else {
        let magnitude: u64 = if n == i64::MIN {
            9223372036854775808u64
        } else {
            (-n) as u64
        };
        let mut r: String = "-".to_owned();
        r.append(u64_to_string(magnitude).as_str());
        proof {
            reveal_strlit("-");
            assert(r@ =~= spec_decimal_signed(n as int));
        }
        r
    }
}

/// Whether `s` ends with `suffix`, as [`spec_ends_with`] defines it.
pub fn ends_with(s: &str, suffix: &str) -> (r: bool)
    ensures
        r == spec_ends_with(s@, suffix@),
{
    let n = s.unicode_len();
    let m = suffix.unicode_len();
    if m > n {
        return false;
    }
    let tail = s.substring_char(n - m, n);
    str_eq(tail, suffix)
}

/// Index of the first occurrence of `pat` in `s` at or after `from`, as
/// [`spec_find_sub`] defines it.
fn find_sub(s: &str, n: usize, pat: &str, m: usize, from: usize) -> (r: usize)
    requires
        n == s@.len(),
        m == pat@.len(),
        m > 0,
        from <= n,
    ensures
        r == spec_find_sub(s@, pat@, from as int),
        from <= r <= n,
        r + m <= n || r == n,
{
    if m > n {
        return n;
    }
    let mut i: usize = from;
    while i <= n - m
        invariant
            m <= n,
            n == s@.len(),
            m == pat@.len(),
            m > 0,
            from <= i <= n,
            spec_find_sub(s@, pat@, from as int) == spec_find_sub(s@, pat@, i as int),
        decreases n - i,
    {
        let window = s.substring_char(i, i + m);
        if str_eq(window, pat) {
            return i;
        }
        i = i + 1;
    }
    n
}

/// `s` with every occurrence of the non-empty `pat` replaced by `to`, as
/// [`spec_replace`] defines it.
pub fn replace(s: &str, pat: &str, to: &str) -> (r: String)
    requires
        pat@.len() > 0,
    ensures
        r@ == spec_replace(s@, pat@, to@),
{
    let m = pat.unicode_len();
    let mut out = String::new();
    let mut rest: &str = s;
    proof {
        assert(out@ + spec_replace(rest@, pat@, to@) =~= spec_replace(s@, pat@, to@));
    }
    loop
        invariant
            m == pat@.len(),
            m > 0,
            out@ + spec_replace(rest@, pat@, to@) == spec_replace(s@, pat@, to@),
        ensures
            out@ + spec_replace(rest@, pat@, to@) == spec_replace(s@, pat@, to@),
            spec_replace(rest@, pat@, to@) == rest@,
        decreases rest@.len(),
    {
        let rn = rest.unicode_len();
        let j = find_sub(rest, rn, pat, m, 0);
        if j == rn {
            break;
        }
        let ghost rem = rest@;
        out.append(rest.substring_char(0, j));
        out.append(to);
        let next: &str = rest.substring_char(j + m, rn);
        proof {
            assert(spec_replace(rem, pat@, to@) == rem.subrange(0, j as int) + to@ + spec_replace(
                next@,
                pat@,
                to@,
            ));
        }
        rest = next;
    }
    out.append(rest);
    proof {
        assert(out@ =~= spec_replace(s@, pat@, to@));
    }
    out
}

} // verus!
