//! Verified text utilities: decimal parsing and rendering, prefix / suffix /
//! substring tests on character sequences, and single-character pushes.

use vstd::prelude::*;

verus! {

/// True of the ten ASCII decimal digits.
pub open spec fn is_digit_char(c: char) -> bool {
    '0' <= c && c <= '9'
}

/// Numeric value of one digit character.
pub open spec fn digit_val(c: char) -> int {
    c as int - '0' as int
}

/// True when every character of `s` is a decimal digit.
pub open spec fn all_digits(s: Seq<char>) -> bool {
    forall|i: int| 0 <= i < s.len() ==> is_digit_char(#[trigger] s[i])
}

/// The number written by a digit string, most significant digit first.
pub open spec fn digits_value(s: Seq<char>) -> int
    decreases s.len(),
{
    if s.len() == 0 {
        0
    } else {
        digits_value(s.drop_last()) * 10 + digit_val(s.last())
    }
}

pub proof fn lemma_digits_value_nonneg(s: Seq<char>)
    requires
        all_digits(s),
    ensures
        digits_value(s) >= 0,
    decreases s.len(),
{
    if s.len() > 0 {
        assert(all_digits(s.drop_last())) by {
            assert(forall|i: int|
                0 <= i < s.drop_last().len() ==> s.drop_last()[i] == #[trigger] s[i]);
        }
        lemma_digits_value_nonneg(s.drop_last());
    }
}

/// Reading more digits never shrinks the value.
pub proof fn lemma_digits_value_prefix(s: Seq<char>, k: int)
    requires
        all_digits(s),
        0 <= k <= s.len(),
    ensures
        digits_value(s.take(k)) <= digits_value(s),
    decreases s.len(),
{
    if k < s.len() {
        assert(all_digits(s.drop_last())) by {
            assert(forall|i: int|
                0 <= i < s.drop_last().len() ==> s.drop_last()[i] == #[trigger] s[i]);
        }
        assert(s.drop_last().take(k) =~= s.take(k));
        lemma_digits_value_prefix(s.drop_last(), k);
        lemma_digits_value_nonneg(s.drop_last());
        assert(digit_val(s.last()) >= 0);
    } else {
        assert(s.take(k) =~= s);
    }
}

/// What `str::parse::<u32>` returns: an optional leading `+`, then one or
/// more digits, provided the value fits.
pub open spec fn spec_parse_u32(s: Seq<char>) -> Option<u32> {
    let digits = if s.len() > 0 && s[0] == '+' {
        s.skip(1)
    } else {
        s
    };
    if digits.len() > 0 && all_digits(digits) && digits_value(digits) <= u32::MAX {
        Some(digits_value(digits) as u32)
    } else {
        None
    }
}

/// What `str::parse::<i32>` returns: an optional sign, then one or more
/// digits, provided the value fits.
pub open spec fn spec_parse_i32(s: Seq<char>) -> Option<i32> {
    if s.len() > 0 && s[0] == '-' {
        let digits = s.skip(1);
        if digits.len() > 0 && all_digits(digits) && -digits_value(digits) >= i32::MIN {
            Some((-digits_value(digits)) as i32)
        } else {
            None
        }
    } else {
        let digits = if s.len() > 0 && s[0] == '+' {
            s.skip(1)
        } else {
            s
        };
        if digits.len() > 0 && all_digits(digits) && digits_value(digits) <= i32::MAX {
            Some(digits_value(digits) as i32)
        } else {
            None
        }
    }
}

/// Reads an unsigned digit string `s[from..]` into a number, or `None` on a
/// non-digit, an empty range, or overflow past `bound` (a `u32` or `i32`
/// limit handed in by the callers below).
fn parse_digits(s: &str, from: usize, bound: u64) -> (r: Option<u64>)
    requires
        from <= s@.len() <= usize::MAX,
        10 <= bound && bound <= 0x1_0000_0000,
    ensures
        ({
            let digits = s@.skip(from as int);
            match r {
                Some(v) => digits.len() > 0 && all_digits(digits) && digits_value(digits) == v
                    && v <= bound,
                None => !(digits.len() > 0 && all_digits(digits) && digits_value(digits)
                    <= bound),
            }
        }),
{
    let ghost digits = s@.skip(from as int);
    let n = s.unicode_len();
    if from >= n {
        return None;
    }
    let mut acc: u64 = 0;
    let mut i: usize = from;
    while i < n
        invariant
            from <= i <= n,
            n == s@.len(),
            digits == s@.skip(from as int),
            all_digits(digits.take(i - from)),
            acc == digits_value(digits.take(i - from)),
            acc <= bound,
            10 <= bound && bound <= 0x1_0000_0000,
        decreases n - i,
    {
        let c = s.get_char(i);
        if !(c >= '0' && c <= '9') {
            assert(digits[i - from] == c);
            assert(!all_digits(digits));
            return None;
        }
        let d: u64 = (c as u32 as u64) - ('0' as u32 as u64);
        assert(d == digit_val(c));
        let ghost prev = digits.take(i - from);
        assert(digits.take(i - from + 1).drop_last() =~= prev);
        assert(digits.take(i - from + 1).last() == c);
        if acc > (bound - d) / 10 {
            // the value up to and including this digit already exceeds the
            // bound, so the whole string does too
            assert(acc * 10 + d > bound) by {
                assert(acc >= (bound - d) / 10 + 1);
                assert(acc * 10 >= ((bound - d) / 10 + 1) * 10) by (nonlinear_arith)
                    requires
                        acc >= (bound - d) / 10 + 1,
                ;
                assert(((bound - d) / 10 + 1) * 10 > bound - d) by {
                    assert(((bound - d) / 10) * 10 + (bound - d) % 10 == (bound - d)) by (nonlinear_arith);
                    assert(((bound - d) / 10 + 1) * 10 == ((bound - d) / 10) * 10 + 10) by (nonlinear_arith);
                }
            }
            proof {
                assert(digits_value(digits.take(i - from + 1)) == acc * 10 + d);
                if all_digits(digits) && digits_value(digits) <= bound {
                    lemma_digits_value_prefix(digits, i - from + 1);
                }
            }
            return None;
        }
        assert(acc * 10 + d <= bound) by {
            assert(acc * 10 <= ((bound - d) / 10) * 10) by (nonlinear_arith)
                requires
                    acc <= (bound - d) / 10,
            ;
            assert(((bound - d) / 10) * 10 <= bound - d) by (nonlinear_arith);
        }
        acc = acc * 10 + d;
        i = i + 1;
    }
    assert(digits.take(i - from) =~= digits);
    Some(acc)
}

/// What `str::parse::<u32>` returns on `s`.
pub fn parse_u32(s: &str) -> (r: Option<u32>)
    ensures
        r == spec_parse_u32(s@),
{
    let n = s.unicode_len();
    if n == 0 {
        return None;
    }
    let first = s.get_char(0);
    let from: usize = if first == '+' {
        1
    } else {
        0
    };
    proof {
        assert(s@.skip(0) =~= s@);
    }
    match parse_digits(s, from, u32::MAX as u64) {
        Some(v) => {
            assert(v <= u32::MAX);
            Some(v as u32)
        },
        None => None,
    }
}

/// What `str::parse::<i32>` returns on `s`.
pub fn parse_i32(s: &str) -> (r: Option<i32>)
    ensures
        r == spec_parse_i32(s@),
{
    let n = s.unicode_len();
    if n == 0 {
        return None;
    }
    let first = s.get_char(0);
    if first == '-' {
        match parse_digits(s, 1, (i32::MAX as u64) + 1) {
            Some(v) => {
                assert(-(v as int) >= i32::MIN);
                let r = (0 - (v as i64)) as i32;
                assert(r as int == -(v as int));
                Some(r)
            },
            None => None,
        }
    } else {
        let from: usize = if first == '+' {
            1
        } else {
            0
        };
        proof {
            assert(s@.skip(0) =~= s@);
        }
        match parse_digits(s, from, i32::MAX as u64) {
            Some(v) => Some(v as i32),
            None => None,
        }
    }
}

/// The decimal rendering of a number, most significant digit first.
pub open spec fn spec_u64_digits(n: int) -> Seq<char>
    decreases n,
{
    if n < 10 {
        seq![spec_digit_char(n)]
    } else {
        spec_u64_digits(n / 10).push(spec_digit_char(n % 10))
    }
}

/// The character for one digit value; `'0'` outside the digit range.
pub open spec fn spec_digit_char(d: int) -> char {
    if d == 1 {
        '1'
    } else if d == 2 {
        '2'
    } else if d == 3 {
        '3'
    } else if d == 4 {
        '4'
    } else if d == 5 {
        '5'
    } else if d == 6 {
        '6'
    } else if d == 7 {
        '7'
    } else if d == 8 {
        '8'
    } else if d == 9 {
        '9'
    } else {
        '0'
    }
}

fn digit_char(d: u64) -> (c: char)
    requires
        d < 10,
    ensures
        c == spec_digit_char(d as int),
{
    if d == 1 {
        '1'
    } else if d == 2 {
        '2'
    } else if d == 3 {
        '3'
    } else if d == 4 {
        '4'
    } else if d == 5 {
        '5'
    } else if d == 6 {
        '6'
    } else if d == 7 {
        '7'
    } else if d == 8 {
        '8'
    } else if d == 9 {
        '9'
    } else {
        '0'
    }
}

/// Relies on `String::push`: appends exactly one character.
#[verifier::external_body]
pub fn push_char(s: &mut String, c: char)
    ensures
        final(s)@ == old(s)@.push(c),
{
    s.push(c);
}

/// Renders a number in decimal.
pub fn u64_to_string(n: u64) -> (r: String)
    ensures
        r@ == spec_u64_digits(n as int),
    decreases n,
{
    if n < 10 {
        let mut s = String::new();
        push_char(&mut s, digit_char(n));
        assert(s@ =~= spec_u64_digits(n as int));
        s
    } else {
        let mut s = u64_to_string(n / 10);
        push_char(&mut s, digit_char(n % 10));
        s
    }
}

/// Whether two strings hold the same characters.
pub fn str_eq(a: &str, b: &str) -> (r: bool)
    ensures
        r == (a@ == b@),
{
    let n = a.unicode_len();
    if n != b.unicode_len() {
        proof {
            assert(a@.len() != b@.len());
        }
        return false;
    }
    let mut i: usize = 0;
    while i < n
        invariant
            0 <= i <= n,
            n == a@.len() == b@.len(),
            forall|j: int| 0 <= j < i ==> a@[j] == b@[j],
        decreases n - i,
    {
        if a.get_char(i) != b.get_char(i) {
            return false;
        }
        i = i + 1;
    }
    proof {
        assert(a@ =~= b@);
    }
    true
}

/// True when `p` is a prefix of `s`.
pub open spec fn spec_starts_with(s: Seq<char>, p: Seq<char>) -> bool {
    p.len() <= s.len() && forall|i: int| 0 <= i < p.len() ==> s[i] == #[trigger] p[i]
}

/// True when `p` is a suffix of `s`.
pub open spec fn spec_ends_with(s: Seq<char>, p: Seq<char>) -> bool {
    p.len() <= s.len() && forall|i: int|
        0 <= i < p.len() ==> s[s.len() - p.len() + i] == #[trigger] p[i]
}

/// True when `p` occurs inside `s` starting at position `k`.
pub open spec fn spec_match_at(s: Seq<char>, p: Seq<char>, k: int) -> bool {
    0 <= k && k + p.len() <= s.len() && forall|i: int|
        0 <= i < p.len() ==> s[k + i] == #[trigger] p[i]
}

/// True when `p` occurs somewhere inside `s`.
pub open spec fn spec_contains(s: Seq<char>, p: Seq<char>) -> bool {
    exists|k: int| spec_match_at(s, p, k)
}

/// Whether `p` is a prefix of `s`.
pub fn str_starts_with(s: &str, p: &str) -> (r: bool)
    ensures
        r == spec_starts_with(s@, p@),
{
    let sn = s.unicode_len();
    let pn = p.unicode_len();
    if pn > sn {
        return false;
    }
    let mut i: usize = 0;
    while i < pn
        invariant
            0 <= i <= pn,
            pn == p@.len() <= sn == s@.len(),
            forall|j: int| 0 <= j < i ==> s@[j] == #[trigger] p@[j],
        decreases pn - i,
    {
        if s.get_char(i) != p.get_char(i) {
            return false;
        }
        i = i + 1;
    }
    true
}

/// Whether `p` is a suffix of `s`.
pub fn str_ends_with(s: &str, p: &str) -> (r: bool)
    ensures
        r == spec_ends_with(s@, p@),
{
    let sn = s.unicode_len();
    let pn = p.unicode_len();
    if pn > sn {
        return false;
    }
    let off = sn - pn;
    let mut i: usize = 0;
    while i < pn
        invariant
            0 <= i <= pn,
            pn == p@.len() <= sn == s@.len(),
            off == sn - pn,
            forall|j: int| 0 <= j < i ==> s@[off + j] == #[trigger] p@[j],
        decreases pn - i,
    {
        if s.get_char(off + i) != p.get_char(i) {
            return false;
        }
        i = i + 1;
    }
    true
}

/// Whether `p` occurs inside `s`.
pub fn str_contains(s: &str, p: &str) -> (r: bool)
    ensures
        r == spec_contains(s@, p@),
{
    let sn = s.unicode_len();
    let pn = p.unicode_len();
    if pn > sn {
        assert(!spec_contains(s@, p@)) by {
            assert(forall|k: int| !spec_match_at(s@, p@, k));
        }
        return false;
    }
    let mut k: usize = 0;
    while k <= sn - pn
        invariant
            0 <= k <= sn - pn + 1,
            pn == p@.len() <= sn == s@.len(),
            forall|m: int| 0 <= m < k ==> !spec_match_at(s@, p@, m),
        decreases sn - pn + 1 - k,
    {
        let mut i: usize = 0;
        let mut matches = true;
        while i < pn
            invariant
                0 <= i <= pn,
                0 <= k <= sn - pn,
                pn == p@.len() <= sn == s@.len(),
                matches ==> forall|j: int| 0 <= j < i ==> s@[k + j] == #[trigger] p@[j],
                !matches ==> !spec_match_at(s@, p@, k as int),
            decreases pn - i,
        {
            if matches && s.get_char(k + i) != p.get_char(i) {
                matches = false;
            }
            i = i + 1;
        }
        if matches {
            assert(spec_match_at(s@, p@, k as int));
            return true;
        }
        k = k + 1;
    }
    assert(forall|m: int| !spec_match_at(s@, p@, m));
    false
}

} // verus!
