//! Character-level text helpers used by the script and placement parsers.
use vstd::prelude::*;

verus! {

/// Whether `c` has the Unicode `White_Space` property (what `char::is_whitespace`
/// decides): tab to carriage return (U+0009 to U+000D), space, U+0085, U+00A0,
/// U+1680, U+2000 to U+200A, U+2028, U+2029, U+202F, U+205F and U+3000.
pub open spec fn char_is_whitespace(c: char) -> bool {
    let n = c as u32;
    ||| 0x09 <= n <= 0x0D
    ||| n == 0x20
    ||| n == 0x85
    ||| n == 0xA0
    ||| n == 0x1680
    ||| 0x2000 <= n <= 0x200A
    ||| n == 0x2028
    ||| n == 0x2029
    ||| n == 0x202F
    ||| n == 0x205F
    ||| n == 0x3000
}

/// Whether `c` has the Unicode `Alphabetic` property (what `char::is_alphabetic` decides).
pub uninterp spec fn char_is_alphabetic(c: char) -> bool;

/// Whether `c` is white space in the sense of `char::is_whitespace` (the
/// Unicode `White_Space` property), decided from its code point.
pub(crate) fn is_whitespace(c: char) -> (r: bool)
    ensures
        r == char_is_whitespace(c),
{
    let n = c as u32;
    (0x09 <= n && n <= 0x0D) || n == 0x20 || n == 0x85 || n == 0xA0 || n == 0x1680 || (0x2000 <= n && n
        <= 0x200A) || n == 0x2028 || n == 0x2029 || n == 0x202F || n == 0x205F || n == 0x3000
}

/// Calls `char::is_alphabetic`; the contract only names its result, which the
/// standard library defines by a Unicode property table.
#[verifier::external_body]
pub(crate) fn is_alphabetic(c: char) -> (r: bool)
    ensures
        r == char_is_alphabetic(c),
{
    c.is_alphabetic()
}

/// Whether two strings hold the same characters.
pub(crate) fn str_eq(a: &str, b: &str) -> (r: bool)
    ensures
        r == (a@ == b@),
{
    let n = a.unicode_len();
    if n != b.unicode_len() {
        return false;
    }
    let mut i: usize = 0;
    while i < n
        invariant
            i <= n,
            n == a@.len(),
            n == b@.len(),
            forall|k: int| 0 <= k < i ==> a@[k] == b@[k],
        decreases n - i,
    {
        if a.get_char(i) != b.get_char(i) {
            return false;
        }
        i += 1;
    }
    assert(a@ =~= b@);
    true
}

/// The characters of a string, in order.
pub fn str_chars(s: &str) -> (v: Vec<char>)
    ensures
        v@ == s@,
{
    let n = s.unicode_len();
    let mut v: Vec<char> = Vec::new();
    let mut i: usize = 0;
    while i < n
        invariant
            n == s@.len(),
            i <= n,
            v@ == s@.subrange(0, i as int),
        decreases n - i,
    {
        v.push(s.get_char(i));
        i += 1;
    }
    v
}

/// Whether the characters `s[lo..hi]` equal the literal `lit`.
pub fn range_eq_str(s: &Vec<char>, lo: usize, hi: usize, lit: &str) -> (r: bool)
    requires
        lo <= hi <= s@.len(),
    ensures
        r == (s@.subrange(lo as int, hi as int) == lit@),
{
    let n = lit.unicode_len();
    if hi - lo != n {
        return false;
    }
    let mut k: usize = 0;
    while k < n
        invariant
            n == lit@.len(),
            hi - lo == n,
            lo <= hi <= s@.len(),
            k <= n,
            forall|t: int| 0 <= t < k ==> s@[lo + t] == lit@[t],
        decreases n - k,
    {
        if s[lo + k] != lit.get_char(k) {
            assert(s@.subrange(lo as int, hi as int)[k as int] != lit@[k as int]);
            return false;
        }
        k += 1;
    }
    assert(s@.subrange(lo as int, hi as int) =~= lit@);
    true
}

/// Whether the literal `lit` is a prefix of `s[lo..hi]`.
pub fn range_starts_with(s: &Vec<char>, lo: usize, hi: usize, lit: &str) -> (r: bool)
    requires
        lo <= hi <= s@.len(),
    ensures
        r == lit@.is_prefix_of(s@.subrange(lo as int, hi as int)),
{
    let n = lit.unicode_len();
    if hi - lo < n {
        return false;
    }
    let r = range_eq_str(s, lo, lo + n, lit);
    assert(s@.subrange(lo as int, hi as int).subrange(0, n as int) =~= s@.subrange(
        lo as int,
        lo + n,
    ));
    r
}

/// `s` with leading white space removed.
pub open spec fn trim_start(s: Seq<char>) -> Seq<char>
    decreases s.len(),
{
    if s.len() > 0 && char_is_whitespace(s[0]) {
        trim_start(s.drop_first())
    } else {
        s
    }
}

/// `s` with trailing white space removed.
pub open spec fn trim_end(s: Seq<char>) -> Seq<char>
    decreases s.len(),
{
    if s.len() > 0 && char_is_whitespace(s.last()) {
        trim_end(s.drop_last())
    } else {
        s
    }
}

/// `s` with white space removed at both ends (what `str::trim` returns).
pub open spec fn trim(s: Seq<char>) -> Seq<char> {
    trim_end(trim_start(s))
}

/// Every character of `s` is white space.
pub open spec fn all_whitespace(s: Seq<char>) -> bool {
    forall|i: int| 0 <= i < s.len() ==> char_is_whitespace(#[trigger] s[i])
}

/// The bounds of `trim(s[lo..hi])` inside `s`.
pub fn trim_range(s: &Vec<char>, lo: usize, hi: usize) -> (r: (usize, usize))
    requires
        lo <= hi <= s@.len(),
    ensures
        lo <= r.0 <= r.1 <= hi,
        s@.subrange(r.0 as int, r.1 as int) == trim(s@.subrange(lo as int, hi as int)),
{
    let mut a = lo;
    while a < hi && is_whitespace(s[a])
        invariant
            lo <= a <= hi <= s@.len(),
            trim_start(s@.subrange(lo as int, hi as int)) == trim_start(
                s@.subrange(a as int, hi as int),
            ),
        decreases hi - a,
    {
        assert(s@.subrange(a as int, hi as int).drop_first() =~= s@.subrange(a + 1, hi as int));
        a += 1;
    }
    assert(trim_start(s@.subrange(a as int, hi as int)) == s@.subrange(a as int, hi as int));
    let mut b = hi;
    while b > a && is_whitespace(s[b - 1])
        invariant
            lo <= a <= b <= hi <= s@.len(),
            trim(s@.subrange(lo as int, hi as int)) == trim_end(s@.subrange(a as int, b as int)),
        decreases b - a,
    {
        assert(s@.subrange(a as int, b as int).drop_last() =~= s@.subrange(a as int, b - 1));
        b -= 1;
    }
    (a, b)
}

/// Whether every character of `s[lo..hi]` is white space.
pub fn range_all_whitespace(s: &Vec<char>, lo: usize, hi: usize) -> (r: bool)
    requires
        lo <= hi <= s@.len(),
    ensures
        r == all_whitespace(s@.subrange(lo as int, hi as int)),
{
    let mut k = lo;
    while k < hi
        invariant
            lo <= k <= hi <= s@.len(),
            all_whitespace(s@.subrange(lo as int, k as int)),
        decreases hi - k,
    {
        if !is_whitespace(s[k]) {
            assert(s@.subrange(lo as int, hi as int)[k - lo] == s@[k as int]);
            return false;
        }
        assert forall|i: int| 0 <= i < k + 1 - lo implies char_is_whitespace(
            #[trigger] s@.subrange(lo as int, k + 1)[i],
        ) by {
            if i < k - lo {
                assert(s@.subrange(lo as int, k + 1)[i] == s@.subrange(lo as int, k as int)[i]);
            }
        }
        k += 1;
    }
    true
}

/// The first index at or after `i` where `s` holds `c`.
pub open spec fn find_from(s: Seq<char>, c: char, i: int) -> Option<int>
    decreases s.len() - i,
{
    if i < 0 || i >= s.len() {
        None
    } else if s[i] == c {
        Some(i)
    } else {
        find_from(s, c, i + 1)
    }
}

/// The pieces of `s` between occurrences of `c` (what `str::split` with a
/// character pattern yields).
pub open spec fn split(s: Seq<char>, c: char) -> Seq<Seq<char>>
    decreases s.len(),
{
    match find_from(s, c, 0) {
        None => seq![s],
        Some(i) => if 0 <= i < s.len() {
            seq![s.subrange(0, i)] + split(s.subrange(i + 1, s.len() as int), c)
        } else {
            seq![s]
        },
    }
}

pub proof fn lemma_find_from_range(s: Seq<char>, c: char, i: int)
    requires
        0 <= i,
    ensures
        find_from(s, c, i) matches Some(k) ==> i <= k < s.len() && s[k] == c && forall|t: int|
            i <= t < k ==> s[t] != c,
        find_from(s, c, i) is None ==> forall|t: int| i <= t < s.len() ==> s[t] != c,
    decreases s.len() - i,
{
    if i >= 0 && i < s.len() && s[i] != c {
        lemma_find_from_range(s, c, i + 1);
    }
}

/// Finds the first occurrence of `c` in `s[lo..hi]`, as an index into `s`.
pub fn find_in_range(s: &Vec<char>, lo: usize, hi: usize, c: char) -> (r: Option<usize>)
    requires
        lo <= hi <= s@.len(),
    ensures
        r matches Some(k) ==> lo <= k < hi && find_from(s@.subrange(lo as int, hi as int), c, 0)
            == Some(k - lo),
        r is None ==> find_from(s@.subrange(lo as int, hi as int), c, 0) is None,
{
    let ghost t = s@.subrange(lo as int, hi as int);
    let mut k = lo;
    while k < hi
        invariant
            lo <= k <= hi <= s@.len(),
            t == s@.subrange(lo as int, hi as int),
            find_from(t, c, 0) == find_from(t, c, k - lo),
        decreases hi - k,
    {
        if s[k] == c {
            return Some(k);
        }
        k += 1;
    }
    None
}

/// The value of a string of decimal digits.
pub open spec fn digits_value(s: Seq<char>) -> int
    decreases s.len(),
{
    if s.len() == 0 {
        0
    } else {
        digits_value(s.drop_last()) * 10 + (s.last() as int - '0' as int)
    }
}

pub open spec fn is_digit(c: char) -> bool {
    '0' <= c && c <= '9'
}

pub open spec fn all_digits(s: Seq<char>) -> bool {
    forall|i: int| 0 <= i < s.len() ==> is_digit(#[trigger] s[i])
}

/// What `str::parse::<u8>` returns: an optional `+`, then at least one decimal
/// digit, with a value that fits.
pub open spec fn parse_u8_v(s: Seq<char>) -> Option<u8> {
    let d = if s.len() > 0 && s[0] == '+' {
        s.drop_first()
    } else {
        s
    };
    if d.len() == 0 || !all_digits(d) || digits_value(d) > 255 {
        None
    } else {
        Some(digits_value(d) as u8)
    }
}

/// What `str::parse::<i8>` returns: an optional sign, then at least one decimal
/// digit, with a value that fits.
pub open spec fn parse_i8_v(s: Seq<char>) -> Option<i8> {
    let neg = s.len() > 0 && s[0] == '-';
    let d = if s.len() > 0 && (s[0] == '+' || s[0] == '-') {
        s.drop_first()
    } else {
        s
    };
    if d.len() == 0 || !all_digits(d) {
        None
    } else if neg {
        if digits_value(d) > 128 {
            None
        } else {
            Some((-digits_value(d)) as i8)
        }
    } else {
        if digits_value(d) > 127 {
            None
        } else {
            Some(digits_value(d) as i8)
        }
    }
}

pub proof fn lemma_digits_value_nonneg(s: Seq<char>)
    requires
        all_digits(s),
    ensures
        digits_value(s) >= 0,
    decreases s.len(),
{
    if s.len() > 0 {
        assert(all_digits(s.drop_last())) by {
            assert forall|i: int| 0 <= i < s.drop_last().len() implies is_digit(
                #[trigger] s.drop_last()[i],
            ) by {
                assert(s.drop_last()[i] == s[i]);
            }
        }
        lemma_digits_value_nonneg(s.drop_last());
        assert(is_digit(s[s.len() - 1]));
    }
}

/// The value of the digits `s[lo..hi]`, capped at 1000, or `None` if some
/// character is not a digit.
fn digits_capped(s: &Vec<char>, lo: usize, hi: usize) -> (r: Option<u32>)
    requires
        lo <= hi <= s@.len(),
    ensures
        r is Some <==> all_digits(s@.subrange(lo as int, hi as int)),
        r matches Some(v) ==> {
            let dv = digits_value(s@.subrange(lo as int, hi as int));
            &&& (dv <= 1000 ==> v == dv)
            &&& (dv > 1000 ==> v == 1001)
        },
{
    let mut acc: u32 = 0;
    let mut k = lo;
    while k < hi
        invariant
            lo <= k <= hi <= s@.len(),
            all_digits(s@.subrange(lo as int, k as int)),
            ({
                let dv = digits_value(s@.subrange(lo as int, k as int));
                &&& (dv <= 1000 ==> acc == dv)
                &&& (dv > 1000 ==> acc == 1001)
            }),
        decreases hi - k,
    {
        let c = s[k];
        if !('0' <= c && c <= '9') {
            assert(s@.subrange(lo as int, hi as int)[k - lo] == c);
            return None;
        }
        let ghost prev = s@.subrange(lo as int, k as int);
        let ghost next = s@.subrange(lo as int, k + 1);
        assert(next.drop_last() =~= prev);
        assert(next.last() == c);
        assert(all_digits(next)) by {
            assert forall|i: int| 0 <= i < next.len() implies is_digit(#[trigger] next[i]) by {
                if i < prev.len() {
                    assert(next[i] == prev[i]);
                }
            }
        }
        proof {
            lemma_digits_value_nonneg(prev);
        }
        let d = (c as u32) - ('0' as u32);
        if acc > 1000 {
            acc = 1001;
        } else {
            acc = acc * 10 + d;
            if acc > 1000 {
                acc = 1001;
            }
        }
        k += 1;
    }
    Some(acc)
}

/// Parses `s[lo..hi]` as `str::parse::<u8>` does.
pub fn parse_u8_range(s: &Vec<char>, lo: usize, hi: usize) -> (r: Option<u8>)
    requires
        lo <= hi <= s@.len(),
    ensures
        r == parse_u8_v(s@.subrange(lo as int, hi as int)),
{
    let ghost t = s@.subrange(lo as int, hi as int);
    let mut a = lo;
    if lo < hi && s[lo] == '+' {
        a = lo + 1;
        assert(t.drop_first() =~= s@.subrange(a as int, hi as int));
    } else {
        assert(t =~= s@.subrange(a as int, hi as int));
    }
    if a == hi {
        return None;
    }
    match digits_capped(s, a, hi) {
        None => None,
        Some(v) => if v > 255 {
            None
        } else {
            Some(v as u8)
        },
    }
}

/// Parses `s[lo..hi]` as `str::parse::<i8>` does.
pub fn parse_i8_range(s: &Vec<char>, lo: usize, hi: usize) -> (r: Option<i8>)
    requires
        lo <= hi <= s@.len(),
    ensures
        r == parse_i8_v(s@.subrange(lo as int, hi as int)),
{
    let ghost t = s@.subrange(lo as int, hi as int);
    let mut a = lo;
    let neg = lo < hi && s[lo] == '-';
    if lo < hi && (s[lo] == '+' || s[lo] == '-') {
        a = lo + 1;
        assert(t.drop_first() =~= s@.subrange(a as int, hi as int));
    } else {
        assert(t =~= s@.subrange(a as int, hi as int));
    }
    if a == hi {
        return None;
    }
    match digits_capped(s, a, hi) {
        None => None,
        Some(v) => {
            if neg {
                if v > 128 {
                    None
                } else {
                    Some((0 - (v as i32)) as i8)
                }
            } else {
                if v > 127 {
                    None
                } else {
                    Some(v as i8)
                }
            }
        },
    }
}

} // verus!
