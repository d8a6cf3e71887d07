//! Character-level helpers shared by the parser and the replay source:
//! string equality, bounded scans, digit strings and substring search.

use vstd::prelude::*;
use vstd::string::*;

verus! {

/// One decimal digit, as a character.
pub open spec fn is_digit_char(c: char) -> bool {
    48 <= c as u32 && c as u32 <= 57
}

/// Numeric value of one decimal digit character.
pub open spec fn digit_val(c: char) -> nat
    recommends
        is_digit_char(c),
{
    (c as u32 - 48) as nat
}

/// Every character of `s` is a decimal digit.
pub open spec fn all_digits(s: Seq<char>) -> bool {
    forall|i: int| 0 <= i < s.len() ==> is_digit_char(s[i])
}

/// Numeric value of a digit string, most significant digit first.
pub open spec fn digits_val(s: Seq<char>) -> nat
    decreases s.len(),
{
    if s.len() == 0 {
        0
    } else {
        digits_val(s.drop_last()) * 10 + digit_val(s.last())
    }
}

/// The value of a digit string is at least the value of any of its prefixes.
pub proof fn lemma_digits_val_prefix(s: Seq<char>, j: int)
    requires
        0 <= j <= s.len(),
    ensures
        digits_val(s.take(j)) <= digits_val(s),
    decreases s.len(),
{
    if j == s.len() {
        assert(s.take(j) =~= s);
    } else {
        lemma_digits_val_prefix(s.drop_last(), j);
        assert(s.drop_last().take(j) =~= s.take(j));
    }
}

/// What `parse_u64` returns: the value of a non-empty all-digit string,
/// when that value fits in a `u64`.
pub open spec fn spec_parse_u64(s: Seq<char>) -> Option<u64> {
    if all_digits(s) && s.len() > 0 && digits_val(s) <= u64::MAX {
        Some(digits_val(s) as u64)
    } else {
        None
    }
}

/// Parse a decimal number; rejects empty input, non-digits and overflow.
pub fn parse_u64(s: &str) -> (r: Option<u64>)
    ensures
        r == spec_parse_u64(s@),
{
    let len = s.unicode_len();
    if len == 0 {
        return None;
    }
    let mut i: usize = 0;
    let mut acc: u64 = 0;
    while i < len
        invariant
            0 <= i <= len,
            len == s@.len(),
            all_digits(s@.take(i as int)),
            acc == digits_val(s@.take(i as int)),
        decreases len - i,
    {
        let c = s.get_char(i);
        let cu = c as u32;
        if cu < 48 || cu > 57 {
            assert(!is_digit_char(s@[i as int]));
            return None;
        }
        let d = (cu - 48) as u64;
        proof {
            assert(s@.take(i + 1).drop_last() =~= s@.take(i as int));
            assert(s@.take(i + 1).last() == s@[i as int]);
        }
        match acc.checked_mul(10) {
            None => {
                proof {
                    lemma_digits_val_prefix(s@, i + 1);
                }
                return None;
            },
            Some(t) => {
                match t.checked_add(d) {
                    None => {
                        proof {
                            lemma_digits_val_prefix(s@, i + 1);
                        }
                        return None;
                    },
                    Some(v) => {
                        acc = v;
                    },
                }
            },
        }
        i += 1;
    }
    proof {
        assert(s@.take(len as int) =~= s@);
    }
    Some(acc)
}

/// Equality of two string slices, decided character by character.
pub fn str_eq_str(a: &str, b: &str) -> (r: bool)
    ensures
        r == (a@ == b@),
{
    let alen = a.unicode_len();
    let blen = b.unicode_len();
    if alen != blen {
        return false;
    }
    let mut i: usize = 0;
    while i < alen
        invariant
            alen == a@.len(),
            blen == b@.len(),
            alen == blen,
            0 <= i <= alen,
            forall|j: int| 0 <= j < i ==> a@[j] == b@[j],
        decreases alen - i,
    {
        if a.get_char(i) != b.get_char(i) {
            return false;
        }
        i += 1;
    }
    proof {
        assert(a@ =~= b@);
    }
    true
}

/// Length of the longest prefix of `s` free of both stop characters.
pub open spec fn scan_len(s: Seq<char>, a: char, b: char) -> nat
    decreases s.len(),
{
    if s.len() == 0 {
        0
    } else if s[0] == a || s[0] == b {
        0
    } else {
        1 + scan_len(s.skip(1), a, b)
    }
}

/// `scan_len` is a position in `s`; everything before it avoids the stop
/// characters, and the character there (if any) is one of them.
pub proof fn lemma_scan_len(s: Seq<char>, a: char, b: char)
    ensures
        scan_len(s, a, b) <= s.len(),
        forall|i: int| 0 <= i < scan_len(s, a, b) ==> s[i] != a && s[i] != b,
        scan_len(s, a, b) < s.len() ==> (s[scan_len(s, a, b) as int] == a || s[scan_len(
            s,
            a,
            b,
        ) as int] == b),
    decreases s.len(),
{
    if s.len() == 0 {
    } else if s[0] == a || s[0] == b {
    } else {
        lemma_scan_len(s.skip(1), a, b);
        assert(forall|i: int| 1 <= i < s.len() ==> s[i] == s.skip(1)[i - 1]);
    }
}

/// `scan_len` is determined: a position whose prefix avoids both stop
/// characters, and which holds one (or is the end), is the scan length.
pub proof fn lemma_scan_len_is(s: Seq<char>, a: char, b: char, m: int)
    requires
        0 <= m <= s.len(),
        forall|i: int| 0 <= i < m ==> s[i] != a && s[i] != b,
        m < s.len() ==> (s[m] == a || s[m] == b),
    ensures
        scan_len(s, a, b) == m,
    decreases s.len(),
{
    if s.len() == 0 {
    } else if s[0] == a || s[0] == b {
        assert(m == 0);
    } else {
        assert(m >= 1);
        assert(forall|i: int| 1 <= i < s.len() ==> s.skip(1)[i - 1] == s[i]);
        lemma_scan_len_is(s.skip(1), a, b, m - 1);
    }
}

/// Scan `s` for the first occurrence of either stop character.
pub fn scan(s: &str, a: char, b: char) -> (n: usize)
    ensures
        n == scan_len(s@, a, b),
    decreases s@.len(),
{
    let len = s.unicode_len();
    if len == 0 {
        return 0;
    }
    let c = s.get_char(0);
    if c == a || c == b {
        return 0;
    }
    let rest = s.substring_char(1, len);
    proof {
        assert(rest@ =~= s@.skip(1));
    }
    let m = scan(rest, a, b);
    proof {
        lemma_scan_len(rest@, a, b);
    }
    1 + m
}

/// Index of the first occurrence of `pat` inside `s`.
pub open spec fn first_match(s: Seq<char>, pat: Seq<char>) -> Option<int>
    decreases s.len(),
{
    if pat.len() == 0 {
        Some(0int)
    } else if s.len() < pat.len() {
        None
    } else if s.take(pat.len() as int) == pat {
        Some(0int)
    } else {
        match first_match(s.skip(1), pat) {
            None => None,
            Some(i) => Some(i + 1),
        }
    }
}

/// A found match lies inside `s` and the characters there are `pat`.
pub proof fn lemma_first_match(s: Seq<char>, pat: Seq<char>)
    ensures
        first_match(s, pat) matches Some(i) ==> 0 <= i && i + pat.len() <= s.len() && s.subrange(
            i,
            i + pat.len(),
        ) == pat,
    decreases s.len(),
{
    if pat.len() == 0 {
        assert(s.subrange(0, 0) =~= pat);
    } else if s.len() < pat.len() {
    } else if s.take(pat.len() as int) == pat {
        assert(s.subrange(0, pat.len() as int) =~= s.take(pat.len() as int));
    } else {
        lemma_first_match(s.skip(1), pat);
        match first_match(s.skip(1), pat) {
            None => {},
            Some(i) => {
                assert(s.subrange(i + 1, i + 1 + pat.len()) =~= s.skip(1).subrange(
                    i,
                    i + pat.len(),
                ));
            },
        }
    }
}

/// Find the first occurrence of `pat` inside `s`.
pub fn find_first(s: &str, pat: &str) -> (r: Option<usize>)
    ensures
        match r {
            Some(i) => first_match(s@, pat@) == Some(i as int),
            None => first_match(s@, pat@) is None,
        },
    decreases s@.len(),
{
    let slen = s.unicode_len();
    let plen = pat.unicode_len();
    if plen == 0 {
        return Some(0);
    }
    if slen < plen {
        return None;
    }
    let pre = s.substring_char(0, plen);
    proof {
        assert(pre@ =~= s@.take(plen as int));
    }
    if str_eq_str(pre, pat) {
        return Some(0);
    }
    let rest = s.substring_char(1, slen);
    proof {
        assert(rest@ =~= s@.skip(1));
    }
    match find_first(rest, pat) {
        None => None,
        Some(i) => {
            proof {
                lemma_first_match(rest@, pat@);
            }
            Some(i + 1)
        },
    }
}

} // verus!
