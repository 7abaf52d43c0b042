//! Rating text and rating sequences.
//!
//! A scraped rating is a short decimal such as `8.6`; the library keeps it
//! as a whole number of tenths (`86`).  The accepted shape is one to six
//! integer digits, optionally followed by `.` and exactly one fractional
//! digit.  A sequence of per-episode values may end in a run of
//! `PLACEHOLDER_TENTHS` sentinels ("listed but not aired"); that trailing
//! run is trimmed while interior sentinels are preserved.

use vstd::prelude::*;

use crate::error::Error;
use crate::PLACEHOLDER_TENTHS;

verus! {

pub open spec fn is_digit_char(c: char) -> bool {
    '0' <= c && c <= '9'
}

pub open spec fn digit_value(c: char) -> int {
    c as int - '0' as int
}

pub open spec fn all_digits(s: Seq<char>) -> bool {
    forall|i: int| 0 <= i < s.len() ==> is_digit_char(s[i])
}

/// The number denoted by a digit string, most significant digit first.
pub open spec fn digits_value(s: Seq<char>) -> int
    decreases s.len(),
{
    if s.len() == 0 {
        0
    } else {
        digits_value(s.drop_last()) * 10 + digit_value(s.last())
    }
}

/// Index of the first `.` in `s`, or `s.len()` if there is none.
pub open spec fn dot_index(s: Seq<char>) -> int
    decreases s.len(),
{
    if s.len() == 0 {
        0
    } else if s[0] == '.' {
        0
    } else {
        1 + dot_index(s.drop_first())
    }
}

pub proof fn lemma_dot_index(s: Seq<char>)
    ensures
        0 <= dot_index(s) <= s.len(),
        dot_index(s) < s.len() ==> s[dot_index(s)] == '.',
        forall|j: int| 0 <= j < dot_index(s) ==> s[j] != '.',
    decreases s.len(),
{
    if s.len() > 0 && s[0] != '.' {
        lemma_dot_index(s.drop_first());
        assert forall|j: int| 0 <= j < dot_index(s) implies s[j] != '.' by {
            if j > 0 {
                assert(s.drop_first()[j - 1] == s[j]);
            }
        }
    }
}

/// Upper bound for a value of at most `i` digits; constant 1000000 from
/// `i` = 6 up, since longer digit strings are rejected.
pub open spec fn cap10(i: int) -> int {
    if i <= 0 {
        1
    } else if i == 1 {
        10
    } else if i == 2 {
        100
    } else if i == 3 {
        1000
    } else if i == 4 {
        10000
    } else if i == 5 {
        100000
    } else {
        1000000
    }
}

/// The value in tenths denoted by a rating text, if it has the accepted
/// shape: one to six digits, optionally followed by `.` and one digit.
pub open spec fn rating_text_value(s: Seq<char>) -> Option<int> {
    let d = dot_index(s);
    if d == s.len() {
        if 1 <= s.len() <= 6 && all_digits(s) {
            Some(10 * digits_value(s))
        } else {
            None
        }
    } else {
        let ip = s.take(d);
        let fp = s.skip(d + 1);
        if 1 <= ip.len() <= 6 && all_digits(ip) && fp.len() == 1 && is_digit_char(fp[0]) {
            Some(10 * digits_value(ip) + digit_value(fp[0]))
        } else {
            None
        }
    }
}

/// Parses a rating text into tenths; `ParseError` exactly when the text
/// does not have the accepted shape.
pub fn parse_rating_tenths(s: &str) -> (r: Result<i32, Error>)
    ensures
        match r {
            Ok(v) => rating_text_value(s@) == Some(v as int),
            Err(e) => rating_text_value(s@) is None && e == Error::ParseError,
        },
{
    proof {
        lemma_dot_index(s@);
    }
    let n = s.unicode_len();
    let mut i: usize = 0;
    let mut acc: i32 = 0;
    loop
        invariant
            n == s@.len(),
            i <= n,
            i <= 6,
            all_digits(s@.take(i as int)),
            forall|j: int| 0 <= j < i ==> s@[j] != '.',
            acc == digits_value(s@.take(i as int)),
            0 <= acc < cap10(i as int),
        ensures
            n == s@.len(),
            i <= n,
            i <= 6,
            all_digits(s@.take(i as int)),
            forall|j: int| 0 <= j < i ==> s@[j] != '.',
            acc == digits_value(s@.take(i as int)),
            0 <= acc < cap10(i as int),
            i == n || s@[i as int] == '.',
        decreases n - i,
    {
        if i >= n {
            break;
        }
        let c = s.get_char(i);
        if c == '.' {
            break;
        }
        if c < '0' || c > '9' {
            proof {
                lemma_dot_index(s@);
                let d = dot_index(s@);
                assert(d > i);
                if d < s@.len() {
                    assert(!is_digit_char(s@.take(d)[i as int]));
                }
            }
            return Err(Error::ParseError);
        }
        if i >= 6 {
            proof {
                lemma_dot_index(s@);
                let d = dot_index(s@);
                assert(d > 6);
                if d < s@.len() {
                    assert(s@.take(d).len() > 6);
                }
            }
            return Err(Error::ParseError);
        }
        proof {
            let t1 = s@.take(i + 1);
            assert(t1.drop_last() =~= s@.take(i as int));
            assert(t1.last() == s@[i as int]);
            assert(forall|j: int|
                0 <= j < t1.len() ==> t1[j] == s@[j]);
        }
        acc = acc * 10 + ((c as u32) as i32 - 48);
        i = i + 1;
    }
    if i == n {
        // no dot: the whole text is the integer part
        if n == 0 {
            return Err(Error::ParseError);
        }
        proof {
            lemma_dot_index(s@);
            assert(dot_index(s@) == n as int);
            assert(s@.take(n as int) =~= s@);
        }
        Ok(acc * 10)
    } else {
        // s@[i] is the first dot
        proof {
            lemma_dot_index(s@);
            assert(dot_index(s@) == i as int);
        }
        if i == 0 {
            return Err(Error::ParseError);
        }
        if i + 2 != n {
            proof {
                assert(s@.skip(i + 1).len() != 1);
            }
            return Err(Error::ParseError);
        }
        let c2 = s.get_char(i + 1);
        proof {
            assert(s@.skip(i + 1).len() == 1);
            assert(s@.skip(i + 1)[0] == s@[i + 1]);
        }
        if c2 < '0' || c2 > '9' {
            return Err(Error::ParseError);
        }
        Ok(acc * 10 + ((c2 as u32) as i32 - 48))
    }
}

/// The sequence with its maximal trailing run of sentinels removed.
pub open spec fn trim_placeholders(s: Seq<i32>) -> Seq<i32>
    decreases s.len(),
{
    if s.len() == 0 || s.last() != PLACEHOLDER_TENTHS {
        s
    } else {
        trim_placeholders(s.drop_last())
    }
}

/// Trimming removes exactly the maximal trailing run of sentinels: the
/// kept prefix is unchanged (interior sentinels included), it does not
/// end in a sentinel, and everything removed was a sentinel.
pub proof fn lemma_trim_placeholders(s: Seq<i32>)
    ensures
        trim_placeholders(s).len() <= s.len(),
        trim_placeholders(s) == s.take(trim_placeholders(s).len() as int),
        trim_placeholders(s).len() > 0 ==> trim_placeholders(s).last() != PLACEHOLDER_TENTHS,
        forall|j: int| trim_placeholders(s).len() <= j < s.len() ==> s[j] == PLACEHOLDER_TENTHS,
    decreases s.len(),
{
    if s.len() == 0 || s.last() != PLACEHOLDER_TENTHS {
        assert(trim_placeholders(s) =~= s.take(s.len() as int));
    } else {
        lemma_trim_placeholders(s.drop_last());
        let t = trim_placeholders(s);
        assert(t == trim_placeholders(s.drop_last()));
        assert(s.drop_last().take(t.len() as int) =~= s.take(t.len() as int));
        assert forall|j: int| t.len() <= j < s.len() implies s[j] == PLACEHOLDER_TENTHS by {
            if j < s.len() - 1 {
                assert(s.drop_last()[j] == s[j]);
            }
        }
    }
}

/// Removes the trailing run of sentinels in place.
pub fn trim_trailing_placeholders(v: &mut Vec<i32>)
    ensures
        final(v)@ == trim_placeholders(old(v)@),
{
    let mut n = v.len();
    proof {
        assert(v@.take(n as int) =~= v@);
    }
    while n > 0 && v[n - 1] == PLACEHOLDER_TENTHS
        invariant
            n <= v.len(),
            v@ == old(v)@,
            trim_placeholders(old(v)@) == trim_placeholders(v@.take(n as int)),
        decreases n,
    {
        proof {
            let t = v@.take(n as int);
            assert(t.last() == v@[n - 1]);
            assert(t.drop_last() =~= v@.take(n - 1));
        }
        n = n - 1;
    }
    proof {
        let t = v@.take(n as int);
        if n > 0 {
            assert(t.last() == v@[n - 1]);
        }
        assert(trim_placeholders(t) == t);
    }
    v.truncate(n);
}

} // verus!
