//! A total order on season labels.
//!
//! Season labels are free-form strings, but most of them are numbers.
//! Sorting them by plain character order would put `"10"` before `"2"`,
//! so the order here compares labels that consist only of digits by their
//! numeric value (`lemma_label_lt_matches_value` proves that), puts
//! numeric labels before non-numeric ones, and compares the rest by
//! character order.  Ties between digit strings with the same value
//! (`"01"` and `"1"`) are broken by character order, which makes the
//! order total.

use vstd::prelude::*;

use crate::parse::{all_digits, digit_value, digits_value, is_digit_char};

verus! {

/// Strict lexicographic order on character sequences, by code point.
pub open spec fn lex_lt(a: Seq<char>, b: Seq<char>) -> bool
    decreases a.len(),
{
    if b.len() == 0 {
        false
    } else if a.len() == 0 {
        true
    } else if a[0] != b[0] {
        a[0] < b[0]
    } else {
        lex_lt(a.drop_first(), b.drop_first())
    }
}

/// A label is numeric when it is a nonempty string of digits.
pub open spec fn is_numeric_label(s: Seq<char>) -> bool {
    s.len() > 0 && all_digits(s)
}

/// Number of leading `'0'` characters.
pub open spec fn leading_zeros(s: Seq<char>) -> int
    decreases s.len(),
{
    if s.len() == 0 {
        0
    } else if s[0] == '0' {
        1 + leading_zeros(s.drop_first())
    } else {
        0
    }
}

/// The label with its leading zeros removed.
pub open spec fn stripped(s: Seq<char>) -> Seq<char> {
    s.skip(leading_zeros(s))
}

/// Order on digit strings: shorter stripped form first, then
/// lexicographic on the stripped forms, then lexicographic on the
/// originals as a tie-break between equal values.
pub open spec fn num_lt(a: Seq<char>, b: Seq<char>) -> bool {
    ||| stripped(a).len() < stripped(b).len()
    ||| (stripped(a).len() == stripped(b).len() && lex_lt(stripped(a), stripped(b)))
    ||| (stripped(a) == stripped(b) && lex_lt(a, b))
}

/// The total order on season labels: numeric labels by value (then by
/// characters among equal values), numeric before non-numeric, the rest
/// by characters.
pub open spec fn label_lt(a: Seq<char>, b: Seq<char>) -> bool {
    if is_numeric_label(a) && is_numeric_label(b) {
        num_lt(a, b)
    } else if is_numeric_label(a) {
        true
    } else if is_numeric_label(b) {
        false
    } else {
        lex_lt(a, b)
    }
}

pub proof fn lemma_lex_lt_irrefl(a: Seq<char>)
    ensures
        !lex_lt(a, a),
    decreases a.len(),
{
    if a.len() > 0 {
        lemma_lex_lt_irrefl(a.drop_first());
    }
}

pub proof fn lemma_lex_lt_connected(a: Seq<char>, b: Seq<char>)
    requires
        !lex_lt(a, b),
        !lex_lt(b, a),
    ensures
        a == b,
    decreases a.len(),
{
    if a.len() == 0 && b.len() == 0 {
        assert(a =~= b);
    } else {
        // if exactly one were empty, one direction of lex_lt would hold
        assert(a.len() > 0 && b.len() > 0);
        assert(a[0] == b[0]);
        lemma_lex_lt_connected(a.drop_first(), b.drop_first());
        assert(a =~= b) by {
            assert(forall|i: int|
                1 <= i < a.len() ==> a[i] == a.drop_first()[i - 1]);
        }
    }
}

pub proof fn lemma_lex_lt_trans(a: Seq<char>, b: Seq<char>, c: Seq<char>)
    requires
        lex_lt(a, b),
        lex_lt(b, c),
    ensures
        lex_lt(a, c),
    decreases a.len(),
{
    if a.len() > 0 && b.len() > 0 && c.len() > 0 && a[0] == b[0] && b[0] == c[0] {
        lemma_lex_lt_trans(a.drop_first(), b.drop_first(), c.drop_first());
    }
}

/// Equal prefixes do not affect the lexicographic comparison.
pub proof fn lemma_lex_lt_skip(a: Seq<char>, b: Seq<char>, j: int)
    requires
        0 <= j <= a.len(),
        j <= b.len(),
        forall|k: int| 0 <= k < j ==> a[k] == b[k],
    ensures
        lex_lt(a, b) == lex_lt(a.skip(j), b.skip(j)),
    decreases j,
{
    if j == 0 {
        assert(a.skip(0) =~= a);
        assert(b.skip(0) =~= b);
    } else {
        assert(a[0] == b[0]);
        assert(lex_lt(a, b) == lex_lt(a.drop_first(), b.drop_first()));
        assert(forall|k: int|
            0 <= k < j - 1 ==> a.drop_first()[k] == b.drop_first()[k]);
        lemma_lex_lt_skip(a.drop_first(), b.drop_first(), j - 1);
        assert(a.drop_first().skip(j - 1) =~= a.skip(j));
        assert(b.drop_first().skip(j - 1) =~= b.skip(j));
    }
}

pub proof fn lemma_leading_zeros(s: Seq<char>)
    ensures
        0 <= leading_zeros(s) <= s.len(),
        forall|k: int| 0 <= k < leading_zeros(s) ==> s[k] == '0',
        leading_zeros(s) < s.len() ==> s[leading_zeros(s)] != '0',
    decreases s.len(),
{
    if s.len() > 0 && s[0] == '0' {
        lemma_leading_zeros(s.drop_first());
        assert forall|k: int| 0 <= k < leading_zeros(s) implies s[k] == '0' by {
            if k > 0 {
                assert(s.drop_first()[k - 1] == s[k]);
            }
        }
    }
}

pub proof fn lemma_num_lt_irrefl(a: Seq<char>)
    ensures
        !num_lt(a, a),
{
    lemma_lex_lt_irrefl(stripped(a));
    lemma_lex_lt_irrefl(a);
}

pub proof fn lemma_num_lt_connected(a: Seq<char>, b: Seq<char>)
    requires
        !num_lt(a, b),
        !num_lt(b, a),
    ensures
        a == b,
{
    assert(stripped(a).len() == stripped(b).len());
    lemma_lex_lt_connected(stripped(a), stripped(b));
    lemma_lex_lt_connected(a, b);
}

pub proof fn lemma_num_lt_trans(a: Seq<char>, b: Seq<char>, c: Seq<char>)
    requires
        num_lt(a, b),
        num_lt(b, c),
    ensures
        num_lt(a, c),
{
    if stripped(a).len() == stripped(b).len() && stripped(b).len() == stripped(c).len() {
        if lex_lt(stripped(a), stripped(b)) && lex_lt(stripped(b), stripped(c)) {
            lemma_lex_lt_trans(stripped(a), stripped(b), stripped(c));
        } else if stripped(a) == stripped(b) && stripped(b) == stripped(c) {
            lemma_lex_lt_trans(a, b, c);
        }
    }
}

pub proof fn lemma_label_lt_irrefl(a: Seq<char>)
    ensures
        !label_lt(a, a),
{
    lemma_num_lt_irrefl(a);
    lemma_lex_lt_irrefl(a);
}

pub proof fn lemma_label_lt_connected(a: Seq<char>, b: Seq<char>)
    requires
        !label_lt(a, b),
        !label_lt(b, a),
    ensures
        a == b,
{
    if is_numeric_label(a) && is_numeric_label(b) {
        lemma_num_lt_connected(a, b);
    } else {
        lemma_lex_lt_connected(a, b);
    }
}

pub proof fn lemma_label_lt_trans(a: Seq<char>, b: Seq<char>, c: Seq<char>)
    requires
        label_lt(a, b),
        label_lt(b, c),
    ensures
        label_lt(a, c),
{
    if is_numeric_label(a) && is_numeric_label(b) && is_numeric_label(c) {
        lemma_num_lt_trans(a, b, c);
    } else if !is_numeric_label(a) && !is_numeric_label(b) && !is_numeric_label(c) {
        lemma_lex_lt_trans(a, b, c);
    }
}

pub open spec fn pow10(n: nat) -> int
    decreases n,
{
    if n == 0 {
        1
    } else {
        10 * pow10((n - 1) as nat)
    }
}

proof fn lemma_pow10_pos(n: nat)
    ensures
        pow10(n) >= 1,
    decreases n,
{
    if n > 0 {
        lemma_pow10_pos((n - 1) as nat);
    }
}

proof fn lemma_pow10_mono(m: nat, n: nat)
    requires
        m <= n,
    ensures
        pow10(m) <= pow10(n),
    decreases n,
{
    if m < n {
        lemma_pow10_mono(m, (n - 1) as nat);
        lemma_pow10_pos((n - 1) as nat);
    }
}

proof fn lemma_digits_value_upper(s: Seq<char>)
    requires
        all_digits(s),
    ensures
        0 <= digits_value(s) < pow10(s.len()),
    decreases s.len(),
{
    if s.len() > 0 {
        assert(all_digits(s.drop_last())) by {
            assert(forall|i: int|
                0 <= i < s.len() - 1 ==> s.drop_last()[i] == s[i]);
        }
        lemma_digits_value_upper(s.drop_last());
        assert(is_digit_char(s.last()));
    }
}

proof fn lemma_digits_value_lower(s: Seq<char>)
    requires
        all_digits(s),
        s.len() > 0,
        s[0] != '0',
    ensures
        digits_value(s) >= pow10((s.len() - 1) as nat),
    decreases s.len(),
{
    if s.len() == 1 {
        assert(is_digit_char(s[0]));
        assert(s.last() == s[0]);
        assert(digit_value(s[0]) >= 1);
        assert(s.drop_last() =~= Seq::<char>::empty());
        assert(digits_value(s.drop_last()) == 0);
        assert(digits_value(s) == digits_value(s.drop_last()) * 10 + digit_value(s.last()));
        assert(pow10(0) == 1);
    } else {
        assert(all_digits(s.drop_last())) by {
            assert(forall|i: int|
                0 <= i < s.len() - 1 ==> s.drop_last()[i] == s[i]);
        }
        assert(s.drop_last()[0] == s[0]);
        lemma_digits_value_lower(s.drop_last());
        assert(is_digit_char(s.last()));
        assert(digit_value(s.last()) >= 0);
        assert(digits_value(s) == digits_value(s.drop_last()) * 10 + digit_value(s.last()));
        assert(digits_value(s.drop_last()) >= pow10((s.len() - 2) as nat));
        assert(pow10((s.len() - 1) as nat) == 10 * pow10((s.len() - 2) as nat));
    }
}

proof fn lemma_digits_value_drop_leading_zero(s: Seq<char>)
    requires
        s.len() > 0,
        s[0] == '0',
    ensures
        digits_value(s) == digits_value(s.drop_first()),
    decreases s.len(),
{
    if s.len() == 1 {
        assert(s.drop_first() =~= Seq::<char>::empty());
        assert(s.drop_last() =~= Seq::<char>::empty());
        assert(digit_value(s.last()) == 0);
        assert(digits_value(s) == digits_value(s.drop_last()) * 10 + digit_value(s.last()));
    } else {
        assert(s.drop_last()[0] == s[0]);
        lemma_digits_value_drop_leading_zero(s.drop_last());
        assert(s.drop_last().drop_first() =~= s.drop_first().drop_last());
        assert(s.drop_first().last() == s.last());
        assert(digits_value(s) == digits_value(s.drop_last()) * 10 + digit_value(s.last()));
        assert(digits_value(s.drop_first()) == digits_value(s.drop_first().drop_last()) * 10
            + digit_value(s.drop_first().last()));
    }
}

proof fn lemma_digits_value_stripped(s: Seq<char>)
    ensures
        digits_value(s) == digits_value(stripped(s)),
    decreases leading_zeros(s),
{
    lemma_leading_zeros(s);
    if leading_zeros(s) > 0 {
        lemma_digits_value_drop_leading_zero(s);
        lemma_digits_value_stripped(s.drop_first());
        assert(stripped(s) =~= stripped(s.drop_first()));
    } else {
        assert(stripped(s) =~= s);
    }
}

proof fn lemma_digits_value_first(s: Seq<char>)
    requires
        s.len() > 0,
    ensures
        digits_value(s) == digit_value(s[0]) * pow10((s.len() - 1) as nat) + digits_value(
            s.drop_first(),
        ),
    decreases s.len(),
{
    if s.len() == 1 {
        assert(s.drop_first() =~= Seq::<char>::empty());
        assert(s.drop_last() =~= Seq::<char>::empty());
        assert(s.last() == s[0]);
        assert(digits_value(s) == digits_value(s.drop_last()) * 10 + digit_value(s.last()));
        assert(pow10(0) == 1);
    } else {
        lemma_digits_value_first(s.drop_last());
        assert(s.drop_last()[0] == s[0]);
        assert(s.drop_last().drop_first() =~= s.drop_first().drop_last());
        assert(s.drop_first().last() == s.last());
        let d0 = digit_value(s[0]);
        let p = pow10((s.len() - 2) as nat);
        let r = digits_value(s.drop_first().drop_last());
        let dl = digit_value(s.last());
        assert(digits_value(s) == digits_value(s.drop_last()) * 10 + dl);
        assert(digits_value(s.drop_last()) == d0 * p + r);
        assert(digits_value(s.drop_first()) == r * 10 + dl);
        assert(pow10((s.len() - 1) as nat) == 10 * p);
        assert((d0 * p + r) * 10 == d0 * (10 * p) + r * 10) by (nonlinear_arith);
    }
}

/// For equal-length digit strings, lexicographic order is numeric order,
/// and equality of values is equality of strings.
proof fn lemma_eq_len_lex_value(a: Seq<char>, b: Seq<char>)
    requires
        all_digits(a),
        all_digits(b),
        a.len() == b.len(),
    ensures
        lex_lt(a, b) == (digits_value(a) < digits_value(b)),
        (a == b) == (digits_value(a) == digits_value(b)),
    decreases a.len(),
{
    if a.len() == 0 {
        assert(a =~= b);
    } else {
        lemma_digits_value_first(a);
        lemma_digits_value_first(b);
        assert(all_digits(a.drop_first()) && all_digits(b.drop_first())) by {
            assert(forall|i: int|
                0 <= i < a.len() - 1 ==> a.drop_first()[i] == a[i + 1]);
            assert(forall|i: int|
                0 <= i < b.len() - 1 ==> b.drop_first()[i] == b[i + 1]);
        }
        lemma_digits_value_upper(a.drop_first());
        lemma_digits_value_upper(b.drop_first());
        let p = pow10((a.len() - 1) as nat);
        let da = digit_value(a[0]);
        let db = digit_value(b[0]);
        let ra = digits_value(a.drop_first());
        let rb = digits_value(b.drop_first());
        lemma_pow10_pos((a.len() - 1) as nat);
        if a[0] != b[0] {
            assert(is_digit_char(a[0]) && is_digit_char(b[0]));
            if a[0] < b[0] {
                assert(da * p + ra < db * p + rb) by (nonlinear_arith)
                    requires
                        da + 1 <= db,
                        0 <= ra,
                        ra < p,
                        0 <= rb,
                ;
            } else {
                assert(db * p + rb < da * p + ra) by (nonlinear_arith)
                    requires
                        db + 1 <= da,
                        0 <= rb,
                        rb < p,
                        0 <= ra,
                ;
            }
        } else {
            lemma_eq_len_lex_value(a.drop_first(), b.drop_first());
            assert((a == b) == (a.drop_first() == b.drop_first())) by {
                if a.drop_first() == b.drop_first() {
                    assert(a =~= b) by {
                        assert(forall|i: int|
                            1 <= i < a.len() ==> a[i] == a.drop_first()[i - 1] && b[i]
                                == b.drop_first()[i - 1]);
                    }
                }
            }
        }
    }
}

/// The label order restricted to numeric labels is numeric-value order,
/// with ties between equal values broken by character order.
pub proof fn lemma_label_lt_matches_value(a: Seq<char>, b: Seq<char>)
    requires
        is_numeric_label(a),
        is_numeric_label(b),
    ensures
        label_lt(a, b) == (digits_value(a) < digits_value(b) || (digits_value(a) == digits_value(b)
            && lex_lt(a, b))),
{
    lemma_leading_zeros(a);
    lemma_leading_zeros(b);
    lemma_digits_value_stripped(a);
    lemma_digits_value_stripped(b);
    let sa = stripped(a);
    let sb = stripped(b);
    assert(all_digits(sa) && all_digits(sb)) by {
        assert(forall|i: int|
            0 <= i < sa.len() ==> sa[i] == a[leading_zeros(a) + i]);
        assert(forall|i: int|
            0 <= i < sb.len() ==> sb[i] == b[leading_zeros(b) + i]);
    }
    lemma_digits_value_upper(sa);
    lemma_digits_value_upper(sb);
    if sa.len() < sb.len() {
        assert(sb[0] != '0');
        lemma_digits_value_lower(sb);
        lemma_pow10_mono(sa.len(), (sb.len() - 1) as nat);
    } else if sa.len() > sb.len() {
        assert(sa[0] != '0');
        lemma_digits_value_lower(sa);
        lemma_pow10_mono(sb.len(), (sa.len() - 1) as nat);
    } else {
        lemma_eq_len_lex_value(sa, sb);
    }
}

/// Whether the string is a nonempty run of digits.
pub fn str_is_numeric(s: &str) -> (r: bool)
    ensures
        r == is_numeric_label(s@),
{
    let n = s.unicode_len();
    if n == 0 {
        return false;
    }
    let mut i: usize = 0;
    while i < n
        invariant
            n == s@.len(),
            i <= n,
            forall|k: int| 0 <= k < i ==> is_digit_char(s@[k]),
        decreases n - i,
    {
        let c = s.get_char(i);
        if c < '0' || c > '9' {
            return false;
        }
        i = i + 1;
    }
    true
}

/// Number of leading `'0'` characters of the string.
fn leading_zero_count(s: &str) -> (r: usize)
    ensures
        r as int == leading_zeros(s@),
        r <= s@.len(),
{
    let n = s.unicode_len();
    let mut i: usize = 0;
    while i < n && s.get_char(i) == '0'
        invariant
            n == s@.len(),
            i <= n,
            forall|k: int| 0 <= k < i ==> s@[k] == '0',
        decreases n - i,
    {
        i = i + 1;
    }
    proof {
        lemma_leading_zeros(s@);
        let lz = leading_zeros(s@);
        if lz < i as int {
            assert(s@[lz] == '0');
        }
        if lz > i as int {
            assert(s@[i as int] == '0');
        }
    }
    i
}

/// Character-for-character string equality.
pub fn str_eq(a: &str, b: &str) -> (r: bool)
    ensures
        r == (a@ == b@),
{
    let na = a.unicode_len();
    let nb = b.unicode_len();
    if na != nb {
        return false;
    }
    let mut i: usize = 0;
    while i < na
        invariant
            na == a@.len(),
            nb == b@.len(),
            na == nb,
            i <= na,
            forall|k: int| 0 <= k < i ==> a@[k] == b@[k],
        decreases na - i,
    {
        if a.get_char(i) != b.get_char(i) {
            return false;
        }
        i = i + 1;
    }
    proof {
        assert(a@ =~= b@);
    }
    true
}

/// Lexicographic comparison by code point.
pub fn lex_less(a: &str, b: &str) -> (r: bool)
    ensures
        r == lex_lt(a@, b@),
{
    let na = a.unicode_len();
    let nb = b.unicode_len();
    let min = if na < nb {
        na
    } else {
        nb
    };
    let mut i: usize = 0;
    while i < min
        invariant
            na == a@.len(),
            nb == b@.len(),
            min == if na < nb {
                na
            } else {
                nb
            },
            i <= min,
            forall|k: int| 0 <= k < i ==> a@[k] == b@[k],
        decreases min - i,
    {
        let ca = a.get_char(i);
        let cb = b.get_char(i);
        if ca != cb {
            proof {
                lemma_lex_lt_skip(a@, b@, i as int);
                assert(a@.skip(i as int)[0] == a@[i as int]);
                assert(b@.skip(i as int)[0] == b@[i as int]);
            }
            return ca < cb;
        }
        i = i + 1;
    }
    proof {
        lemma_lex_lt_skip(a@, b@, min as int);
    }
    na < nb
}

/// Comparison in the label order; `label_less(a, b)` says `a` sorts
/// strictly before `b`.
pub fn label_less(a: &str, b: &str) -> (r: bool)
    ensures
        r == label_lt(a@, b@),
{
    let num_a = str_is_numeric(a);
    let num_b = str_is_numeric(b);
    if num_a && num_b {
        proof {
            lemma_leading_zeros(a@);
            lemma_leading_zeros(b@);
        }
        let za = leading_zero_count(a);
        let zb = leading_zero_count(b);
        let la = a.unicode_len() - za;
        let lb = b.unicode_len() - zb;
        if la != lb {
            return la < lb;
        }
        let mut j: usize = 0;
        while j < la
            invariant
                num_a && num_b,
                is_numeric_label(a@) && is_numeric_label(b@),
                za as int == leading_zeros(a@),
                zb as int == leading_zeros(b@),
                za + la == a@.len(),
                zb + lb == b@.len(),
                a@.len() <= usize::MAX,
                b@.len() <= usize::MAX,
                la == lb,
                j <= la,
                forall|k: int| #![trigger a@[za + k]] 0 <= k < j ==> a@[za + k] == b@[zb + k],
            decreases la - j,
        {
            let ca = a.get_char(za + j);
            let cb = b.get_char(zb + j);
            if ca != cb {
                proof {
                    assert(forall|k: int|
                        0 <= k < j ==> stripped(a@)[k] == a@[za + k] && stripped(b@)[k] == b@[zb
                            + k]);
                    lemma_lex_lt_skip(stripped(a@), stripped(b@), j as int);
                    assert(stripped(a@).skip(j as int)[0] == stripped(a@)[j as int]);
                    assert(stripped(b@).skip(j as int)[0] == stripped(b@)[j as int]);
                    assert(stripped(a@)[j as int] == a@[za + j]);
                    assert(stripped(b@)[j as int] == b@[zb + j]);
                }
                return ca < cb;
            }
            j = j + 1;
        }
        proof {
            assert(stripped(a@) =~= stripped(b@)) by {
                assert(forall|k: int|
                    0 <= k < la ==> stripped(a@)[k] == a@[za + k] && stripped(b@)[k] == b@[zb
                        + k]);
            }
            lemma_lex_lt_irrefl(stripped(a@));
        }
        lex_less(a, b)
    } else if num_a {
        true
    } else if num_b {
        false
    } else {
        lex_less(a, b)
    }
}

} // verus!
