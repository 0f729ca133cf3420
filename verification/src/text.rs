//! Character-level text utilities shared by the query engine: ASCII case
//! folding, substring search, lexicographic comparison and decimal parsing
//! all operate on `Vec<char>` buffers so that every step is visible to the
//! verifier.

use vstd::prelude::*;
use vstd::string::StrSliceExecFns;

verus! {

/// ASCII-lowered form of a single character: `A`..`Z` map to `a`..`z`,
/// every other character is unchanged.
pub open spec fn lower_char(c: char) -> char {
    if 'A' <= c && c <= 'Z' {
        ((c as u8) + 32) as char
    } else {
        c
    }
}

/// ASCII-lowered form of a character sequence. Folding is deliberately
/// ASCII-only: letters beyond ASCII compare verbatim, where a Unicode
/// fold would also equate their cases.
pub open spec fn lower(s: Seq<char>) -> Seq<char> {
    s.map_values(|c: char| lower_char(c))
}

/// `needle` occurs as a contiguous run inside `hay`.
pub open spec fn contains_seq(hay: Seq<char>, needle: Seq<char>) -> bool {
    exists|i: int|
        0 <= i && i + needle.len() <= hay.len() && #[trigger] hay.subrange(
            i,
            i + needle.len(),
        ) == needle
}

/// Lower-case one character (ASCII range only).
pub fn ascii_lower_char(c: char) -> (r: char)
    ensures
        r == lower_char(c),
{
    if 'A' <= c && c <= 'Z' {
        (((c as u8) + 32) as char)
    } else {
        c
    }
}

/// Lower-case every character of a buffer.
pub fn lower_vec(v: &Vec<char>) -> (r: Vec<char>)
    ensures
        r@ == lower(v@),
{
    let mut out: Vec<char> = Vec::new();
    let mut i: usize = 0;
    while i < v.len()
        invariant
            i <= v.len(),
            out@ == lower(v@.subrange(0, i as int)),
        decreases v.len() - i,
    {
        out.push(ascii_lower_char(v[i]));
        proof {
            assert(v@.subrange(0, i + 1).drop_last() == v@.subrange(0, i as int));
            assert(lower(v@.subrange(0, i + 1)) == lower(v@.subrange(0, i as int)).push(
                lower_char(v@[i as int]),
            )) by {
                assert(lower(v@.subrange(0, i + 1)) =~= lower(v@.subrange(0, i as int)).push(
                    lower_char(v@[i as int]),
                ));
            }
        }
        i = i + 1;
    }
    proof {
        assert(v@.subrange(0, v@.len() as int) == v@);
    }
    out
}

/// Collect the characters of a string slice into a vector.
pub fn chars_of(s: &str) -> (r: Vec<char>)
    ensures
        r@ == s@,
{
    let n = s.unicode_len();
    let mut out: Vec<char> = Vec::new();
    let mut i: usize = 0;
    while i < n
        invariant
            n == s@.len(),
            i <= n,
            out@ == s@.subrange(0, i as int),
        decreases n - i,
    {
        out.push(s.get_char(i));
        proof {
            assert(out@ =~= s@.subrange(0, i + 1));
        }
        i = i + 1;
    }
    proof {
        assert(s@.subrange(0, s@.len() as int) == s@);
    }
    out
}

/// Character-for-character equality of two buffers.
pub fn chars_eq(a: &Vec<char>, b: &Vec<char>) -> (r: bool)
    ensures
        r == (a@ == b@),
{
    if a.len() != b.len() {
        return false;
    }
    let mut i: usize = 0;
    while i < a.len()
        invariant
            a@.len() == b@.len(),
            i <= a@.len(),
            forall|j: int| 0 <= j < i ==> a@[j] == b@[j],
        decreases a.len() - i,
    {
        if a[i] != b[i] {
            return false;
        }
        i = i + 1;
    }
    proof {
        assert(a@ =~= b@);
    }
    true
}

/// Substring search: does `needle` occur contiguously inside `hay`?
pub fn contains_sub(hay: &Vec<char>, needle: &Vec<char>) -> (r: bool)
    ensures
        r == contains_seq(hay@, needle@),
{
    if needle.len() > hay.len() {
        return false;
    }
    if needle.len() == 0 {
        proof {
            assert(hay@.subrange(0, 0 + needle@.len() as int) =~= needle@);
            assert(contains_seq(hay@, needle@));
        }
        return true;
    }
    let count: usize = hay.len() - needle.len() + 1;
    let mut i: usize = 0;
    while i < count
        invariant
            1 <= needle@.len() <= hay@.len(),
            count == hay@.len() - needle@.len() + 1,
            i <= count,
            forall|k: int|
                0 <= k < i ==> #[trigger] hay@.subrange(k, k + needle@.len()) != needle@,
        decreases count - i,
    {
        if matches_at(hay, needle, i) {
            return true;
        }
        i = i + 1;
    }
    false
}

/// Does `needle` occur in `hay` starting at position `at`?
pub(crate) fn matches_at(hay: &Vec<char>, needle: &Vec<char>, at: usize) -> (r: bool)
    requires
        at + needle@.len() <= hay@.len(),
    ensures
        r == (hay@.subrange(at as int, at + needle@.len()) == needle@),
{
    let mut j: usize = 0;
    while j < needle.len()
        invariant
            at + needle@.len() <= hay@.len(),
            j <= needle@.len(),
            forall|k: int| 0 <= k < j ==> hay@[at + k] == needle@[k],
        decreases needle.len() - j,
    {
        let hlen: usize = hay.len();
        assert(at + j < hlen);
        let h: usize = at + j;
        if hay[h] != needle[j] {
            assert(hay@.subrange(at as int, at + needle@.len())[j as int] != needle@[j as int]);
            return false;
        }
        j = j + 1;
    }
    proof {
        assert(hay@.subrange(at as int, at + needle@.len()) =~= needle@);
    }
    true
}

} // verus!

// ---------------------------------------------------------------------------
// Decimal numbers
// ---------------------------------------------------------------------------

verus! {

/// A decimal digit.
pub open spec fn is_digit(c: char) -> bool {
    '0' <= c && c <= '9'
}

/// Numeric value of a decimal digit.
pub open spec fn digit_val(c: char) -> int {
    (c as u32) - ('0' as u32)
}

/// Every character of `s` is a decimal digit.
pub open spec fn all_digits(s: Seq<char>) -> bool {
    forall|i: int| 0 <= i < s.len() ==> is_digit(#[trigger] s[i])
}

/// Ten to the `n`.
pub open spec fn pow10(n: nat) -> int
    decreases n,
{
    if n == 0 {
        1
    } else {
        10 * pow10((n - 1) as nat)
    }
}

/// The natural number written by a digit string, most significant digit first.
pub open spec fn digits_val(s: Seq<char>) -> int
    decreases s.len(),
{
    if s.len() == 0 {
        0
    } else {
        digit_val(s[0]) * pow10((s.len() - 1) as nat) + digits_val(s.drop_first())
    }
}

/// A leading `-` makes the number negative.
pub open spec fn dec_is_neg(s: Seq<char>) -> bool {
    s.len() > 0 && s[0] == '-'
}

/// The characters after an optional leading sign.
pub open spec fn dec_body(s: Seq<char>) -> Seq<char> {
    if s.len() > 0 && (s[0] == '-' || s[0] == '+') {
        s.drop_first()
    } else {
        s
    }
}

/// Index of the first `.` in `s`, or `s.len()` if there is none.
pub open spec fn first_dot(s: Seq<char>) -> int
    decreases s.len(),
{
    if s.len() == 0 {
        0
    } else if s[0] == '.' {
        0
    } else {
        1 + first_dot(s.drop_first())
    }
}

/// The digits before the decimal point.
pub open spec fn dec_int_digits(s: Seq<char>) -> Seq<char> {
    let b = dec_body(s);
    b.subrange(0, first_dot(b))
}

/// The digits after the decimal point.
pub open spec fn dec_frac_digits(s: Seq<char>) -> Seq<char> {
    let b = dec_body(s);
    if first_dot(b) < b.len() {
        b.subrange(first_dot(b) + 1, b.len() as int)
    } else {
        Seq::empty()
    }
}

/// `s` is a plain decimal number: an optional sign, then digits with at
/// most one point and at least one digit. The grammar is deliberately
/// exact and finite: exponent, infinity and NaN forms are not numbers
/// here and compare as text, where a float parse would have accepted
/// them and rounded.
pub open spec fn is_decimal(s: Seq<char>) -> bool {
    &&& all_digits(dec_int_digits(s))
    &&& all_digits(dec_frac_digits(s))
    &&& dec_int_digits(s).len() + dec_frac_digits(s).len() >= 1
}

/// A run of `n` zero digits.
pub open spec fn zero_digits(n: nat) -> Seq<char> {
    Seq::new(n, |i: int| '0')
}

/// Magnitude of the decimal `s`, scaled by ten to the `l`
/// (meaningful when `l` is at least the number of fraction digits).
pub open spec fn dec_scaled_mag(s: Seq<char>, l: nat) -> int {
    digits_val(
        dec_int_digits(s) + dec_frac_digits(s) + zero_digits(
            (l - dec_frac_digits(s).len()) as nat,
        ),
    )
}

/// Signed value of the decimal `s`, scaled by ten to the `l`.
pub open spec fn dec_scaled_val(s: Seq<char>, l: nat) -> int {
    if dec_is_neg(s) {
        -dec_scaled_mag(s, l)
    } else {
        dec_scaled_mag(s, l)
    }
}

/// Order of two decimal numbers: -1, 0 or 1 as the value of `a` is below,
/// equal to or above the value of `b`. Both values are scaled by a common
/// power of ten, which leaves their order unchanged.
pub open spec fn dec_cmp(a: Seq<char>, b: Seq<char>) -> int {
    let l = if dec_frac_digits(a).len() >= dec_frac_digits(b).len() {
        dec_frac_digits(a).len()
    } else {
        dec_frac_digits(b).len()
    };
    let va = dec_scaled_val(a, l);
    let vb = dec_scaled_val(b, l);
    if va < vb {
        -1
    } else if va == vb {
        0
    } else {
        1
    }
}

/// Digit strings with the leading zeros removed.
pub open spec fn strip_zeros(s: Seq<char>) -> Seq<char>
    decreases s.len(),
{
    if s.len() > 0 && s[0] == '0' {
        strip_zeros(s.drop_first())
    } else {
        s
    }
}

pub(crate) proof fn lemma_pow10_pos(n: nat)
    ensures
        pow10(n) >= 1,
    decreases n,
{
    if n > 0 {
        lemma_pow10_pos((n - 1) as nat);
    }
}

pub(crate) proof fn lemma_pow10_add(m: nat, n: nat)
    ensures
        pow10(m + n) == pow10(m) * pow10(n),
    decreases m,
{
    if m == 0 {
    } else {
        lemma_pow10_add((m - 1) as nat, n);
        assert(10 * ((pow10((m - 1) as nat)) * pow10(n)) == (10 * pow10((m - 1) as nat)) * pow10(
            n,
        )) by (nonlinear_arith);
    }
}

pub(crate) proof fn lemma_pow10_mono(m: nat, n: nat)
    requires
        m <= n,
    ensures
        pow10(m) <= pow10(n),
    decreases n,
{
    if m < n {
        lemma_pow10_mono(m, (n - 1) as nat);
        lemma_pow10_pos((n - 1) as nat);
    }
}

/// Positional decomposition: a digit string splits at any point into a
/// high part shifted by the length of the low part.
pub(crate) proof fn lemma_digits_val_concat(p: Seq<char>, q: Seq<char>)
    ensures
        digits_val(p + q) == digits_val(p) * pow10(q.len()) + digits_val(q),
    decreases p.len(),
{
    if p.len() == 0 {
        assert(p + q =~= q);
    } else {
        assert((p + q).drop_first() =~= p.drop_first() + q);
        lemma_digits_val_concat(p.drop_first(), q);
        lemma_pow10_add((p.len() - 1) as nat, q.len());
        let d = digit_val(p[0]);
        assert(d * (pow10((p.len() - 1) as nat) * pow10(q.len())) == (d * pow10(
            (p.len() - 1) as nat,
        )) * pow10(q.len())) by (nonlinear_arith);
        assert((d * pow10((p.len() - 1) as nat) + digits_val(p.drop_first())) * pow10(q.len()) == (
        d * pow10((p.len() - 1) as nat)) * pow10(q.len()) + digits_val(p.drop_first()) * pow10(
            q.len(),
        )) by (nonlinear_arith);
    }
}

/// The value of a digit string is non-negative and below ten to its length.
pub(crate) proof fn lemma_digits_val_bounds(s: Seq<char>)
    requires
        all_digits(s),
    ensures
        0 <= digits_val(s) < pow10(s.len()),
    decreases s.len(),
{
    if s.len() == 0 {
    } else {
        assert(is_digit(s[0]));
        lemma_digits_val_bounds(s.drop_first());
        lemma_pow10_pos((s.len() - 1) as nat);
        let d = digit_val(s[0]);
        let p = pow10((s.len() - 1) as nat);
        assert(0 <= d <= 9);
        assert(0 <= d * p <= 9 * p) by (nonlinear_arith)
            requires
                0 <= d <= 9,
                p >= 1,
        ;
        assert(9 * p + (p - 1) < 10 * p);
    }
}

/// A digit string beginning with a non-zero digit is at least ten to the
/// length of its tail.
proof fn lemma_digits_val_first_nonzero(s: Seq<char>)
    requires
        all_digits(s),
        s.len() > 0,
        s[0] != '0',
    ensures
        digits_val(s) >= pow10((s.len() - 1) as nat),
{
    assert(is_digit(s[0]));
    lemma_digits_val_bounds(s.drop_first());
    let d = digit_val(s[0]);
    let p = pow10((s.len() - 1) as nat);
    lemma_pow10_pos((s.len() - 1) as nat);
    assert(d >= 1);
    assert(d * p >= p) by (nonlinear_arith)
        requires
            d >= 1,
            p >= 0,
    ;
}

/// Leading zeros do not change the value, even before a tail.
proof fn lemma_strip_zeros_concat(p: Seq<char>, q: Seq<char>)
    ensures
        digits_val(strip_zeros(p) + q) == digits_val(p + q),
        strip_zeros(p).len() <= p.len(),
        strip_zeros(p).len() > 0 ==> strip_zeros(p)[0] != '0',
        all_digits(p) ==> all_digits(strip_zeros(p)),
    decreases p.len(),
{
    if p.len() > 0 && p[0] == '0' {
        assert((p + q).drop_first() =~= p.drop_first() + q);
        lemma_strip_zeros_concat(p.drop_first(), q);
        assert(digit_val('0') == 0);
        assert(all_digits(p) ==> all_digits(p.drop_first())) by {
            if all_digits(p) {
                assert(forall|i: int|
                    0 <= i < p.drop_first().len() ==> #[trigger] p.drop_first()[i] == p[i + 1]);
            }
        }
    }
}

/// Zero digits have value zero.
pub(crate) proof fn lemma_zero_digits_val(n: nat)
    ensures
        digits_val(zero_digits(n)) == 0,
        all_digits(zero_digits(n)),
        zero_digits(n).len() == n,
    decreases n,
{
    if n > 0 {
        lemma_zero_digits_val((n - 1) as nat);
        assert(zero_digits(n).drop_first() =~= zero_digits((n - 1) as nat));
        assert(zero_digits(n)[0] == '0');
        assert(digit_val('0') == 0);
        assert(digit_val('0') * pow10((n - 1) as nat) == 0) by (nonlinear_arith)
            requires
                digit_val('0') == 0,
        ;
    }
}

/// Equal-length digit strings are ordered by their first differing digit.
proof fn lemma_digits_val_lex(a: Seq<char>, b: Seq<char>, k: int)
    requires
        all_digits(a),
        all_digits(b),
        a.len() == b.len(),
        0 <= k < a.len(),
        forall|j: int| 0 <= j < k ==> a[j] == b[j],
        digit_val(a[k]) < digit_val(b[k]),
    ensures
        digits_val(a) < digits_val(b),
    decreases k,
{
    let p = pow10((a.len() - 1) as nat);
    if k == 0 {
        let da = digit_val(a[0]);
        let db = digit_val(b[0]);
        lemma_digits_val_bounds(a.drop_first());
        lemma_digits_val_bounds(b.drop_first());
        assert(da * p + (p - 1) < db * p) by (nonlinear_arith)
            requires
                da < db,
                p >= 1,
        ;
        lemma_pow10_pos((a.len() - 1) as nat);
    } else {
        assert(forall|i: int|
            0 <= i < a.drop_first().len() ==> #[trigger] a.drop_first()[i] == a[i + 1]);
        assert(forall|i: int|
            0 <= i < b.drop_first().len() ==> #[trigger] b.drop_first()[i] == b[i + 1]);
        lemma_digits_val_lex(a.drop_first(), b.drop_first(), k - 1);
        assert(digit_val(a[0]) == digit_val(b[0]));
    }
}

/// If two digit strings differ in length and the longer one does not start
/// with zero, the longer one has the greater value.
proof fn lemma_digits_val_longer(short: Seq<char>, long: Seq<char>)
    requires
        all_digits(short),
        all_digits(long),
        short.len() < long.len(),
        long[0] != '0',
    ensures
        digits_val(short) < digits_val(long),
{
    lemma_digits_val_bounds(short);
    lemma_digits_val_first_nonzero(long);
    lemma_pow10_mono(short.len(), (long.len() - 1) as nat);
}

/// A digit string has value zero exactly when all its digits are zero.
proof fn lemma_digits_val_zero(s: Seq<char>)
    requires
        all_digits(s),
    ensures
        digits_val(s) == 0 <==> (forall|i: int| 0 <= i < s.len() ==> s[i] == '0'),
    decreases s.len(),
{
    if s.len() > 0 {
        assert(is_digit(s[0]));
        lemma_digits_val_zero(s.drop_first());
        lemma_digits_val_bounds(s.drop_first());
        let d = digit_val(s[0]);
        let p = pow10((s.len() - 1) as nat);
        lemma_pow10_pos((s.len() - 1) as nat);
        assert(d >= 0);
        assert(d >= 1 ==> d * p >= p) by (nonlinear_arith)
            requires
                p >= 0,
        ;
        assert(d == 0 ==> d * p == 0) by (nonlinear_arith);
        assert(d * p >= 0) by (nonlinear_arith)
            requires
                d >= 0,
                p >= 1,
        ;
        assert(s[0] == '0' <==> d == 0);
        if digits_val(s) == 0 {
            assert(d * p == 0);
            assert(d == 0) by (nonlinear_arith)
                requires
                    d * p == 0,
                    p >= 1,
                    d >= 0,
            ;
            assert forall|i: int| 0 <= i < s.len() implies s[i] == '0' by {
                if i >= 1 {
                    assert(s[i] == s.drop_first()[i - 1]);
                }
            }
        }
    }
}

} // verus!

// ---------------------------------------------------------------------------
// Decimal parsing and comparison, executable
// ---------------------------------------------------------------------------

verus! {

/// A single digit writes its own value.
proof fn lemma_digits_val_single(c: char)
    ensures
        digits_val(seq![c]) == digit_val(c),
{
    let s = seq![c];
    assert(s.len() == 1);
    assert(s[0] == c);
    assert(s.drop_first() =~= Seq::<char>::empty());
    assert(digits_val(s.drop_first()) == 0);
    assert(pow10(0) == 1);
    assert(digit_val(c) * pow10(0) == digit_val(c)) by (nonlinear_arith)
        requires
            pow10(0) == 1,
    ;
}

/// First-occurrence characterisation of `first_dot`.
proof fn lemma_first_dot_props(s: Seq<char>)
    ensures
        0 <= first_dot(s) <= s.len(),
        first_dot(s) < s.len() ==> s[first_dot(s)] == '.',
        forall|j: int| 0 <= j < first_dot(s) ==> s[j] != '.',
    decreases s.len(),
{
    if s.len() > 0 && s[0] != '.' {
        lemma_first_dot_props(s.drop_first());
        assert forall|j: int| 0 <= j < first_dot(s) implies s[j] != '.' by {
            if j >= 1 {
                assert(s[j] == s.drop_first()[j - 1]);
            }
        }
        if first_dot(s) < s.len() {
            assert(s[first_dot(s)] == s.drop_first()[first_dot(s) - 1]);
        }
    }
}

/// Is `c` a decimal digit?
pub fn digit(c: char) -> (r: bool)
    ensures
        r == is_digit(c),
{
    '0' <= c && c <= '9'
}

/// Split a plain decimal number into its sign, integer digits and fraction
/// digits; `None` when `s` is not a decimal number.
pub fn parse_decimal(s: &Vec<char>) -> (r: Option<(bool, Vec<char>, Vec<char>)>)
    ensures
        r is Some <==> is_decimal(s@),
        match r {
            Some((neg, ip, fp)) => neg == dec_is_neg(s@) && ip@ == dec_int_digits(s@) && fp@
                == dec_frac_digits(s@),
            None => true,
        },
{
    proof {
        lemma_first_dot_props(dec_body(s@));
    }
    let ghost body = dec_body(s@);
    let mut off: usize = 0;
    let mut neg = false;
    if s.len() > 0 && (s[0] == '+' || s[0] == '-') {
        neg = s[0] == '-';
        off = 1;
    }
    proof {
        assert(body =~= s@.subrange(off as int, s@.len() as int));
    }
    let mut i: usize = off;
    let mut ip: Vec<char> = Vec::new();
    while i < s.len() && s[i] != '.'
        invariant
            off <= i <= s@.len(),
            body == s@.subrange(off as int, s@.len() as int),
            ip@ == s@.subrange(off as int, i as int),
            forall|j: int| off <= j < i ==> s@[j] != '.' && is_digit(s@[j]),
            neg == dec_is_neg(s@),
            off == if dec_is_neg(s@) || (s@.len() > 0 && s@[0] == '+') {
                1int
            } else {
                0int
            },
        decreases s.len() - i,
    {
        if !digit(s[i]) {
            // the offending character sits among the integer digits
            proof {
                assert(dec_body(s@) =~= s@.subrange(off as int, s@.len() as int));
                assert(body == dec_body(s@));
                lemma_first_dot_props(body);
                assert(forall|j: int| 0 <= j < i - off ==> body[j] != '.');
                assert(body[i - off] == s@[i as int]);
                assert(first_dot(body) > i - off) by {
                    if first_dot(body) <= i - off {
                        assert(body[first_dot(body)] == '.');
                    }
                }
                assert(dec_int_digits(s@)[i - off] == s@[i as int]);
                assert(!is_digit(dec_int_digits(s@)[i - off]));
            }
            return None;
        }
        ip.push(s[i]);
        proof {
            assert(ip@ =~= s@.subrange(off as int, i + 1));
        }
        i = i + 1;
    }
    if i == s.len() {
        // no decimal point: the body is all integer digits
        proof {
            assert(first_dot(body) == body.len()) by {
                if first_dot(body) < body.len() {
                    assert(body[first_dot(body)] == s@[off + first_dot(body)]);
                }
            }
            assert(dec_int_digits(s@) =~= ip@);
            assert(dec_frac_digits(s@) =~= Seq::<char>::empty());
        }
        if ip.len() == 0 {
            return None;
        }
        let fp: Vec<char> = Vec::new();
        proof {
            assert(all_digits(ip@));
            assert(all_digits(Seq::<char>::empty()));
        }
        return Some((neg, ip, fp));
    }
    // s[i] is the first decimal point
    proof {
        assert(body[i - off] == '.');
        assert(first_dot(body) == i - off) by {
            if first_dot(body) < i - off {
                assert(body[first_dot(body)] == s@[off + first_dot(body)]);
            }
        }
        assert(dec_int_digits(s@) =~= ip@);
        assert(dec_frac_digits(s@) =~= s@.subrange(i + 1, s@.len() as int));
    }
    let dot: usize = i;
    let mut j: usize = dot + 1;
    let mut fp: Vec<char> = Vec::new();
    while j < s.len()
        invariant
            dot + 1 <= j <= s@.len(),
            fp@ == s@.subrange(dot + 1, j as int),
            forall|k: int| dot + 1 <= k < j ==> is_digit(s@[k]),
            dec_frac_digits(s@) == s@.subrange(dot + 1, s@.len() as int),
        decreases s.len() - j,
    {
        if !digit(s[j]) {
            proof {
                assert(dec_frac_digits(s@)[j - (dot + 1)] == s@[j as int]);
                assert(!is_digit(dec_frac_digits(s@)[j - (dot + 1)]));
            }
            return None;
        }
        fp.push(s[j]);
        proof {
            assert(fp@ =~= s@.subrange(dot + 1, j + 1));
        }
        j = j + 1;
    }
    if ip.len() == 0 && fp.len() == 0 {
        return None;
    }
    proof {
        assert(all_digits(ip@));
        assert(all_digits(fp@));
    }
    Some((neg, ip, fp))
}

/// Copy of `v` with the leading zero digits removed.
fn strip0(v: &Vec<char>) -> (r: Vec<char>)
    ensures
        r@ == strip_zeros(v@),
{
    proof {
        assert(v@.subrange(0, v@.len() as int) =~= v@);
    }
    let mut i: usize = 0;
    while i < v.len() && v[i] == '0'
        invariant
            i <= v@.len(),
            strip_zeros(v@) == strip_zeros(v@.subrange(i as int, v@.len() as int)),
        decreases v.len() - i,
    {
        proof {
            let cur = v@.subrange(i as int, v@.len() as int);
            assert(cur[0] == '0');
            assert(cur.drop_first() =~= v@.subrange(i + 1, v@.len() as int));
        }
        i = i + 1;
    }
    let start: usize = i;
    proof {
        let cur = v@.subrange(start as int, v@.len() as int);
        assert(strip_zeros(cur) == cur);
    }
    let mut out: Vec<char> = Vec::new();
    while i < v.len()
        invariant
            start <= i <= v@.len(),
            out@ == v@.subrange(start as int, i as int),
        decreases v.len() - i,
    {
        out.push(v[i]);
        proof {
            assert(out@ =~= v@.subrange(start as int, i + 1));
        }
        i = i + 1;
    }
    proof {
        assert(out@ =~= v@.subrange(start as int, v@.len() as int));
    }
    out
}

/// Compare two digit strings by the numbers they write. The longer string
/// must not begin with a zero digit, so that length decides.
fn cmp_mag(x: &Vec<char>, y: &Vec<char>) -> (r: i8)
    requires
        all_digits(x@),
        all_digits(y@),
        x@.len() > y@.len() ==> x@[0] != '0',
        y@.len() > x@.len() ==> y@[0] != '0',
    ensures
        r == -1 || r == 0 || r == 1,
        (r == -1) <==> digits_val(x@) < digits_val(y@),
        (r == 0) <==> digits_val(x@) == digits_val(y@),
        (r == 1) <==> digits_val(x@) > digits_val(y@),
{
    if x.len() < y.len() {
        proof {
            lemma_digits_val_longer(x@, y@);
        }
        return -1;
    }
    if x.len() > y.len() {
        proof {
            lemma_digits_val_longer(y@, x@);
        }
        return 1;
    }
    let mut i: usize = 0;
    while i < x.len()
        invariant
            all_digits(x@),
            all_digits(y@),
            x@.len() == y@.len(),
            i <= x@.len(),
            forall|j: int| 0 <= j < i ==> x@[j] == y@[j],
        decreases x.len() - i,
    {
        if x[i] < y[i] {
            proof {
                assert(digit_val(x@[i as int]) < digit_val(y@[i as int]));
                lemma_digits_val_lex(x@, y@, i as int);
            }
            return -1;
        }
        if y[i] < x[i] {
            proof {
                assert(digit_val(y@[i as int]) < digit_val(x@[i as int]));
                lemma_digits_val_lex(y@, x@, i as int);
            }
            return 1;
        }
        i = i + 1;
    }
    proof {
        assert(x@ =~= y@);
    }
    0
}

/// Compare two strings as decimal numbers: `None` when either of them is
/// not a decimal number, otherwise -1, 0 or 1 as the value of `a` is below,
/// equal to or above the value of `b`.
pub fn cmp_numeric(a: &Vec<char>, b: &Vec<char>) -> (r: Option<i8>)
    ensures
        r is Some <==> is_decimal(a@) && is_decimal(b@),
        match r {
            Some(c) => c as int == dec_cmp(a@, b@),
            None => true,
        },
{
    let pa = parse_decimal(a);
    let pb = parse_decimal(b);
    if pa.is_none() || pb.is_none() {
        return None;
    }
    let (na, ia, fa) = pa.unwrap();
    let (nb, ib, fb) = pb.unwrap();
    let l: usize = if fa.len() >= fb.len() {
        fa.len()
    } else {
        fb.len()
    };
    let xs = padded_mantissa(&ia, &fa, l);
    let ys = padded_mantissa(&ib, &fb, l);
    let ghost ll = l as nat;
    proof {
        lemma_padded_is_scaled_mag(a@, ll);
        lemma_padded_is_scaled_mag(b@, ll);
    }
    let ghost ma = dec_scaled_mag(a@, ll);
    let ghost mb = dec_scaled_mag(b@, ll);
    proof {
        lemma_digits_val_bounds(xs@);
        lemma_digits_val_bounds(ys@);
    }
    let m = cmp_mag(&xs, &ys);
    let r: i8 = if m == 0 {
        if na == nb {
            0
        } else {
            // equal magnitude, opposite signs: equal only at zero
            if digits_zero(&xs) {
                0
            } else if na {
                -1
            } else {
                1
            }
        }
    } else {
        if !na && !nb {
            m
        } else if na && nb {
            if m == -1 {
                1
            } else {
                -1
            }
        } else if na {
            // a is non-positive, b non-negative, magnitudes differ
            -1
        } else {
            1
        }
    };
    Some(r)
}

/// Does this digit string write the number zero?
fn digits_zero(v: &Vec<char>) -> (r: bool)
    requires
        all_digits(v@),
    ensures
        r == (digits_val(v@) == 0),
{
    proof {
        lemma_digits_val_zero(v@);
    }
    let mut i: usize = 0;
    while i < v.len()
        invariant
            all_digits(v@),
            i <= v@.len(),
            forall|j: int| 0 <= j < i ==> v@[j] == '0',
        decreases v.len() - i,
    {
        if v[i] != '0' {
            proof {
                lemma_digits_val_zero(v@);
            }
            return false;
        }
        i = i + 1;
    }
    true
}

/// The digit string whose value is the magnitude of the decimal scaled by
/// ten to the `l`: integer digits without leading zeros, fraction digits,
/// then padding zeros.
fn padded_mantissa(ip: &Vec<char>, fp: &Vec<char>, l: usize) -> (r: Vec<char>)
    requires
        all_digits(ip@),
        all_digits(fp@),
        fp@.len() <= l,
    ensures
        r@ == strip_zeros(ip@) + fp@ + zero_digits((l - fp@.len()) as nat),
        all_digits(r@),
        r@.len() == strip_zeros(ip@).len() + l,
        r@.len() > l ==> r@[0] != '0',
{
    let mut out = strip0(ip);
    proof {
        lemma_strip_zeros_concat(ip@, Seq::<char>::empty());
        lemma_zero_digits_val((l - fp@.len()) as nat);
    }
    let ghost si = strip_zeros(ip@);
    let mut k: usize = 0;
    while k < fp.len()
        invariant
            si == strip_zeros(ip@),
            out@ == si + fp@.subrange(0, k as int),
            k <= fp@.len(),
        decreases fp.len() - k,
    {
        out.push(fp[k]);
        proof {
            assert(out@ =~= si + fp@.subrange(0, k + 1));
        }
        k = k + 1;
    }
    proof {
        assert(fp@.subrange(0, fp@.len() as int) == fp@);
    }
    let pad: usize = l - fp.len();
    let mut z: usize = 0;
    while z < pad
        invariant
            si == strip_zeros(ip@),
            out@ == si + fp@ + zero_digits(z as nat),
            z <= pad,
        decreases pad - z,
    {
        out.push('0');
        proof {
            assert(out@ =~= si + fp@ + zero_digits((z + 1) as nat));
        }
        z = z + 1;
    }
    proof {
        lemma_strip_zeros_concat(ip@, Seq::<char>::empty());
        let zz = zero_digits((l - fp@.len()) as nat);
        lemma_zero_digits_val((l - fp@.len()) as nat);
        assert(all_digits(out@)) by {
            assert forall|i: int| 0 <= i < out@.len() implies is_digit(out@[i]) by {
                if i < si.len() {
                    assert(out@[i] == si[i]);
                } else if i < si.len() + fp@.len() {
                    assert(out@[i] == fp@[i - si.len()]);
                } else {
                    assert(out@[i] == zz[i - si.len() - fp@.len()]);
                }
            }
        }
        if out@.len() > l {
            assert(si.len() > 0);
            assert(out@[0] == si[0]);
        }
    }
    out
}

/// Concatenating the stripped integer digits, the fraction digits and the
/// padding zeros writes exactly the scaled magnitude of the decimal.
proof fn lemma_padded_is_scaled_mag(s: Seq<char>, l: nat)
    requires
        is_decimal(s),
        dec_frac_digits(s).len() <= l,
    ensures
        digits_val(
            strip_zeros(dec_int_digits(s)) + dec_frac_digits(s) + zero_digits(
                (l - dec_frac_digits(s).len()) as nat,
            ),
        ) == dec_scaled_mag(s, l),
{
    let ip = dec_int_digits(s);
    let fp = dec_frac_digits(s);
    let zz = zero_digits((l - fp.len()) as nat);
    assert(strip_zeros(ip) + fp + zz =~= strip_zeros(ip) + (fp + zz));
    assert(ip + fp + zz =~= ip + (fp + zz));
    lemma_strip_zeros_concat(ip, fp + zz);
}

} // verus!

// ---------------------------------------------------------------------------
// Unsigned integers and lexicographic order
// ---------------------------------------------------------------------------

verus! {

/// The characters after an optional leading `+`.
pub open spec fn uint_body(s: Seq<char>) -> Seq<char> {
    if s.len() > 0 && s[0] == '+' {
        s.drop_first()
    } else {
        s
    }
}

/// `s` writes an unsigned decimal integer: an optional `+`, then at least
/// one digit.
pub open spec fn is_uint_str(s: Seq<char>) -> bool {
    uint_body(s).len() > 0 && all_digits(uint_body(s))
}

/// The number written by `s`.
pub open spec fn uint_val(s: Seq<char>) -> int {
    digits_val(uint_body(s))
}

/// Parse an unsigned decimal integer, as `str::parse::<usize>` reads it:
/// `None` on an empty string, a stray character, or a value over
/// `usize::MAX`.
pub fn parse_usize(s: &Vec<char>) -> (r: Option<usize>)
    ensures
        r is Some <==> is_uint_str(s@) && uint_val(s@) <= usize::MAX,
        match r {
            Some(v) => v == uint_val(s@),
            None => true,
        },
{
    let mut off: usize = 0;
    if s.len() > 0 && s[0] == '+' {
        off = 1;
    }
    proof {
        assert(uint_body(s@) =~= s@.subrange(off as int, s@.len() as int));
    }
    if off == s.len() {
        return None;
    }
    let mut acc: u128 = 0;
    let mut i: usize = off;
    let max: u128 = usize::MAX as u128;
    while i < s.len()
        invariant
            off <= i <= s@.len(),
            uint_body(s@) == s@.subrange(off as int, s@.len() as int),
            forall|j: int| off <= j < i ==> is_digit(s@[j]),
            acc == digits_val(s@.subrange(off as int, i as int)),
            acc <= max,
            max == usize::MAX,
        decreases s.len() - i,
    {
        if !digit(s[i]) {
            proof {
                assert(uint_body(s@)[i - off] == s@[i as int]);
                assert(!is_digit(uint_body(s@)[i - off]));
            }
            return None;
        }
        let d: u128 = (s[i] as u32 - 48) as u128;
        let next: u128 = acc * 10 + d;
        proof {
            let pref = s@.subrange(off as int, i as int);
            let pref1 = s@.subrange(off as int, i + 1);
            assert(pref1 =~= pref + seq![s@[i as int]]);
            lemma_digits_val_concat(pref, seq![s@[i as int]]);
            lemma_digits_val_single(s@[i as int]);
            assert(digits_val(pref1) == digits_val(pref) * 10 + digit_val(s@[i as int]));
        }
        if next > max {
            // every remaining digit only enlarges the value
            proof {
                if is_uint_str(s@) && uint_val(s@) <= usize::MAX {
                    let body = uint_body(s@);
                    let pref1 = s@.subrange(off as int, i + 1);
                    let rest = s@.subrange(i + 1, s@.len() as int);
                    assert(body =~= pref1 + rest);
                    lemma_digits_val_concat(pref1, rest);
                    assert forall|k: int| 0 <= k < rest.len() implies is_digit(rest[k]) by {
                        assert(rest[k] == s@[i + 1 + k]);
                        assert(s@[i + 1 + k] == body[i + 1 + k - off]);
                        assert(is_digit(body[i + 1 + k - off]));
                    }
                    assert(all_digits(rest));
                    lemma_digits_val_bounds(rest);
                    lemma_pow10_pos(rest.len());
                    assert(digits_val(pref1) * pow10(rest.len()) >= digits_val(pref1)) by (
                    nonlinear_arith)
                        requires
                            digits_val(pref1) >= 0,
                            pow10(rest.len()) >= 1,
                    ;
                    assert(uint_val(s@) >= digits_val(pref1));
                    assert(false);
                }
            }
            return None;
        }
        acc = next;
        i = i + 1;
    }
    proof {
        assert(uint_body(s@) =~= s@.subrange(off as int, i as int));
    }
    Some(acc as usize)
}

/// Lexicographic order of two character sequences, by code point: -1, 0 or
/// 1 as `a` is below, equal to or above `b`. This is the order in which
/// `str::cmp` places strings.
pub open spec fn lex_cmp(a: Seq<char>, b: Seq<char>) -> int
    decreases a.len(),
{
    if a.len() == 0 && b.len() == 0 {
        0
    } else if a.len() == 0 {
        -1
    } else if b.len() == 0 {
        1
    } else if a[0] < b[0] {
        -1
    } else if b[0] < a[0] {
        1
    } else {
        lex_cmp(a.drop_first(), b.drop_first())
    }
}

/// Compare two character buffers lexicographically.
pub fn cmp_lex(a: &Vec<char>, b: &Vec<char>) -> (r: i8)
    ensures
        r as int == lex_cmp(a@, b@),
{
    proof {
        assert(a@.subrange(0, a@.len() as int) =~= a@);
        assert(b@.subrange(0, b@.len() as int) =~= b@);
    }
    let mut i: usize = 0;
    while i < a.len() && i < b.len()
        invariant
            i <= a@.len(),
            i <= b@.len(),
            forall|j: int| 0 <= j < i ==> a@[j] == b@[j],
            lex_cmp(a@, b@) == lex_cmp(
                a@.subrange(i as int, a@.len() as int),
                b@.subrange(i as int, b@.len() as int),
            ),
        decreases a.len() - i,
    {
        let ca = a[i];
        let cb = b[i];
        proof {
            let ta = a@.subrange(i as int, a@.len() as int);
            let tb = b@.subrange(i as int, b@.len() as int);
            assert(ta[0] == a@[i as int]);
            assert(tb[0] == b@[i as int]);
            assert(ta.drop_first() =~= a@.subrange(i + 1, a@.len() as int));
            assert(tb.drop_first() =~= b@.subrange(i + 1, b@.len() as int));
        }
        if ca < cb {
            return -1;
        }
        if cb < ca {
            return 1;
        }
        i = i + 1;
    }
    proof {
        assert(a@.subrange(0, a@.len() as int) =~= a@);
        assert(b@.subrange(0, b@.len() as int) =~= b@);
    }
    if i < b.len() {
        return -1;
    }
    if i < a.len() {
        return 1;
    }
    0
}

} // verus!

// ---------------------------------------------------------------------------
// Strings
// ---------------------------------------------------------------------------

verus! {

/// Relies on `String: FromIterator<&char>`: collecting a `Vec<char>` yields
/// the string with exactly those characters.
#[verifier::external_body]
pub fn string_from_chars(v: &Vec<char>) -> (r: String)
    ensures
        r@ == v@,
{
    v.iter().collect()
}

} // verus!

verus! {

/// Copy of `v` from position `from` to the end.
pub fn copy_tail(v: &Vec<char>, from: usize) -> (r: Vec<char>)
    requires
        from <= v@.len(),
    ensures
        r@ == v@.subrange(from as int, v@.len() as int),
{
    let mut out: Vec<char> = Vec::new();
    let mut i: usize = from;
    while i < v.len()
        invariant
            from <= i <= v@.len(),
            out@ == v@.subrange(from as int, i as int),
        decreases v.len() - i,
    {
        out.push(v[i]);
        proof {
            assert(out@ =~= v@.subrange(from as int, i + 1));
        }
        i = i + 1;
    }
    out
}

} // verus!
