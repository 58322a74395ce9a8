//! Exact comparison of decimal number strings.
//!
//! The rule engine's `greater_than` / `less_than` operators coerce both
//! sides through decimal parsing, with non-numeric strings counting as 0.
//! A decimal literal is an optional sign, then digits with at most one
//! dot and at least one digit (`-12`, `3.5`, `.5`, `7.`).  Its value is
//! the exact rational the digits denote; two strings are compared by
//! cross-multiplying numerators with the other side's power-of-ten
//! denominator, so no precision is ever lost.

use vstd::prelude::*;
use crate::text::copy_range;

verus! {

pub open spec fn is_digit(c: char) -> bool {
    '0' <= c && c <= '9'
}

pub open spec fn digit_val(c: char) -> int {
    c as int - '0' as int
}

pub open spec fn all_digits(s: Seq<char>) -> bool {
    forall|i: int| 0 <= i < s.len() ==> is_digit(#[trigger] s[i])
}

pub open spec fn pow10(n: nat) -> int
    decreases n,
{
    if n == 0 {
        1
    } else {
        10 * pow10((n - 1) as nat)
    }
}

/// The integer a digit string denotes, most significant digit first.
pub open spec fn digits_val(s: Seq<char>) -> int
    decreases s.len(),
{
    if s.len() == 0 {
        0
    } else {
        digit_val(s[0]) * pow10((s.len() - 1) as nat) + digits_val(s.skip(1))
    }
}

// ── Rendering and parsing unsigned integers ───────────────────────────

/// The character for one digit value.
pub open spec fn digit_char(d: int) -> char {
    (48 + d) as char
}

/// The decimal rendering of a non-negative integer, no leading zeros.
pub open spec fn u64_digits(n: int) -> Seq<char>
    decreases n,
{
    if n < 10 {
        seq![digit_char(n)]
    } else {
        u64_digits(n / 10).push(digit_char(n % 10))
    }
}

pub proof fn lemma_u64_digits_all_digits(n: int)
    requires
        n >= 0,
    ensures
        all_digits(u64_digits(n)),
        u64_digits(n).len() >= 1,
    decreases n,
{
    if n < 10 {
        assert(is_digit(digit_char(n)));
    } else {
        lemma_u64_digits_all_digits(n / 10);
        assert(is_digit(digit_char(n % 10)));
    }
}

/// The character for one digit value (executable).
pub fn digit_char_exec(d: u64) -> (c: char)
    requires
        d <= 9,
    ensures
        c == digit_char(d as int),
{
    if d == 0 {
        '0'
    } else if d == 1 {
        '1'
    } else if d == 2 {
        '2'
    } else if d == 3 {
        '3'
    } else if d == 4 {
        '4'
    } else if d == 5 {
        '5'
    } else if d == 6 {
        '6'
    } else if d == 7 {
        '7'
    } else if d == 8 {
        '8'
    } else {
        '9'
    }
}

/// The value of one digit character (executable).
pub fn digit_of(c: char) -> (d: u64)
    requires
        is_digit(c),
    ensures
        d == digit_val(c),
{
    if c == '0' {
        0
    } else if c == '1' {
        1
    } else if c == '2' {
        2
    } else if c == '3' {
        3
    } else if c == '4' {
        4
    } else if c == '5' {
        5
    } else if c == '6' {
        6
    } else if c == '7' {
        7
    } else if c == '8' {
        8
    } else {
        9
    }
}

/// Renders an unsigned integer in decimal.
pub fn u64_to_chars(n: u64) -> (r: Vec<char>)
    ensures
        r@ == u64_digits(n as int),
    decreases n,
{
    if n < 10 {
        let mut r: Vec<char> = Vec::new();
        r.push(digit_char_exec(n));
        proof {
            assert(r@ =~= seq![digit_char(n as int)]);
        }
        r
    } else {
        let mut r = u64_to_chars(n / 10);
        r.push(digit_char_exec(n % 10));
        r
    }
}

/// Reads the digit string `v[from..to]` as an unsigned integer.
pub fn parse_digits_u64(v: &Vec<char>, from: usize, to: usize) -> (r: u64)
    requires
        from <= to <= v@.len(),
        all_digits(v@.subrange(from as int, to as int)),
        to - from <= 19,
    ensures
        r == digits_val(v@.subrange(from as int, to as int)),
{
    let ghost whole = v@.subrange(from as int, to as int);
    let mut acc: u64 = 0;
    let mut k: usize = from;
    while k < to
        invariant
            from <= k <= to <= v@.len(),
            to - from <= 19,
            whole == v@.subrange(from as int, to as int),
            all_digits(whole),
            acc == digits_val(whole.take(k - from)),
        decreases to - k,
    {
        let c = v[k];
        proof {
            lemma_pow10_19_bound();
            assert(whole[k - from] == v@[k as int]);
            assert(is_digit(c));
            lemma_digits_val_bounds(whole.take(k - from));
            lemma_pow10_le(((k - from)) as nat, 18);
            assert(whole.take(k - from + 1) =~= whole.take(k - from) + seq![c]);
            lemma_digits_val_concat(whole.take(k - from), seq![c]);
            assert(digits_val(seq![c]) == digit_val(c) * pow10(0) + digits_val(
                seq![c].skip(1),
            ));
            assert(seq![c].skip(1) =~= Seq::<char>::empty());
            assert(acc * 10 + digit_val(c) <= (pow10(18) - 1) * 10 + 9) by (nonlinear_arith)
                requires
                    acc <= pow10(18) - 1,
                    digit_val(c) <= 9,
            ;
        }
        acc = acc * 10 + digit_of(c);
        k = k + 1;
    }
    proof {
        assert(whole.take(to - from) =~= whole);
    }
    acc
}

pub proof fn lemma_pow10_le(a: nat, b: nat)
    requires
        a <= b,
    ensures
        pow10(a) <= pow10(b),
    decreases b,
{
    if a < b && b > 0 {
        lemma_pow10_le(a, (b - 1) as nat);
        lemma_pow10_pos((b - 1) as nat);
    }
}

pub proof fn lemma_pow10_19_bound()
    ensures
        pow10(19) < u64::MAX,
        pow10(18) * 10 == pow10(19),
{
    reveal_with_fuel(pow10, 20);
}

// ── Shape of a decimal literal ────────────────────────────────────────

/// Index of the first occurrence of `c` in `s`, or -1.
pub open spec fn first_pos(s: Seq<char>, c: char) -> int
    decreases s.len(),
{
    if s.len() == 0 {
        -1
    } else if s[0] == c {
        0
    } else {
        let r = first_pos(s.skip(1), c);
        if r < 0 {
            -1
        } else {
            r + 1
        }
    }
}

pub open spec fn sign_len(s: Seq<char>) -> int {
    if s.len() > 0 && (s[0] == '+' || s[0] == '-') {
        1
    } else {
        0
    }
}

pub open spec fn neg_of(s: Seq<char>) -> bool {
    s.len() > 0 && s[0] == '-'
}

pub open spec fn body_of(s: Seq<char>) -> Seq<char> {
    s.skip(sign_len(s))
}

pub open spec fn int_digits_of(s: Seq<char>) -> Seq<char> {
    let b = body_of(s);
    let d = first_pos(b, '.');
    if d < 0 {
        b
    } else {
        b.take(d)
    }
}

pub open spec fn frac_digits_of(s: Seq<char>) -> Seq<char> {
    let b = body_of(s);
    let d = first_pos(b, '.');
    if d < 0 {
        Seq::<char>::empty()
    } else {
        b.skip(d + 1)
    }
}

/// Whether `s` is a decimal literal of the dialect.
pub open spec fn is_decimal(s: Seq<char>) -> bool {
    &&& all_digits(int_digits_of(s))
    &&& all_digits(frac_digits_of(s))
    &&& int_digits_of(s).len() + frac_digits_of(s).len() > 0
}

/// Scaled numerator: the literal's value times `dec_den`; 0 for
/// non-numeric strings.
pub open spec fn dec_num(s: Seq<char>) -> int {
    if !is_decimal(s) {
        0
    } else {
        let abs = digits_val(int_digits_of(s)) * pow10(frac_digits_of(s).len())
            + digits_val(frac_digits_of(s));
        if neg_of(s) {
            -abs
        } else {
            abs
        }
    }
}

/// Power-of-ten denominator; 1 for non-numeric strings.
pub open spec fn dec_den(s: Seq<char>) -> int {
    if !is_decimal(s) {
        1
    } else {
        pow10(frac_digits_of(s).len())
    }
}

/// The value of `a` is strictly below the value of `b`.
pub open spec fn dec_lt(a: Seq<char>, b: Seq<char>) -> bool {
    dec_num(a) * dec_den(b) < dec_num(b) * dec_den(a)
}

// ── Arithmetic lemmas ─────────────────────────────────────────────────

pub proof fn lemma_pow10_pos(n: nat)
    ensures
        pow10(n) >= 1,
    decreases n,
{
    if n > 0 {
        lemma_pow10_pos((n - 1) as nat);
    }
}

pub proof fn lemma_pow10_add(a: nat, b: nat)
    ensures
        pow10(a + b) == pow10(a) * pow10(b),
    decreases a,
{
    if a == 0 {
    } else {
        lemma_pow10_add((a - 1) as nat, b);
        assert(pow10(a + b) == 10 * pow10((a + b - 1) as nat));
        assert(10 * (pow10((a - 1) as nat) * pow10(b)) == (10 * pow10((a - 1) as nat)) * pow10(
            b,
        )) by (nonlinear_arith);
    }
}

pub proof fn lemma_digits_val_bounds(s: Seq<char>)
    requires
        all_digits(s),
    ensures
        0 <= digits_val(s) < pow10(s.len()),
    decreases s.len(),
{
    if s.len() == 0 {
    } else {
        assert(is_digit(s[0]));
        lemma_digits_val_bounds(s.skip(1));
        lemma_pow10_pos((s.len() - 1) as nat);
        let p = pow10((s.len() - 1) as nat);
        let d = digit_val(s[0]);
        assert(0 <= d <= 9);
        assert(0 <= d * p <= 9 * p) by (nonlinear_arith)
            requires
                0 <= d <= 9,
                p >= 1,
        ;
        assert(pow10(s.len()) == 10 * p);
    }
}

pub proof fn lemma_digits_val_concat(x: Seq<char>, y: Seq<char>)
    ensures
        digits_val(x + y) == digits_val(x) * pow10(y.len()) + digits_val(y),
    decreases x.len(),
{
    if x.len() == 0 {
        assert(x + y =~= y);
    } else {
        let s = x + y;
        assert(s.skip(1) =~= x.skip(1) + y);
        lemma_digits_val_concat(x.skip(1), y);
        lemma_pow10_add((x.len() - 1) as nat, y.len());
        let d = digit_val(x[0]);
        let p1 = pow10((x.len() - 1) as nat);
        let p2 = pow10(y.len());
        assert(s[0] == x[0]);
        assert(digits_val(s) == d * (p1 * p2) + (digits_val(x.skip(1)) * p2 + digits_val(y)));
        assert(d * (p1 * p2) + digits_val(x.skip(1)) * p2 == (d * p1 + digits_val(x.skip(1)))
            * p2) by (nonlinear_arith);
    }
}

/// A run of `n` zero characters.
pub open spec fn zeros(n: nat) -> Seq<char> {
    Seq::new(n, |i: int| '0')
}

pub proof fn lemma_zeros_val(n: nat)
    ensures
        all_digits(zeros(n)),
        digits_val(zeros(n)) == 0,
    decreases n,
{
    if n > 0 {
        lemma_zeros_val((n - 1) as nat);
        assert(zeros(n).skip(1) =~= zeros((n - 1) as nat));
        assert(zeros(n)[0] == '0');
        assert(digit_val('0') == 0);
        assert(digits_val(zeros(n)) == 0 * pow10((n - 1) as nat) + digits_val(zeros(n).skip(1)));
    }
}

/// Two equal-length digit strings that agree up to `k` and differ at `k`
/// compare by that digit.
pub proof fn lemma_first_diff(a: Seq<char>, b: Seq<char>, k: int)
    requires
        a.len() == b.len(),
        all_digits(a),
        all_digits(b),
        0 <= k < a.len(),
        a.take(k) == b.take(k),
        digit_val(a[k]) < digit_val(b[k]),
    ensures
        digits_val(a) < digits_val(b),
{
    let n = a.len() as int;
    assert(a =~= a.take(k) + a.skip(k));
    assert(b =~= b.take(k) + b.skip(k));
    assert(forall|i: int| 0 <= i < a.take(k).len() ==> is_digit(#[trigger] a.take(k)[i]));
    assert(forall|i: int| 0 <= i < a.skip(k).len() ==> is_digit(#[trigger] a.skip(k)[i]));
    assert(forall|i: int| 0 <= i < b.skip(k).len() ==> is_digit(#[trigger] b.skip(k)[i]));
    lemma_digits_val_concat(a.take(k), a.skip(k));
    lemma_digits_val_concat(b.take(k), b.skip(k));
    // The suffixes decide the comparison.
    let sa = a.skip(k);
    let sb = b.skip(k);
    let m = sa.len();
    let p = pow10((m - 1) as nat);
    lemma_digits_val_bounds(sa.skip(1));
    lemma_digits_val_bounds(sb.skip(1));
    lemma_pow10_pos((m - 1) as nat);
    assert(digits_val(sa) == digit_val(sa[0]) * p + digits_val(sa.skip(1)));
    assert(digits_val(sb) == digit_val(sb[0]) * p + digits_val(sb.skip(1)));
    assert(sa[0] == a[k] && sb[0] == b[k]);
    assert(digit_val(sa[0]) * p + p <= digit_val(sb[0]) * p) by (nonlinear_arith)
        requires
            digit_val(sa[0]) < digit_val(sb[0]),
            p >= 1,
    ;
    assert(digits_val(sa) < digits_val(sb));
    let hv = digits_val(a.take(k));
    assert(digits_val(b.take(k)) == hv);
    let pm = pow10(m as nat);
    assert(digits_val(a) == hv * pm + digits_val(sa));
    assert(digits_val(b) == hv * pm + digits_val(sb));
}

// ── Executable parsing ────────────────────────────────────────────────

pub proof fn lemma_first_pos(s: Seq<char>, c: char)
    ensures
        -1 <= first_pos(s, c) < s.len(),
        first_pos(s, c) >= 0 ==> s[first_pos(s, c)] == c,
        first_pos(s, c) >= 0 ==> forall|j: int| 0 <= j < first_pos(s, c) ==> s[j] != c,
        first_pos(s, c) == -1 ==> forall|j: int| 0 <= j < s.len() ==> s[j] != c,
    decreases s.len(),
{
    if s.len() > 0 && s[0] != c {
        lemma_first_pos(s.skip(1), c);
        assert(forall|j: int| 1 <= j < s.len() ==> s[j] == s.skip(1)[j - 1]);
    }
}

pub fn find_first_pos(v: &Vec<char>, start: usize, c: char) -> (r: Option<usize>)
    requires
        start <= v@.len(),
    ensures
        match r {
            Some(i) => start <= i < v@.len() && first_pos(v@.skip(start as int), c) == i - start,
            None => first_pos(v@.skip(start as int), c) == -1,
        },
{
    proof {
        lemma_first_pos(v@.skip(start as int), c);
    }
    let n: usize = v.len();
    let mut i: usize = start;
    while i < n
        invariant
            n == v@.len(),
            start <= i <= n,
            -1 <= first_pos(v@.skip(start as int), c) < n - start,
            first_pos(v@.skip(start as int), c) >= 0 ==> v@.skip(start as int)[first_pos(
                v@.skip(start as int),
                c,
            )] == c,
            first_pos(v@.skip(start as int), c) >= 0 ==> forall|j: int|
                0 <= j < first_pos(v@.skip(start as int), c) ==> v@.skip(start as int)[j] != c,
            first_pos(v@.skip(start as int), c) == -1 ==> forall|j: int|
                0 <= j < n - start ==> v@.skip(start as int)[j] != c,
            forall|j: int| start <= j < i ==> v@[j] != c,
        decreases n - i,
    {
        if v[i] == c {
            proof {
                let fp = first_pos(v@.skip(start as int), c);
                assert(v@.skip(start as int)[i - start] == c);
                assert(fp >= 0);
                assert(fp >= i - start);
                if fp > i - start {
                    assert(v@.skip(start as int)[fp] == c);
                    assert(v@[start + fp] != c);
                }
            }
            return Some(i);
        }
        i = i + 1;
    }
    proof {
        let fp = first_pos(v@.skip(start as int), c);
        if fp >= 0 {
            assert(v@[start + fp] != c);
        }
    }
    None
}

pub fn all_digits_exec(v: &Vec<char>, from: usize, to: usize) -> (r: bool)
    requires
        from <= to <= v@.len(),
    ensures
        r == all_digits(v@.subrange(from as int, to as int)),
{
    let mut k: usize = from;
    while k < to
        invariant
            from <= k <= to <= v@.len(),
            forall|j: int| from <= j < k ==> is_digit(#[trigger] v@[j]),
        decreases to - k,
    {
        let c = v[k];
        if !('0' <= c && c <= '9') {
            proof {
                assert(v@.subrange(from as int, to as int)[k - from] == v@[k as int]);
            }
            return false;
        }
        k = k + 1;
    }
    proof {
        assert(forall|j: int|
            0 <= j < to - from ==> v@.subrange(from as int, to as int)[j] == v@[from + j]);
    }
    true
}

/// Parsed form of a decimal string: validity, sign, integer digits and
/// fraction digits.
struct ParsedDecimal {
    ok: bool,
    neg: bool,
    int_digits: Vec<char>,
    frac_digits: Vec<char>,
}

fn parse_decimal(v: &Vec<char>) -> (r: ParsedDecimal)
    ensures
        r.ok == is_decimal(v@),
        r.ok ==> r.neg == neg_of(v@),
        r.ok ==> r.int_digits@ == int_digits_of(v@),
        r.ok ==> r.frac_digits@ == frac_digits_of(v@),
{
    let n: usize = v.len();
    let neg = n > 0 && v[0] == '-';
    let start: usize = if n > 0 && (v[0] == '+' || v[0] == '-') {
        1
    } else {
        0
    };
    proof {
        assert(start == sign_len(v@));
        assert(body_of(v@) =~= v@.skip(start as int));
    }
    let (int_end, frac_start): (usize, usize) = match find_first_pos(v, start, '.') {
        Some(d) => {
            proof {
                lemma_first_pos(v@.skip(start as int), '.');
            }
            (d, d + 1)
        },
        None => (n, n),
    };
    proof {
        let b = body_of(v@);
        let d = first_pos(b, '.');
        if d < 0 {
            assert(int_digits_of(v@) =~= v@.subrange(start as int, n as int));
            assert(frac_digits_of(v@) =~= v@.subrange(n as int, n as int));
        } else {
            assert(int_digits_of(v@) =~= v@.subrange(start as int, int_end as int));
            assert(frac_digits_of(v@) =~= v@.subrange(frac_start as int, n as int));
        }
    }
    let ints_ok = all_digits_exec(v, start, int_end);
    let fracs_ok = all_digits_exec(v, frac_start, n);
    let some_digit = int_end - start > 0 || n - frac_start > 0;
    let ok = ints_ok && fracs_ok && some_digit;
    let int_digits = copy_range(v, start, int_end);
    let frac_digits = copy_range(v, frac_start, n);
    ParsedDecimal { ok, neg, int_digits, frac_digits }
}

// ── Executable comparison ─────────────────────────────────────────────

/// Left-pads with zeros to `total` digits, right-pads the fraction; the
/// result denotes `digits_val(int_digits) * pow10(frac_total) +
/// digits_val(frac_digits) * pow10(frac_total - frac_digits.len())`.
fn padded_digits(
    int_digits: &Vec<char>,
    frac_digits: &Vec<char>,
    int_total: usize,
    frac_total: usize,
) -> (r: Vec<char>)
    requires
        int_digits@.len() <= int_total,
        frac_digits@.len() <= frac_total,
    ensures
        r@ =~= zeros((int_total - int_digits@.len()) as nat) + int_digits@ + frac_digits@ + zeros(
            (frac_total - frac_digits@.len()) as nat,
        ),
        r@.len() == int_total + frac_total,
{
    let mut r: Vec<char> = Vec::new();
    let lead: usize = int_total - int_digits.len();
    let mut k: usize = 0;
    while k < lead
        invariant
            k <= lead,
            r@ =~= zeros(k as nat),
        decreases lead - k,
    {
        r.push('0');
        k = k + 1;
        proof {
            assert(r@ =~= zeros(k as nat));
        }
    }
    crate::pathutil::append_chars(&mut r, int_digits);
    crate::pathutil::append_chars(&mut r, frac_digits);
    let tail: usize = frac_total - frac_digits.len();
    let ghost mid = r@;
    let mut k2: usize = 0;
    while k2 < tail
        invariant
            k2 <= tail,
            r@ =~= mid + zeros(k2 as nat),
        decreases tail - k2,
    {
        r.push('0');
        k2 = k2 + 1;
        proof {
            assert(r@ =~= mid + zeros(k2 as nat));
        }
    }
    proof {
        assert(r@ =~= zeros(lead as nat) + int_digits@ + frac_digits@ + zeros(tail as nat));
    }
    r
}

/// Lexicographic comparison of equal-length digit strings equals
/// numeric comparison; returns -1, 0 or 1.
fn compare_digit_vecs(a: &Vec<char>, b: &Vec<char>) -> (r: i8)
    requires
        a@.len() == b@.len(),
        all_digits(a@),
        all_digits(b@),
    ensures
        r == -1 <==> digits_val(a@) < digits_val(b@),
        r == 1 <==> digits_val(a@) > digits_val(b@),
        r == 0 <==> digits_val(a@) == digits_val(b@),
{
    let n: usize = a.len();
    let mut k: usize = 0;
    while k < n
        invariant
            n == a@.len() == b@.len(),
            k <= n,
            all_digits(a@),
            all_digits(b@),
            a@.take(k as int) == b@.take(k as int),
        decreases n - k,
    {
        let ca = a[k];
        let cb = b[k];
        if ca != cb {
            if ca < cb {
                proof {
                    lemma_first_diff(a@, b@, k as int);
                }
                return -1;
            } else {
                proof {
                    lemma_first_diff(b@, a@, k as int);
                }
                return 1;
            }
        }
        k = k + 1;
        proof {
            assert(a@.take(k as int) =~= b@.take(k as int));
        }
    }
    proof {
        assert(a@ =~= a@.take(n as int));
        assert(b@ =~= b@.take(n as int));
    }
    0
}

/// Compares two strings as decimal numbers; non-numeric strings count
/// as 0.  Returns -1, 0 or 1.
pub fn compare_decimal(a: &Vec<char>, b: &Vec<char>) -> (r: i8)
    ensures
        r == -1 <==> dec_lt(a@, b@),
        r == 1 <==> dec_lt(b@, a@),
        r == 0 <==> !dec_lt(a@, b@) && !dec_lt(b@, a@),
{
    let pa = parse_decimal(a);
    let pb = parse_decimal(b);
    let (neg_a, ia, fa): (bool, Vec<char>, Vec<char>) = if pa.ok {
        (pa.neg, pa.int_digits, pa.frac_digits)
    } else {
        (false, zero_digit_vec(), Vec::new())
    };
    let (neg_b, ib, fb): (bool, Vec<char>, Vec<char>) = if pb.ok {
        (pb.neg, pb.int_digits, pb.frac_digits)
    } else {
        (false, zero_digit_vec(), Vec::new())
    };
    proof {
        if !is_decimal(a@) {
            assert(digits_val(ia@) == digit_val('0') * pow10(0) + digits_val(ia@.skip(1)));
            assert(ia@.skip(1) =~= Seq::<char>::empty());
        }
        if !is_decimal(b@) {
            assert(digits_val(ib@) == digit_val('0') * pow10(0) + digits_val(ib@.skip(1)));
            assert(ib@.skip(1) =~= Seq::<char>::empty());
        }
    }
    // From here: the value of `a` is sign_a * (digits_val(ia) * pow10(|fa|)
    // + digits_val(fa)) over pow10(|fa|), and likewise for `b`.
    compare_decimal_parts(neg_a, &ia, &fa, neg_b, &ib, &fb, Ghost(a@), Ghost(b@))
}

/// The single digit `0`, the stand-in value for non-numeric strings.
fn zero_digit_vec() -> (r: Vec<char>)
    ensures
        r@ =~= seq!['0'],
        all_digits(r@),
{
    let mut r: Vec<char> = Vec::new();
    r.push('0');
    r
}

/// The numerator the parsed pieces denote, with `num_sign` applied.
spec fn abs_of(i: Seq<char>, f: Seq<char>) -> int {
    digits_val(i) * pow10(f.len()) + digits_val(f)
}

fn compare_decimal_parts(
    neg_a: bool,
    ia: &Vec<char>,
    fa: &Vec<char>,
    neg_b: bool,
    ib: &Vec<char>,
    fb: &Vec<char>,
    Ghost(sa): Ghost<Seq<char>>,
    Ghost(sb): Ghost<Seq<char>>,
) -> (r: i8)
    requires
        all_digits(ia@) && all_digits(fa@) && all_digits(ib@) && all_digits(fb@),
        dec_num(sa) == if neg_a {
            -abs_of(ia@, fa@)
        } else {
            abs_of(ia@, fa@)
        },
        dec_num(sb) == if neg_b {
            -abs_of(ib@, fb@)
        } else {
            abs_of(ib@, fb@)
        },
        dec_den(sa) == pow10(fa@.len()),
        dec_den(sb) == pow10(fb@.len()),
    ensures
        r == -1 <==> dec_lt(sa, sb),
        r == 1 <==> dec_lt(sb, sa),
        r == 0 <==> !dec_lt(sa, sb) && !dec_lt(sb, sa),
{
    let int_total: usize = if ia.len() > ib.len() {
        ia.len()
    } else {
        ib.len()
    };
    let frac_total: usize = if fa.len() > fb.len() {
        fa.len()
    } else {
        fb.len()
    };
    let ca = padded_digits(ia, fa, int_total, frac_total);
    let cb = padded_digits(ib, fb, int_total, frac_total);
    let ghost xa = abs_of(ia@, fa@);
    let ghost xb = abs_of(ib@, fb@);
    let ghost qa = pow10((frac_total - fa@.len()) as nat);
    let ghost qb = pow10((frac_total - fb@.len()) as nat);
    proof {
        lemma_padded_value(ia@, fa@, int_total as nat, frac_total as nat, ca@);
        lemma_padded_value(ib@, fb@, int_total as nat, frac_total as nat, cb@);
        lemma_pow10_pos((frac_total - fa@.len()) as nat);
        lemma_pow10_pos((frac_total - fb@.len()) as nat);
        lemma_pow10_pos(fa@.len());
        lemma_pow10_pos(fb@.len());
        lemma_digits_val_bounds(ia@);
        lemma_digits_val_bounds(fa@);
        lemma_digits_val_bounds(ib@);
        lemma_digits_val_bounds(fb@);
        assert(xa >= 0) by (nonlinear_arith)
            requires
                xa == abs_of(ia@, fa@),
                digits_val(ia@) >= 0,
                digits_val(fa@) >= 0,
                pow10(fa@.len()) >= 1,
        ;
        assert(xb >= 0) by (nonlinear_arith)
            requires
                xb == abs_of(ib@, fb@),
                digits_val(ib@) >= 0,
                digits_val(fb@) >= 0,
                pow10(fb@.len()) >= 1,
        ;
        lemma_scale_equiv(sa, sb, ia@, fa@, ib@, fb@, frac_total as nat, ca@, cb@);
    }
    let cmp_abs = compare_digit_vecs(&ca, &cb);
    // A zero absolute value neutralises the sign.
    let zero_a = cmp_all_zero(&ca);
    let zero_b = cmp_all_zero(&cb);
    proof {
        if zero_a {
            lemma_zeros_val(ca@.len() as nat);
            assert(ca@ =~= zeros(ca@.len() as nat));
            assert(xa == 0) by (nonlinear_arith)
                requires
                    xa * qa == 0,
                    qa >= 1,
                    xa >= 0,
            ;
        } else {
            lemma_nonzero_positive(ca@);
            assert(xa > 0) by (nonlinear_arith)
                requires
                    xa * qa > 0,
                    qa >= 1,
                    xa >= 0,
            ;
        }
        if zero_b {
            lemma_zeros_val(cb@.len() as nat);
            assert(cb@ =~= zeros(cb@.len() as nat));
            assert(xb == 0) by (nonlinear_arith)
                requires
                    xb * qb == 0,
                    qb >= 1,
                    xb >= 0,
            ;
        } else {
            lemma_nonzero_positive(cb@);
            assert(xb > 0) by (nonlinear_arith)
                requires
                    xb * qb > 0,
                    qb >= 1,
                    xb >= 0,
            ;
        }
    }
    let sign_a = neg_a && !zero_a;
    let sign_b = neg_b && !zero_b;
    if sign_a && !sign_b {
        proof {
            assert(dec_num(sa) < 0);
            assert(dec_num(sb) >= 0);
            lemma_sign_decides(sa, sb);
        }
        -1
    } else if !sign_a && sign_b {
        proof {
            assert(dec_num(sb) < 0);
            assert(dec_num(sa) >= 0);
            lemma_sign_decides(sb, sa);
        }
        1
    } else if sign_a && sign_b {
        proof {
            assert(dec_num(sa) == -xa && dec_num(sb) == -xb);
            lemma_neg_flip(sa, sb, xa, xb);
        }
        if cmp_abs == -1 {
            1
        } else if cmp_abs == 1 {
            -1
        } else {
            0
        }
    } else {
        proof {
            assert(dec_num(sa) == xa);
            assert(dec_num(sb) == xb);
        }
        cmp_abs
    }
}

/// For two non-positive values the comparison of absolute numerators
/// flips.
proof fn lemma_neg_flip(sa: Seq<char>, sb: Seq<char>, xa: int, xb: int)
    requires
        dec_num(sa) == -xa,
        dec_num(sb) == -xb,
    ensures
        dec_lt(sa, sb) <==> xb * dec_den(sa) < xa * dec_den(sb),
        dec_lt(sb, sa) <==> xa * dec_den(sb) < xb * dec_den(sa),
        (!dec_lt(sa, sb) && !dec_lt(sb, sa)) <==> xa * dec_den(sb) == xb * dec_den(sa),
{
    assert((-xa) * dec_den(sb) == -(xa * dec_den(sb))) by (nonlinear_arith);
    assert((-xb) * dec_den(sa) == -(xb * dec_den(sa))) by (nonlinear_arith);
}

/// All characters are `'0'`.
fn cmp_all_zero(v: &Vec<char>) -> (r: bool)
    ensures
        r == forall|i: int| 0 <= i < v@.len() ==> v@[i] == '0',
{
    let mut k: usize = 0;
    while k < v.len()
        invariant
            k <= v@.len(),
            forall|i: int| 0 <= i < k ==> v@[i] == '0',
        decreases v@.len() - k,
    {
        if v[k] != '0' {
            return false;
        }
        k = k + 1;
    }
    true
}

proof fn lemma_nonzero_positive(s: Seq<char>)
    requires
        all_digits(s),
        exists|i: int| 0 <= i < s.len() && s[i] != '0',
    ensures
        digits_val(s) > 0,
{
    lemma_zeros_val(s.len() as nat);
    // Compare `zeros` with `s` at the first nonzero position of `s`.
    let k = first_nonzero(s);
    lemma_first_nonzero(s);
    assert(zeros(s.len() as nat).take(k) =~= s.take(k));
    assert(is_digit(s[k]));
    assert(digit_val(zeros(s.len() as nat)[k]) < digit_val(s[k]));
    lemma_first_diff(zeros(s.len() as nat), s, k);
}

/// First index holding a character other than `'0'` (meaningful only
/// when one exists).
spec fn first_nonzero(s: Seq<char>) -> int
    decreases s.len(),
{
    if s.len() == 0 {
        0
    } else if s[0] != '0' {
        0
    } else {
        1 + first_nonzero(s.skip(1))
    }
}

proof fn lemma_first_nonzero(s: Seq<char>)
    requires
        exists|i: int| 0 <= i < s.len() && s[i] != '0',
    ensures
        0 <= first_nonzero(s) < s.len(),
        s[first_nonzero(s)] != '0',
        forall|j: int| 0 <= j < first_nonzero(s) ==> s[j] == '0',
    decreases s.len(),
{
    if s[0] != '0' {
    } else {
        let i = choose|i: int| 0 <= i < s.len() && s[i] != '0';
        assert(s.skip(1)[i - 1] != '0');
        lemma_first_nonzero(s.skip(1));
        assert(forall|j: int| 1 <= j < 1 + first_nonzero(s.skip(1)) ==> s[j] == s.skip(1)[j - 1]);
    }
}

/// The padded digit string denotes the numerator scaled to the common
/// fraction length.
proof fn lemma_padded_value(
    i: Seq<char>,
    f: Seq<char>,
    int_total: nat,
    frac_total: nat,
    c: Seq<char>,
)
    requires
        all_digits(i),
        all_digits(f),
        i.len() <= int_total,
        f.len() <= frac_total,
        c =~= zeros((int_total - i.len()) as nat) + i + f + zeros((frac_total - f.len()) as nat),
    ensures
        all_digits(c),
        digits_val(c) == abs_of(i, f) * pow10((frac_total - f.len()) as nat),
        c.len() == int_total + frac_total,
{
    let lead = zeros((int_total - i.len()) as nat);
    let tail = zeros((frac_total - f.len()) as nat);
    lemma_zeros_val((int_total - i.len()) as nat);
    lemma_zeros_val((frac_total - f.len()) as nat);
    assert(all_digits(c));
    lemma_digits_val_concat(lead + i + f, tail);
    lemma_digits_val_concat(lead + i, f);
    lemma_digits_val_concat(lead, i);
    let pt = pow10(tail.len());
    let pf = pow10(f.len());
    assert(digits_val(lead) == 0);
    assert(digits_val(lead + i) == digits_val(i)) by {
        assert(0 * pow10(i.len()) == 0) by (nonlinear_arith);
    }
    assert(digits_val(lead + i + f) == digits_val(i) * pf + digits_val(f));
    assert(digits_val(c) == (digits_val(i) * pf + digits_val(f)) * pt + 0);
    assert((digits_val(i) * pf + digits_val(f)) * pt == abs_of(i, f) * pt) by (nonlinear_arith)
        requires
            abs_of(i, f) == digits_val(i) * pf + digits_val(f),
    ;
}

/// Scaling both numerators to the common fraction length keeps the
/// cross-multiplied comparison.
proof fn lemma_scale_equiv(
    sa: Seq<char>,
    sb: Seq<char>,
    ia: Seq<char>,
    fa: Seq<char>,
    ib: Seq<char>,
    fb: Seq<char>,
    frac_total: nat,
    ca: Seq<char>,
    cb: Seq<char>,
)
    requires
        fa.len() <= frac_total,
        fb.len() <= frac_total,
        dec_den(sa) == pow10(fa.len()),
        dec_den(sb) == pow10(fb.len()),
        digits_val(ca) == abs_of(ia, fa) * pow10((frac_total - fa.len()) as nat),
        digits_val(cb) == abs_of(ib, fb) * pow10((frac_total - fb.len()) as nat),
    ensures
        abs_of(ia, fa) * dec_den(sb) < abs_of(ib, fb) * dec_den(sa) <==> digits_val(ca)
            < digits_val(cb),
        abs_of(ia, fa) * dec_den(sb) == abs_of(ib, fb) * dec_den(sa) <==> digits_val(ca)
            == digits_val(cb),
{
    let xa = abs_of(ia, fa);
    let xb = abs_of(ib, fb);
    let fla = fa.len();
    let flb = fb.len();
    let qa = pow10((frac_total - fla) as nat);
    let qb = pow10((frac_total - flb) as nat);
    let pa = pow10(fla);
    let pb = pow10(flb);
    lemma_pow10_pos((frac_total - fla) as nat);
    lemma_pow10_pos(flb);
    lemma_pow10_add((frac_total - fla) as nat, fla);
    lemma_pow10_add((frac_total - flb) as nat, flb);
    // Both products pow10(F - fla) * pow10(fla) and pow10(F - flb) *
    // pow10(flb) are pow10(F).
    assert(qa * pa == qb * pb);
    // Scale both sides of each comparison by the same positive factors.
    assert(digits_val(ca) * pb == (xa * pb) * qa) by (nonlinear_arith)
        requires
            digits_val(ca) == xa * qa,
    ;
    assert(digits_val(cb) * pb == (xb * pa) * qa) by (nonlinear_arith)
        requires
            digits_val(cb) == xb * qb,
            qb * pb == qa * pa,
    ;
    assert(((xa * pb) * qa < (xb * pa) * qa <==> xa * pb < xb * pa) && ((xa * pb) * qa == (xb
        * pa) * qa <==> xa * pb == xb * pa)) by (nonlinear_arith)
        requires
            qa >= 1,
    ;
    assert((digits_val(ca) * pb < digits_val(cb) * pb <==> digits_val(ca) < digits_val(cb)) && (
    digits_val(ca) * pb == digits_val(cb) * pb <==> digits_val(ca) == digits_val(cb)))
        by (nonlinear_arith)
        requires
            pb >= 1,
    ;
}

/// A strictly negative value is below a non-negative one.
proof fn lemma_sign_decides(sneg: Seq<char>, spos: Seq<char>)
    requires
        dec_num(sneg) < 0,
        dec_num(spos) >= 0,
        dec_den(sneg) >= 1,
        dec_den(spos) >= 1,
    ensures
        dec_lt(sneg, spos),
        !dec_lt(spos, sneg),
{
    assert(dec_num(sneg) * dec_den(spos) < 0) by (nonlinear_arith)
        requires
            dec_num(sneg) < 0,
            dec_den(spos) >= 1,
    ;
    assert(dec_num(spos) * dec_den(sneg) >= 0) by (nonlinear_arith)
        requires
            dec_num(spos) >= 0,
            dec_den(sneg) >= 1,
    ;
}

} // verus!
