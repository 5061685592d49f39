//! Decimal rendering of integers, millisecond latencies with three decimal
//! places, and the grammar of plain decimal number strings used when metric
//! values are coerced from text.

use vstd::prelude::*;

verus! {

/// The character for one decimal digit.
pub open spec fn dec_digit(d: int) -> char {
    if d == 0 {
        '0'
    } else if d == 1 {
        '1'
    } else if d == 2 {
        '2'
    } else if d == 3 {
        '3'
    } else if d == 4 {
        '4'
    } else if d == 5 {
        '5'
    } else if d == 6 {
        '6'
    } else if d == 7 {
        '7'
    } else if d == 8 {
        '8'
    } else {
        '9'
    }
}

/// The usual decimal rendering of a natural number, no leading zeros.
pub open spec fn dec_seq(n: nat) -> Seq<char>
    decreases n,
{
    if n < 10 {
        seq![dec_digit(n as int)]
    } else {
        dec_seq(n / 10) + seq![dec_digit((n % 10) as int)]
    }
}

/// The decimal rendering of a signed number.
pub open spec fn int_seq(v: int) -> Seq<char> {
    if v >= 0 {
        dec_seq(v as nat)
    } else {
        seq!['-'] + dec_seq((-v) as nat)
    }
}

fn digit_char(d: u8) -> (c: char)
    requires
        d < 10,
    ensures
        c == dec_digit(d as int),
{
    match d {
        0 => '0',
        1 => '1',
        2 => '2',
        3 => '3',
        4 => '4',
        5 => '5',
        6 => '6',
        7 => '7',
        8 => '8',
        _ => '9',
    }
}

/// Render an unsigned integer in decimal.
pub fn u64_to_string(n: u64) -> (r: String)
    ensures
        r@ == dec_seq(n as nat),
    decreases n,
{
    if n < 10 {
        let mut s = String::new();
        s.push(digit_char(n as u8));
        proof {
            assert(s@ =~= dec_seq(n as nat));
        }
        s
    } else {
        let mut s = u64_to_string(n / 10);
        s.push(digit_char((n % 10) as u8));
        proof {
            assert(s@ =~= dec_seq(n as nat));
        }
        s
    }
}

/// Render a signed integer in decimal.
pub fn i64_to_string(v: i64) -> (r: String)
    ensures
        r@ == int_seq(v as int),
{
    if v >= 0 {
        u64_to_string(v as u64)
    } else {
        let mag: u64 = if v == i64::MIN {
            9223372036854775808u64
        } else {
            (-v) as u64
        };
        let mut s = String::from_str("-");
        let tail = u64_to_string(mag);
        s.append(tail.as_str());
        proof {
            reveal_strlit("-");
            assert(s@ =~= int_seq(v as int));
        }
        s
    }
}

/// Exactly three digits, zero-padded: the fractional part of a millisecond
/// value carried in microseconds.
pub open spec fn frac3_seq(f: nat) -> Seq<char> {
    seq![dec_digit(((f / 100) % 10) as int), dec_digit(((f / 10) % 10) as int), dec_digit((f % 10) as int)]
}

/// A microsecond count rendered as milliseconds with three decimal places.
pub open spec fn ms3_seq(micros: nat) -> Seq<char> {
    dec_seq(micros / 1000) + seq!['.'] + frac3_seq(micros % 1000)
}

/// Render a microsecond duration as `milliseconds.micros`, three decimal
/// places, the precision latencies are reported with.
pub fn format_ms_3(micros: u64) -> (r: String)
    ensures
        r@ == ms3_seq(micros as nat),
{
    let mut s = u64_to_string(micros / 1000);
    let f = micros % 1000;
    s.push('.');
    s.push(digit_char(((f / 100) % 10) as u8));
    s.push(digit_char(((f / 10) % 10) as u8));
    s.push(digit_char((f % 10) as u8));
    proof {
        assert(s@ =~= ms3_seq(micros as nat));
    }
    s
}

/// A decimal digit character.
pub open spec fn is_dec_digit(c: char) -> bool {
    '0' <= c <= '9'
}

/// Every character of `s` is a decimal digit.
pub open spec fn all_dec_digits(s: Seq<char>) -> bool {
    forall|i: int| 0 <= i < s.len() ==> is_dec_digit(#[trigger] s[i])
}

/// A mantissa: digits carrying at most one dot anywhere among them, with
/// at least one digit — `42`, `42.`, `4.2`, `.42`, never `.` alone.
pub open spec fn is_mantissa(s: Seq<char>) -> bool {
    (s.len() > 0 && all_dec_digits(s)) || (exists|i: int|
        0 <= i < s.len() && s.len() >= 2 && (#[trigger] s[i]) == '.' && all_dec_digits(
            s.subrange(0, i),
        ) && all_dec_digits(s.subrange(i + 1, s.len() as int)))
}

/// Digits with an optional leading sign, at least one digit.
pub open spec fn is_signed_digits(s: Seq<char>) -> bool {
    if s.len() > 0 && (s[0] == '+' || s[0] == '-') {
        s.len() > 1 && all_dec_digits(s.skip(1))
    } else {
        s.len() > 0 && all_dec_digits(s)
    }
}

/// An exponent marker with its signed digits: `e5`, `E-3`, `e+07`.
pub open spec fn is_exponent(s: Seq<char>) -> bool {
    s.len() >= 2 && (s[0] == 'e' || s[0] == 'E') && is_signed_digits(s.skip(1))
}

/// An unsigned number, as `f64` text parsing reads one (the infinity and
/// not-a-number words aside, which are no numeric metrics): a mantissa,
/// optionally followed by an exponent.
pub open spec fn is_unsigned_number(s: Seq<char>) -> bool {
    is_mantissa(s) || (exists|k: int|
        0 < k < s.len() && ((#[trigger] s[k]) == 'e' || s[k] == 'E') && is_mantissa(s.take(k))
            && is_exponent(s.skip(k)))
}

/// A number with an optional leading sign.
pub open spec fn is_number_seq(s: Seq<char>) -> bool {
    if s.len() > 0 && (s[0] == '+' || s[0] == '-') {
        is_unsigned_number(s.skip(1))
    } else {
        is_unsigned_number(s)
    }
}

fn check_digits(s: &str, from: usize, to: usize) -> (b: bool)
    requires
        from <= to <= s@.len(),
    ensures
        b == all_dec_digits(s@.subrange(from as int, to as int)),
{
    let mut i = from;
    while i < to
        invariant
            from <= i <= to <= s@.len(),
            forall|k: int| from <= k < i ==> is_dec_digit(#[trigger] s@[k]),
        decreases to - i,
    {
        let c = s.get_char(i);
        if !('0' <= c && c <= '9') {
            proof {
                assert(s@.subrange(from as int, to as int)[i - from] == s@[i as int]);
            }
            return false;
        }
        i = i + 1;
    }
    proof {
        assert forall|k: int| 0 <= k < to - from implies is_dec_digit(
            #[trigger] s@.subrange(from as int, to as int)[k],
        ) by {
            assert(s@.subrange(from as int, to as int)[k] == s@[from + k]);
        }
    }
    true
}

fn find_dot_in(s: &str, from: usize, to: usize) -> (r: Option<usize>)
    requires
        from <= to <= s@.len(),
    ensures
        match r {
            Some(i) => from <= i < to && s@[i as int] == '.' && forall|k: int|
                from <= k < i ==> s@[k] != '.',
            None => forall|k: int| from <= k < to ==> s@[k] != '.',
        },
{
    let mut i = from;
    while i < to
        invariant
            from <= i <= to <= s@.len(),
            forall|k: int| from <= k < i ==> s@[k] != '.',
        decreases to - i,
    {
        if s.get_char(i) == '.' {
            return Some(i);
        }
        i = i + 1;
    }
    None
}

fn find_exp_in(s: &str, from: usize, to: usize) -> (r: Option<usize>)
    requires
        from <= to <= s@.len(),
    ensures
        match r {
            Some(i) => from <= i < to && (s@[i as int] == 'e' || s@[i as int] == 'E') && forall|
                k: int,
            | from <= k < i ==> s@[k] != 'e' && s@[k] != 'E',
            None => forall|k: int| from <= k < to ==> s@[k] != 'e' && s@[k] != 'E',
        },
{
    let mut i = from;
    while i < to
        invariant
            from <= i <= to <= s@.len(),
            forall|k: int| from <= k < i ==> s@[k] != 'e' && s@[k] != 'E',
        decreases to - i,
    {
        let c = s.get_char(i);
        if c == 'e' || c == 'E' {
            return Some(i);
        }
        i = i + 1;
    }
    None
}

/// Every character of a mantissa is a digit or the dot.
proof fn lemma_mantissa_chars(t: Seq<char>)
    requires
        is_mantissa(t),
    ensures
        forall|i: int| 0 <= i < t.len() ==> is_dec_digit(#[trigger] t[i]) || t[i] == '.',
{
    if t.len() > 0 && all_dec_digits(t) {
    } else {
        let d = choose|d: int|
            0 <= d < t.len() && t.len() >= 2 && (#[trigger] t[d]) == '.' && all_dec_digits(
                t.subrange(0, d),
            ) && all_dec_digits(t.subrange(d + 1, t.len() as int));
        assert forall|i: int| 0 <= i < t.len() implies is_dec_digit(#[trigger] t[i]) || t[i]
            == '.' by {
            if i < d {
                assert(t.subrange(0, d)[i] == t[i]);
            } else if i > d {
                assert(t.subrange(d + 1, t.len() as int)[i - d - 1] == t[i]);
            }
        }
    }
}

/// With the first dot of the range found and a digit check around it
/// failed, no dot position can make the range a mantissa.
proof fn lemma_not_mantissa(s: Seq<char>, a: int, b: int, d: int)
    requires
        0 <= a <= d < b <= s.len(),
        s[d] == '.',
        forall|k: int| a <= k < d ==> s[k] != '.',
        !(b - a >= 2 && all_dec_digits(s.subrange(a, d)) && all_dec_digits(s.subrange(d + 1, b))),
    ensures
        !is_mantissa(s.subrange(a, b)),
{
    let t = s.subrange(a, b);
    assert(t[d - a] == s[d]);
    assert(!all_dec_digits(t)) by {
        assert(!is_dec_digit(t[d - a]));
    }
    assert forall|i: int|
        !(0 <= i < t.len() && t.len() >= 2 && (#[trigger] t[i]) == '.' && all_dec_digits(
            t.subrange(0, i),
        ) && all_dec_digits(t.subrange(i + 1, t.len() as int))) by {
        if 0 <= i < t.len() && t.len() >= 2 && t[i] == '.' {
            assert(t[i] == s[a + i]);
            if a + i < d {
                assert(s[a + i] != '.');
            } else if a + i == d {
                if b - a >= 2 {
                    if !all_dec_digits(s.subrange(a, d)) {
                        let bad = choose|k: int|
                            0 <= k < d - a && !is_dec_digit(#[trigger] s.subrange(a, d)[k]);
                        assert(t.subrange(0, i)[bad] == s.subrange(a, d)[bad]);
                    } else {
                        let bad = choose|k: int|
                            0 <= k < b - d - 1 && !is_dec_digit(#[trigger] s.subrange(d + 1, b)[k]);
                        assert(t.subrange(i + 1, t.len() as int)[bad] == s.subrange(d + 1, b)[bad]);
                    }
                }
            } else {
                assert(t.subrange(0, i)[d - a] == t[d - a]);
                assert(!all_dec_digits(t.subrange(0, i)));
            }
        }
    }
}

/// Whether `s[from..to]` is a mantissa.
fn check_mantissa(s: &str, from: usize, to: usize) -> (r: bool)
    requires
        from <= to <= s@.len(),
    ensures
        r == is_mantissa(s@.subrange(from as int, to as int)),
{
    let ghost t = s@.subrange(from as int, to as int);
    if from == to {
        return false;
    }
    match find_dot_in(s, from, to) {
        None => {
            let r = check_digits(s, from, to);
            proof {
                if !r {
                    assert forall|i: int|
                        !(0 <= i < t.len() && t.len() >= 2 && (#[trigger] t[i]) == '.'
                            && all_dec_digits(t.subrange(0, i)) && all_dec_digits(
                            t.subrange(i + 1, t.len() as int),
                        )) by {
                        if 0 <= i < t.len() {
                            assert(t[i] == s@[from + i]);
                        }
                    }
                }
            }
            r
        },
        Some(d) => {
            if to - from < 2 {
                proof {
                    lemma_not_mantissa(s@, from as int, to as int, d as int);
                }
                return false;
            }
            let r1 = check_digits(s, from, d);
            let r2 = check_digits(s, d + 1, to);
            proof {
                assert(t.subrange(0, d - from) =~= s@.subrange(from as int, d as int));
                assert(t.subrange(d - from + 1, t.len() as int) =~= s@.subrange(d + 1, to as int));
                if r1 && r2 {
                    assert(t[d - from] == s@[d as int]);
                } else {
                    lemma_not_mantissa(s@, from as int, to as int, d as int);
                }
            }
            r1 && r2
        },
    }
}

/// Whether `s[from..to]` is an exponent.
fn check_exponent(s: &str, from: usize, to: usize) -> (r: bool)
    requires
        from <= to <= s@.len(),
    ensures
        r == is_exponent(s@.subrange(from as int, to as int)),
{
    let ghost t = s@.subrange(from as int, to as int);
    if to - from < 2 {
        return false;
    }
    let c = s.get_char(from);
    if c != 'e' && c != 'E' {
        proof {
            assert(t[0] == s@[from as int]);
        }
        return false;
    }
    let c1 = s.get_char(from + 1);
    let ds: usize = if c1 == '+' || c1 == '-' {
        from + 2
    } else {
        from + 1
    };
    proof {
        assert(t.skip(1) =~= s@.subrange(from + 1, to as int));
        assert(t.skip(1)[0] == s@[from + 1]);
        if c1 == '+' || c1 == '-' {
            assert(t.skip(1).skip(1) =~= s@.subrange(from + 2, to as int));
        }
    }
    if ds >= to {
        // a sign with no digits after it
        return false;
    }
    let r = check_digits(s, ds, to);
    r
}

/// Whether `s[from..to]` is an unsigned number.
fn check_unsigned(s: &str, from: usize, to: usize) -> (r: bool)
    requires
        from <= to <= s@.len(),
    ensures
        r == is_unsigned_number(s@.subrange(from as int, to as int)),
{
    let ghost t = s@.subrange(from as int, to as int);
    match find_exp_in(s, from, to) {
        None => {
            let r = check_mantissa(s, from, to);
            proof {
                assert forall|k: int|
                    !(0 < k < t.len() && ((#[trigger] t[k]) == 'e' || t[k] == 'E') && is_mantissa(
                        t.take(k),
                    ) && is_exponent(t.skip(k))) by {
                    if 0 < k < t.len() {
                        assert(t[k] == s@[from + k]);
                    }
                }
            }
            r
        },
        Some(e) => {
            let r1 = check_mantissa(s, from, e);
            let r2 = check_exponent(s, e, to);
            proof {
                assert(t.take(e - from) =~= s@.subrange(from as int, e as int));
                assert(t.skip(e - from) =~= s@.subrange(e as int, to as int));
                assert(t[e - from] == s@[e as int]);
                // the whole range is no bare mantissa: it holds the marker
                if is_mantissa(t) {
                    lemma_mantissa_chars(t);
                }
                if r1 && r2 {
                    assert(e > from) by {
                        if e == from {
                            assert(!is_mantissa(Seq::<char>::empty()));
                            assert(t.take(0) =~= Seq::<char>::empty());
                        }
                    }
                } else {
                    // no split works: a later marker would trap this one
                    // inside a mantissa, an earlier one cannot exist
                    assert forall|k: int|
                        !(0 < k < t.len() && ((#[trigger] t[k]) == 'e' || t[k] == 'E')
                            && is_mantissa(t.take(k)) && is_exponent(t.skip(k))) by {
                        if 0 < k < t.len() && (t[k] == 'e' || t[k] == 'E') {
                            assert(t[k] == s@[from + k]);
                            if from + k < e {
                                assert(s@[from + k] != 'e' && s@[from + k] != 'E');
                            } else if from + k > e {
                                if is_mantissa(t.take(k)) {
                                    lemma_mantissa_chars(t.take(k));
                                    assert(t.take(k)[e - from] == t[e - from]);
                                }
                            }
                        }
                    }
                }
            }
            r1 && r2
        },
    }
}

/// Whether a string is a number, optionally signed, as metric values are
/// recognised when coerced from text: the grammar `f64` parsing accepts,
/// infinity and not-a-number words aside.
pub fn is_number_str(s: &str) -> (b: bool)
    ensures
        b == is_number_seq(s@),
{
    let n = s.unicode_len();
    if n == 0 {
        return false;
    }
    let c0 = s.get_char(0);
    let start: usize = if c0 == '+' || c0 == '-' {
        1
    } else {
        0
    };
    proof {
        if c0 == '+' || c0 == '-' {
            assert(s@.skip(1) =~= s@.subrange(1, n as int));
        } else {
            assert(s@ =~= s@.subrange(0, n as int));
        }
    }
    check_unsigned(s, start, n)
}

/// An ASCII whitespace character, as values are trimmed before coercion.
pub open spec fn is_space_char(c: char) -> bool {
    c == ' ' || c == '\t' || c == '\n' || c == '\r'
}

/// `s` with leading and trailing ASCII whitespace removed.
pub open spec fn trim_seq(s: Seq<char>) -> Seq<char>
    decreases s.len(),
{
    if s.len() > 0 && is_space_char(s[0]) {
        trim_seq(s.skip(1))
    } else if s.len() > 0 && is_space_char(s[s.len() - 1]) {
        trim_seq(s.take(s.len() - 1))
    } else {
        s
    }
}

fn is_space(c: char) -> (b: bool)
    ensures
        b == is_space_char(c),
{
    c == ' ' || c == '\t' || c == '\n' || c == '\r'
}

/// Trim ASCII whitespace from both ends.
pub fn trim_str(s: &str) -> (r: String)
    ensures
        r@ == trim_seq(s@),
{
    let n = s.unicode_len();
    let mut a: usize = 0;
    while a < n && is_space(s.get_char(a))
        invariant
            a <= n == s@.len(),
            forall|k: int| 0 <= k < a ==> is_space_char(#[trigger] s@[k]),
        decreases n - a,
    {
        a = a + 1;
    }
    let mut b: usize = n;
    while b > a && is_space(s.get_char(b - 1))
        invariant
            a <= b <= n == s@.len(),
            forall|k: int| b <= k < n ==> is_space_char(#[trigger] s@[k]),
        decreases b,
    {
        b = b - 1;
    }
    let r = s.substring_char(a, b);
    proof {
        lemma_trim_slice(s@, a as int, b as int);
    }
    r.to_owned()
}

proof fn lemma_trim_slice(s: Seq<char>, a: int, b: int)
    requires
        0 <= a <= b <= s.len(),
        forall|k: int| 0 <= k < a ==> is_space_char(#[trigger] s[k]),
        forall|k: int| b <= k < s.len() ==> is_space_char(#[trigger] s[k]),
        a < b ==> !is_space_char(s[a]) && !is_space_char(s[b - 1]),
        a == b ==> forall|k: int| 0 <= k < s.len() ==> is_space_char(#[trigger] s[k]),
    ensures
        trim_seq(s) == s.subrange(a, b),
    decreases s.len(),
{
    if s.len() == 0 {
        assert(trim_seq(s) =~= s.subrange(a, b));
    } else if is_space_char(s[0]) {
        let t = s.skip(1);
        if a == b {
            lemma_trim_slice(t, 0, 0);
            assert(trim_seq(s) =~= s.subrange(a, b));
        } else {
            assert(a >= 1);
            lemma_trim_slice(t, a - 1, b - 1);
            assert(t.subrange(a - 1, b - 1) =~= s.subrange(a, b));
        }
    } else if is_space_char(s[s.len() - 1]) {
        // the first character is kept, so a == 0 and a < b
        assert(a == 0);
        assert(a < b);
        let t = s.take(s.len() - 1);
        assert(b <= s.len() - 1);
        lemma_trim_slice(t, a, b);
        assert(t.subrange(a, b) =~= s.subrange(a, b));
    } else {
        // nothing to trim on either side
        assert(a == 0);
        assert(b == s.len());
        assert(trim_seq(s) =~= s.subrange(a, b));
    }
}

} // verus!
