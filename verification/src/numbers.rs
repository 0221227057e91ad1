//! Reading numbers from text the way the standard library's `FromStr`
//! and `from_str_radix` do: integers by value, decimal floats by syntax.

use vstd::prelude::*;

use crate::text::chars_of;

verus! {

/// The value of one digit in the given radix (at most 36), if it is one.
pub open spec fn digit_value(c: char, radix: nat) -> Option<nat> {
    let v: int = if '0' <= c && c <= '9' {
        c as int - '0' as int
    } else if 'a' <= c && c <= 'z' {
        c as int - 'a' as int + 10
    } else if 'A' <= c && c <= 'Z' {
        c as int - 'A' as int + 10
    } else {
        radix as int
    };
    if v < radix {
        Some(v as nat)
    } else {
        None
    }
}

/// Every character of `s` is a digit of the radix.
pub open spec fn all_digits(s: Seq<char>, radix: nat) -> bool {
    forall|i: int| 0 <= i < s.len() ==> #[trigger] digit_value(s[i], radix) is Some
}

/// The value of a string of digits, most significant first.
pub open spec fn digits_value(s: Seq<char>, radix: nat) -> nat
    decreases s.len(),
{
    if s.len() == 0 {
        0
    } else {
        digits_value(s.drop_last(), radix) * radix + match digit_value(s.last(), radix) {
            Some(d) => d,
            None => 0,
        }
    }
}

/// What `from_str_radix` (or `FromStr`, radix 10) returns for an unsigned
/// type whose largest value is `max`: an optional `+`, then at least one
/// digit, and a value that fits.
pub open spec fn parse_unsigned(s: Seq<char>, radix: nat, max: nat) -> Option<nat> {
    let body = if s.len() > 0 && s[0] == '+' {
        s.drop_first()
    } else {
        s
    };
    if body.len() > 0 && all_digits(body, radix) && digits_value(body, radix) <= max {
        Some(digits_value(body, radix))
    } else {
        None
    }
}

/// What `i32::from_str` returns: an optional sign, then at least one
/// decimal digit, and a value in range.
pub open spec fn parse_i32_spec(s: Seq<char>) -> Option<i32> {
    if s.len() > 0 && s[0] == '-' {
        let body = s.drop_first();
        if body.len() > 0 && all_digits(body, 10) && digits_value(body, 10) <= 0x8000_0000 {
            Some((0 - digits_value(body, 10)) as i32)
        } else {
            None
        }
    } else {
        match parse_unsigned(s, 10, 0x7fff_ffff) {
            Some(v) => Some(v as i32),
            None => None,
        }
    }
}

/// What `u32::from_str` returns.
pub open spec fn parse_u32_spec(s: Seq<char>) -> Option<u32> {
    match parse_unsigned(s, 10, 0xffff_ffff) {
        Some(v) => Some(v as u32),
        None => None,
    }
}

/// What `u8::from_str_radix(s, 16)` returns.
pub open spec fn parse_hex_u8_spec(s: Seq<char>) -> Option<u8> {
    match parse_unsigned(s, 16, 0xff) {
        Some(v) => Some(v as u8),
        None => None,
    }
}

/// What `u32::from_str_radix(s, 16)` returns.
pub open spec fn parse_hex_u32_spec(s: Seq<char>) -> Option<u32> {
    match parse_unsigned(s, 16, 0xffff_ffff) {
        Some(v) => Some(v as u32),
        None => None,
    }
}

proof fn lemma_digits_value_grows(s: Seq<char>, radix: nat, k: int)
    requires
        radix >= 1,
        0 <= k <= s.len(),
        all_digits(s, radix),
    ensures
        digits_value(s.subrange(0, k), radix) <= digits_value(s, radix),
    decreases s.len() - k,
{
    if k < s.len() {
        lemma_digits_value_grows(s.drop_last(), radix, k);
        assert(s.drop_last().subrange(0, k) =~= s.subrange(0, k));
        let dv = digits_value(s.drop_last(), radix);
        assert(dv * radix >= dv) by (nonlinear_arith)
            requires
                radix >= 1,
        ;
    } else {
        assert(s.subrange(0, k) =~= s);
    }
}

fn digit_of(c: char, radix: u32) -> (res: Option<u32>)
    requires
        2 <= radix <= 36,
    ensures
        match digit_value(c, radix as nat) {
            Some(d) => res == Some(d as u32),
            None => res is None,
        },
{
    let v: u32 = if '0' <= c && c <= '9' {
        (c as u32) - ('0' as u32)
    } else if 'a' <= c && c <= 'z' {
        (c as u32) - ('a' as u32) + 10
    } else if 'A' <= c && c <= 'Z' {
        (c as u32) - ('A' as u32) + 10
    } else {
        radix
    };
    if v < radix {
        Some(v)
    } else {
        None
    }
}

/// Parses `s[start..]` as digits of `radix` into a value at most `max`.
fn parse_digits_from(s: &Vec<char>, start: usize, radix: u32, max: u64) -> (res: Option<u64>)
    requires
        2 <= radix <= 36,
        start <= s.len(),
        max <= 0x1_0000_0000,
    ensures
        ({
            let body = s@.subrange(start as int, s@.len() as int);
            if body.len() > 0 && all_digits(body, radix as nat) && digits_value(body, radix as nat)
                <= max {
                res == Some(digits_value(body, radix as nat) as u64)
            } else {
                res is None
            }
        }),
{
    let ghost body = s@.subrange(start as int, s@.len() as int);
    if start == s.len() {
        return None;
    }
    let mut acc: u64 = 0;
    let mut i: usize = start;
    while i < s.len()
        invariant
            2 <= radix <= 36,
            start <= i <= s.len(),
            max <= 0x1_0000_0000,
            body == s@.subrange(start as int, s@.len() as int),
            all_digits(body.subrange(0, i - start), radix as nat),
            acc == digits_value(body.subrange(0, i - start), radix as nat),
            acc <= max,
        decreases s.len() - i,
    {
        let c = s[i];
        match digit_of(c, radix) {
            None => {
                assert(body[i - start] == c);
                assert(!all_digits(body, radix as nat));
                return None;
            },
            Some(d) => {
                let ghost pre = body.subrange(0, i - start);
                let ghost next = body.subrange(0, i + 1 - start);
                assert(next.drop_last() =~= pre);
                assert(next.last() == c);
                assert(all_digits(next, radix as nat)) by {
                    assert forall|j: int| 0 <= j < next.len() implies #[trigger] digit_value(
                        next[j],
                        radix as nat,
                    ) is Some by {
                        if j < pre.len() {
                            assert(next[j] == pre[j]);
                        }
                    }
                }
                assert(acc * (radix as u64) <= 0x1_0000_0000 * 36) by (nonlinear_arith)
                    requires
                        acc <= 0x1_0000_0000,
                        radix <= 36,
                ;
                acc = acc * (radix as u64) + (d as u64);
                if acc > max {
                    proof {
                        if all_digits(body, radix as nat) {
                            lemma_digits_value_grows(body, radix as nat, i + 1 - start);
                        }
                    }
                    return None;
                }
                i = i + 1;
            },
        }
    }
    assert(body.subrange(0, i - start) =~= body);
    Some(acc)
}

/// The standard library's reading of an unsigned number in `radix`, with
/// an optional leading `+`, bounded by `max`.
fn parse_unsigned_chars(s: &Vec<char>, radix: u32, max: u64) -> (res: Option<u64>)
    requires
        2 <= radix <= 36,
        max <= 0x1_0000_0000,
    ensures
        match parse_unsigned(s@, radix as nat, max as nat) {
            Some(v) => res == Some(v as u64),
            None => res is None,
        },
{
    if s.len() > 0 && s[0] == '+' {
        assert(s@.subrange(1, s@.len() as int) =~= s@.drop_first());
        parse_digits_from(s, 1, radix, max)
    } else {
        assert(s@.subrange(0, s@.len() as int) =~= s@);
        parse_digits_from(s, 0, radix, max)
    }
}

/// `i32::from_str`.
pub fn parse_i32(s: &Vec<char>) -> (res: Option<i32>)
    ensures
        res == parse_i32_spec(s@),
{
    if s.len() > 0 && s[0] == '-' {
        assert(s@.subrange(1, s@.len() as int) =~= s@.drop_first());
        match parse_digits_from(s, 1, 10, 0x8000_0000) {
            Some(v) => Some((0i64 - (v as i64)) as i32),
            None => None,
        }
    } else {
        match parse_unsigned_chars(s, 10, 0x7fff_ffff) {
            Some(v) => Some(v as i32),
            None => None,
        }
    }
}

/// `u32::from_str`.
pub fn parse_u32(s: &Vec<char>) -> (res: Option<u32>)
    ensures
        res == parse_u32_spec(s@),
{
    match parse_unsigned_chars(s, 10, 0xffff_ffff) {
        Some(v) => Some(v as u32),
        None => None,
    }
}

/// `u8::from_str_radix(s, 16)`.
pub fn parse_hex_u8(s: &Vec<char>) -> (res: Option<u8>)
    ensures
        res == parse_hex_u8_spec(s@),
{
    match parse_unsigned_chars(s, 16, 0xff) {
        Some(v) => Some(v as u8),
        None => None,
    }
}

/// `u32::from_str_radix(s, 16)`.
pub fn parse_hex_u32(s: &Vec<char>) -> (res: Option<u32>)
    ensures
        res == parse_hex_u32_spec(s@),
{
    match parse_unsigned_chars(s, 16, 0xffff_ffff) {
        Some(v) => Some(v as u32),
        None => None,
    }
}

/// `u32::from_str` on a string slice.
pub fn parse_u32_str(s: &str) -> (res: Option<u32>)
    ensures
        res == parse_u32_spec(s@),
{
    parse_u32(&chars_of(s))
}


/// A character's code with ASCII capitals folded to lowercase.
pub open spec fn ascii_fold(c: char) -> int {
    if 'A' <= c && c <= 'Z' {
        c as int + 32
    } else {
        c as int
    }
}

/// What `str::eq_ignore_ascii_case` returns.
pub open spec fn eq_ignore_ascii_case(a: Seq<char>, b: Seq<char>) -> bool {
    a.len() == b.len() && forall|i: int| 0 <= i < a.len() ==> #[trigger] ascii_fold(a[i])
        == ascii_fold(b[i])
}

fn fold_char(c: char) -> (res: u32)
    ensures
        res == ascii_fold(c),
{
    if 'A' <= c && c <= 'Z' {
        (c as u32) + 32
    } else {
        c as u32
    }
}

/// `str::eq_ignore_ascii_case` on character vectors.
pub fn eq_ignore_case(a: &Vec<char>, b: &Vec<char>) -> (res: bool)
    ensures
        res == eq_ignore_ascii_case(a@, b@),
{
    if a.len() != b.len() {
        return false;
    }
    let mut i: usize = 0;
    while i < a.len()
        invariant
            a.len() == b.len(),
            i <= a.len(),
            forall|j: int| 0 <= j < i ==> #[trigger] ascii_fold(a@[j]) == ascii_fold(b@[j]),
        decreases a.len() - i,
    {
        if fold_char(a[i]) != fold_char(b[i]) {
            return false;
        }
        i = i + 1;
    }
    true
}

/// `str::eq_ignore_ascii_case` of a character vector with a string slice.
pub fn eq_ignore_case_str(a: &Vec<char>, b: &str) -> (res: bool)
    ensures
        res == eq_ignore_ascii_case(a@, b@),
{
    eq_ignore_case(a, &chars_of(b))
}

/// A decimal digit.
pub open spec fn is_dec_digit(c: char) -> bool {
    '0' <= c && c <= '9'
}

/// How many characters of `s` are decimal digits.
pub open spec fn digit_count(s: Seq<char>) -> nat
    decreases s.len(),
{
    if s.len() == 0 {
        0
    } else {
        digit_count(s.drop_last()) + if is_dec_digit(s.last()) {
            1nat
        } else {
            0nat
        }
    }
}

/// How many characters of `s` are points.
pub open spec fn point_count(s: Seq<char>) -> nat
    decreases s.len(),
{
    if s.len() == 0 {
        0
    } else {
        point_count(s.drop_last()) + if s.last() == '.' {
            1nat
        } else {
            0nat
        }
    }
}

/// `s` without one leading sign.
pub open spec fn strip_sign(s: Seq<char>) -> Seq<char> {
    if s.len() > 0 && (s[0] == '+' || s[0] == '-') {
        s.drop_first()
    } else {
        s
    }
}

/// Index of the first exponent mark (`e` or `E`), or the length.
pub open spec fn exponent_mark(s: Seq<char>) -> int
    decreases s.len(),
{
    if s.len() == 0 {
        0
    } else if s[0] == 'e' || s[0] == 'E' {
        0
    } else {
        1 + exponent_mark(s.drop_first())
    }
}

/// `Digit+ | Digit+ '.' Digit* | Digit* '.' Digit+`.
pub open spec fn is_mantissa(m: Seq<char>) -> bool {
    (forall|i: int| 0 <= i < m.len() ==> is_dec_digit(#[trigger] m[i]) || m[i] == '.')
        && point_count(m) <= 1 && digit_count(m) >= 1
}

/// `Sign? Digit+`.
pub open spec fn is_exponent_digits(e: Seq<char>) -> bool {
    let b = strip_sign(e);
    b.len() > 0 && forall|i: int| 0 <= i < b.len() ==> is_dec_digit(#[trigger] b[i])
}

/// `Mantissa ('e' Sign? Digit+)?`, the exponent mark in either case.
pub open spec fn is_decimal_number(n: Seq<char>) -> bool {
    let k = exponent_mark(n);
    is_mantissa(n.subrange(0, k)) && (k == n.len() || is_exponent_digits(
        n.subrange(k + 1, n.len() as int),
    ))
}

/// The text that `f32::from_str` accepts: an optional sign, then `inf`,
/// `infinity`, `nan` (in any case) or a decimal number. The value it
/// denotes is read outside the library.
pub open spec fn is_float_literal(s: Seq<char>) -> bool {
    let b = strip_sign(s);
    eq_ignore_ascii_case(b, "inf"@) || eq_ignore_ascii_case(b, "infinity"@) || eq_ignore_ascii_case(
        b,
        "nan"@,
    ) || is_decimal_number(b)
}

proof fn lemma_exponent_mark(s: Seq<char>)
    ensures
        0 <= exponent_mark(s) <= s.len(),
        forall|j: int| 0 <= j < exponent_mark(s) ==> s[j] != 'e' && s[j] != 'E',
        exponent_mark(s) < s.len() ==> (s[exponent_mark(s)] == 'e' || s[exponent_mark(s)] == 'E'),
    decreases s.len(),
{
    if s.len() > 0 && !(s[0] == 'e' || s[0] == 'E') {
        lemma_exponent_mark(s.drop_first());
        assert forall|j: int| 0 <= j < exponent_mark(s) implies s[j] != 'e' && s[j] != 'E' by {
            if j > 0 {
                assert(s[j] == s.drop_first()[j - 1]);
            }
        }
    }
}

proof fn lemma_exponent_mark_unique(s: Seq<char>, k: int)
    requires
        0 <= k <= s.len(),
        forall|j: int| 0 <= j < k ==> s[j] != 'e' && s[j] != 'E',
        k < s.len() ==> (s[k] == 'e' || s[k] == 'E'),
    ensures
        exponent_mark(s) == k,
    decreases s.len(),
{
    lemma_exponent_mark(s);
    let m = exponent_mark(s);
    if m < k {
        assert(s[m] != 'e' && s[m] != 'E');
    } else if k < m {
        assert(s[k] != 'e' && s[k] != 'E');
    }
}

fn is_mantissa_range(s: &Vec<char>, from: usize, to: usize) -> (res: bool)
    requires
        from <= to <= s.len(),
    ensures
        res == is_mantissa(s@.subrange(from as int, to as int)),
{
    let ghost m = s@.subrange(from as int, to as int);
    let mut digits: usize = 0;
    let mut points: usize = 0;
    let mut i: usize = from;
    while i < to
        invariant
            from <= i <= to <= s.len(),
            m == s@.subrange(from as int, to as int),
            digits == digit_count(m.subrange(0, i - from)),
            points == point_count(m.subrange(0, i - from)),
            points <= 1,
            digits <= i - from,
            forall|j: int| 0 <= j < i - from ==> is_dec_digit(#[trigger] m[j]) || m[j] == '.',
        decreases to - i,
    {
        let c = s[i];
        let ghost pre = m.subrange(0, i - from);
        let ghost next = m.subrange(0, i + 1 - from);
        assert(next.drop_last() =~= pre);
        assert(next.last() == c);
        if '0' <= c && c <= '9' {
            digits = digits + 1;
        } else if c == '.' {
            if points == 1 {
                proof {
                    lemma_point_count_prefix(m, i + 1 - from);
                }
                return false;
            }
            points = points + 1;
        } else {
            assert(m[i - from] == c);
            return false;
        }
        i = i + 1;
    }
    assert(m.subrange(0, i - from) =~= m);
    digits >= 1
}

proof fn lemma_point_count_prefix(m: Seq<char>, k: int)
    requires
        0 <= k <= m.len(),
    ensures
        point_count(m.subrange(0, k)) <= point_count(m),
    decreases m.len() - k,
{
    if k < m.len() {
        lemma_point_count_prefix(m.drop_last(), k);
        assert(m.drop_last().subrange(0, k) =~= m.subrange(0, k));
    } else {
        assert(m.subrange(0, k) =~= m);
    }
}

fn is_exponent_range(s: &Vec<char>, from: usize, to: usize) -> (res: bool)
    requires
        from <= to <= s.len(),
    ensures
        res == is_exponent_digits(s@.subrange(from as int, to as int)),
{
    let ghost e = s@.subrange(from as int, to as int);
    let mut start = from;
    if from < to && (s[from] == '+' || s[from] == '-') {
        start = from + 1;
        assert(strip_sign(e) =~= s@.subrange(start as int, to as int));
    } else {
        assert(strip_sign(e) =~= s@.subrange(start as int, to as int));
    }
    if start == to {
        return false;
    }
    let mut i: usize = start;
    while i < to
        invariant
            start <= i <= to <= s.len(),
            e == s@.subrange(from as int, to as int),
            strip_sign(e) == s@.subrange(start as int, to as int),
            forall|j: int| start <= j < i ==> is_dec_digit(#[trigger] s@[j]),
        decreases to - i,
    {
        if !('0' <= s[i] && s[i] <= '9') {
            assert(strip_sign(e)[i - start] == s@[i as int]);
            return false;
        }
        i = i + 1;
    }
    assert forall|j: int| 0 <= j < strip_sign(e).len() implies is_dec_digit(
        #[trigger] strip_sign(e)[j],
    ) by {
        assert(strip_sign(e)[j] == s@[start + j]);
    }
    true
}

/// Whether `f32::from_str` accepts the text.
pub fn is_float_text(s: &Vec<char>) -> (res: bool)
    ensures
        res == is_float_literal(s@),
{
    let mut start: usize = 0;
    if s.len() > 0 && (s[0] == '+' || s[0] == '-') {
        start = 1;
    }
    let mut body: Vec<char> = Vec::new();
    let mut i: usize = start;
    while i < s.len()
        invariant
            start <= i <= s.len(),
            body@ == s@.subrange(start as int, i as int),
        decreases s.len() - i,
    {
        body.push(s[i]);
        assert(body@ =~= s@.subrange(start as int, i + 1));
        i = i + 1;
    }
    assert(body@ =~= strip_sign(s@));
    if eq_ignore_case_str(&body, "inf") || eq_ignore_case_str(&body, "infinity")
        || eq_ignore_case_str(&body, "nan") {
        return true;
    }
    let mut k: usize = 0;
    while k < body.len() && body[k] != 'e' && body[k] != 'E'
        invariant
            k <= body.len(),
            forall|j: int| 0 <= j < k ==> body@[j] != 'e' && body@[j] != 'E',
        decreases body.len() - k,
    {
        k = k + 1;
    }
    proof {
        lemma_exponent_mark_unique(body@, k as int);
    }
    if !is_mantissa_range(&body, 0, k) {
        return false;
    }
    if k == body.len() {
        return true;
    }
    is_exponent_range(&body, k + 1, body.len())
}

} // verus!
