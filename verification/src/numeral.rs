//! Reading numbers from text: which texts are signed decimal integers and
//! which are decimal floating-point literals.
use vstd::prelude::*;
use vstd::slice::slice_subrange;
use vstd::string::*;

verus! {

/// One of the ten decimal digits.
pub open spec fn is_digit(c: char) -> bool {
    '0' <= c <= '9'
}

/// The number that a decimal digit stands for.
pub open spec fn digit_value(c: char) -> int {
    c as int - '0' as int
}

/// Every character of `s` is a decimal digit.
pub open spec fn all_digits(s: Seq<char>) -> bool {
    forall|i: int| 0 <= i < s.len() ==> is_digit(#[trigger] s[i])
}

/// The number written by a string of decimal digits, most significant first.
pub open spec fn decimal_value(digits: Seq<char>) -> int
    decreases digits.len(),
{
    if digits.len() == 0 {
        0
    } else {
        10 * decimal_value(digits.drop_last()) + digit_value(digits.last())
    }
}

/// A plus or a minus sign.
pub open spec fn is_sign(c: char) -> bool {
    c == '+' || c == '-'
}

/// `s` without its leading sign, if it has one.
pub open spec fn unsigned_part(s: Seq<char>) -> Seq<char> {
    if s.len() > 0 && is_sign(s[0]) {
        s.subrange(1, s.len() as int)
    } else {
        s
    }
}

/// The integer that `s` writes: an optional sign followed by one or more
/// decimal digits and nothing else.
pub open spec fn integer_of(s: Seq<char>) -> Option<int> {
    let body = unsigned_part(s);
    if body.len() == 0 || !all_digits(body) {
        None
    } else if s[0] == '-' {
        Some(-decimal_value(body))
    } else {
        Some(decimal_value(body))
    }
}

/// The 32-bit signed integer that `s` writes, if it writes an integer that
/// fits.
pub open spec fn i32_of(s: Seq<char>) -> Option<i32> {
    match integer_of(s) {
        Some(v) => if i32::MIN <= v <= i32::MAX {
            Some(v as i32)
        } else {
            None
        },
        None => None,
    }
}

/// A string of digits is worth at least as much as any of its prefixes.
proof fn lemma_decimal_value_prefix(digits: Seq<char>, k: int)
    requires
        all_digits(digits),
        0 <= k <= digits.len(),
    ensures
        0 <= decimal_value(digits.subrange(0, k)) <= decimal_value(digits),
    decreases digits.len() - k,
{
    if k == digits.len() {
        assert(digits.subrange(0, k) =~= digits);
        lemma_decimal_value_nonnegative(digits);
    } else {
        lemma_decimal_value_prefix(digits, k + 1);
        let longer = digits.subrange(0, k + 1);
        assert(longer.drop_last() =~= digits.subrange(0, k));
        assert(is_digit(digits[k]));
        assert(longer.last() == digits[k]);
        lemma_decimal_value_nonnegative(digits.subrange(0, k));
    }
}

/// A string of digits writes no negative number.
proof fn lemma_decimal_value_nonnegative(digits: Seq<char>)
    requires
        all_digits(digits),
    ensures
        0 <= decimal_value(digits),
    decreases digits.len(),
{
    if digits.len() > 0 {
        assert(is_digit(digits.last()));
        lemma_decimal_value_nonnegative(digits.drop_last());
    }
}

/// Reads a 32-bit signed integer in base 10: an optional sign, then digits.
pub fn parse_i32(text: &str) -> (r: Option<i32>)
    ensures
        r == i32_of(text@),
{
    if !text.is_ascii() {
        proof {
            let i = choose|i: int| 0 <= i < text@.len() && !('\0' <= #[trigger] text@[i] <= '\u{7f}');
            let body = unsigned_part(text@);
            if body.len() == text@.len() {
                assert(!is_digit(body[i]));
            } else {
                assert(i > 0);
                assert(!is_digit(body[i - 1]));
            }
        }
        return None;
    }
    let bytes = text.as_bytes();
    proof {
        is_ascii_spec_bytes(text);
    }
    let n = bytes.len();
    if n == 0 {
        return None;
    }
    let first = bytes[0];
    let negative = first == 45u8;
    let start: usize = if first == 45u8 || first == 43u8 { 1 } else { 0 };
    let ghost body = unsigned_part(text@);
    assert(body =~= text@.subrange(start as int, n as int));
    let mut acc: i64 = 0;
    let mut i: usize = start;
    while i < n
        invariant
            start <= i <= n,
            n == text@.len(),
            is_ascii(text),
            bytes@ =~= Seq::new(text@.len(), |j: int| text@[j] as u8),
            body == text@.subrange(start as int, n as int),
            body == unsigned_part(text@),
            all_digits(body.subrange(0, i - start)),
            acc == decimal_value(body.subrange(0, i - start)),
            0 <= acc <= 2147483648,
        decreases n - i,
    {
        let b = bytes[i];
        assert(b == text@[i as int] as u8);
        assert(text@[i as int] == body[i - start]);
        if b < 48u8 || b > 57u8 {
            assert(!is_digit(body[i - start]));
            return None;
        }
        let ghost shorter = body.subrange(0, i - start);
        let ghost longer = body.subrange(0, i + 1 - start);
        assert(longer.drop_last() =~= shorter);
        assert(longer.last() == body[i - start]);
        assert(is_digit(longer.last()));
        assert(all_digits(longer)) by {
            assert forall|j: int| 0 <= j < longer.len() implies is_digit(#[trigger] longer[j]) by {
                if j < shorter.len() {
                    assert(longer[j] == shorter[j]);
                }
            }
        }
        acc = acc * 10 + (b - 48u8) as i64;
        if acc > 2147483648 {
            proof {
                if all_digits(body) {
                    lemma_decimal_value_prefix(body, i + 1 - start);
                }
            }
            return None;
        }
        i += 1;
    }
    assert(body.subrange(0, n - start) =~= body);
    if start == n {
        return None;
    }
    if negative {
        Some((-acc) as i32)
    } else if acc > 2147483647 {
        None
    } else {
        Some(acc as i32)
    }
}

/// `c` is the lower-case letter `lower` or its capital.
pub open spec fn is_letter(c: char, lower: char) -> bool {
    c == lower || c as int + 32 == lower as int
}

/// `s` spells the lower-case `word`, letter by letter, in any mix of cases.
pub open spec fn spells(s: Seq<char>, word: Seq<char>) -> bool {
    &&& s.len() == word.len()
    &&& forall|i: int| 0 <= i < s.len() ==> is_letter(#[trigger] s[i], word[i])
}

/// One of the names `inf`, `infinity` and `nan`, in any mix of cases.
pub open spec fn is_special(s: Seq<char>) -> bool {
    ||| spells(s, seq!['i', 'n', 'f'])
    ||| spells(s, seq!['i', 'n', 'f', 'i', 'n', 'i', 't', 'y'])
    ||| spells(s, seq!['n', 'a', 'n'])
}

/// Digits with at most one decimal point among them, and at least one digit.
pub open spec fn is_mantissa(s: Seq<char>) -> bool {
    ||| s.len() >= 1 && all_digits(s)
    ||| s.len() >= 2 && exists|p: int|
        0 <= p < s.len() && #[trigger] s[p] == '.' && all_digits(s.subrange(0, p)) && all_digits(
            s.subrange(p + 1, s.len() as int),
        )
}

/// The letter `e` in either case, an optional sign, and one or more digits.
pub open spec fn is_exponent(s: Seq<char>) -> bool {
    &&& s.len() >= 1
    &&& is_letter(s[0], 'e')
    &&& unsigned_part(s.subrange(1, s.len() as int)).len() >= 1
    &&& all_digits(unsigned_part(s.subrange(1, s.len() as int)))
}

/// A mantissa, optionally followed by an exponent.
pub open spec fn is_number(s: Seq<char>) -> bool {
    ||| is_mantissa(s)
    ||| exists|k: int|
        0 <= k <= s.len() && is_mantissa(#[trigger] s.subrange(0, k)) && is_exponent(
            s.subrange(k, s.len() as int),
        )
}

/// `s` is a decimal floating-point literal: an optional sign, then either one
/// of the special names or a number.
pub open spec fn is_float_text(s: Seq<char>) -> bool {
    is_special(unsigned_part(s)) || is_number(unsigned_part(s))
}

/// The bytes of a text whose characters are all ASCII.
spec fn ascii_bytes(s: Seq<char>) -> Seq<u8> {
    Seq::new(s.len(), |j: int| s[j] as u8)
}

/// From `from` up to `to` the characters of `s` are digits, and the one at
/// `to`, if there is one, is no digit.
spec fn digit_run(s: Seq<char>, from: int, to: int) -> bool {
    &&& 0 <= from <= to <= s.len()
    &&& forall|j: int| from <= j < to ==> is_digit(#[trigger] s[j])
    &&& (to < s.len() ==> !is_digit(s[to]))
}

/// After the digits that end at `a`, the mantissa goes on to `b`: over a
/// decimal point and the digits behind it, if a point stands at `a`.
spec fn fraction_run(s: Seq<char>, a: int, b: int) -> bool {
    if a < s.len() && s[a] == '.' {
        digit_run(s, a + 1, b)
    } else {
        b == a
    }
}

/// A mantissa that ends at `b`, with its integer digits ending at `a`, holds
/// at least one digit.
spec fn has_digit(s: Seq<char>, a: int, b: int) -> bool {
    if a < s.len() && s[a] == '.' {
        b >= 2
    } else {
        b >= 1
    }
}

/// Where the text goes on after `k` with something that is neither a digit
/// nor a point, the first `k` characters are a mantissa exactly if the
/// mantissa found by reading digits ends there and holds a digit.
proof fn lemma_mantissa_by_runs(s: Seq<char>, k: int, a: int, b: int)
    requires
        0 <= k <= s.len(),
        digit_run(s, 0, a),
        fraction_run(s, a, b),
        k < s.len() ==> !is_digit(s[k]) && s[k] != '.',
    ensures
        is_mantissa(s.subrange(0, k)) <==> (k == b && has_digit(s, a, b)),
{
    let m = s.subrange(0, k);
    if k == b && has_digit(s, a, b) {
        if a < s.len() && s[a] == '.' {
            assert(m[a] == '.');
            assert(all_digits(m.subrange(0, a))) by {
                assert forall|j: int| 0 <= j < a implies is_digit(#[trigger] m.subrange(0, a)[j]) by {
                    assert(m.subrange(0, a)[j] == s[j]);
                }
            }
            assert(all_digits(m.subrange(a + 1, m.len() as int))) by {
                let f = m.subrange(a + 1, m.len() as int);
                assert forall|j: int| 0 <= j < f.len() implies is_digit(#[trigger] f[j]) by {
                    assert(f[j] == s[a + 1 + j]);
                }
            }
            assert(is_mantissa(m));
        } else {
            assert(all_digits(m)) by {
                assert forall|j: int| 0 <= j < m.len() implies is_digit(#[trigger] m[j]) by {
                    assert(m[j] == s[j]);
                }
            }
        }
    }
    if is_mantissa(m) {
        if m.len() >= 1 && all_digits(m) {
            if a < k {
                assert(is_digit(m[a]));
            }
            if a > k {
                assert(is_digit(s[k]));
            }
            assert(a == k);
        } else {
            let p = choose|p: int|
                0 <= p < m.len() && #[trigger] m[p] == '.' && all_digits(m.subrange(0, p))
                    && all_digits(m.subrange(p + 1, m.len() as int));
            let front = m.subrange(0, p);
            let back = m.subrange(p + 1, m.len() as int);
            if a < p {
                assert(is_digit(front[a]));
            }
            if a > p {
                assert(is_digit(s[p]));
            }
            assert(a == p);
            if b < k {
                assert(is_digit(back[b - p - 1]));
            }
            if b > k {
                assert(is_digit(s[k]));
            }
            assert(b == k);
        }
    }
}

/// A text is a number exactly if the mantissa found by reading digits holds
/// a digit and is followed by nothing or by an exponent.
proof fn lemma_number_by_runs(s: Seq<char>, a: int, b: int)
    requires
        digit_run(s, 0, a),
        fraction_run(s, a, b),
    ensures
        is_number(s) <==> (has_digit(s, a, b) && (b == s.len() || is_exponent(
            s.subrange(b, s.len() as int),
        ))),
{
    let n = s.len() as int;
    assert(s.subrange(0, n) =~= s);
    lemma_mantissa_by_runs(s, n, a, b);
    if b < n && is_exponent(s.subrange(b, n)) {
        assert(s.subrange(b, n)[0] == s[b]);
        lemma_mantissa_by_runs(s, b, a, b);
    }
    if is_number(s) && !is_mantissa(s) {
        let k = choose|k: int|
            0 <= k <= s.len() && is_mantissa(#[trigger] s.subrange(0, k)) && is_exponent(
                s.subrange(k, s.len() as int),
            );
        assert(s.subrange(k, n)[0] == s[k]);
        lemma_mantissa_by_runs(s, k, a, b);
    }
}

/// The exponent that starts at `b` is well formed exactly if a sign-free run
/// of at least one digit, starting at `c`, reaches the end of the text.
proof fn lemma_exponent_by_run(s: Seq<char>, b: int, c: int, d: int)
    requires
        0 <= b < s.len(),
        is_letter(s[b], 'e'),
        c == if b + 1 < s.len() && is_sign(s[b + 1]) {
            b + 2
        } else {
            b + 1
        },
        digit_run(s, c, d),
    ensures
        is_exponent(s.subrange(b, s.len() as int)) <==> (d == s.len() && d > c),
{
    let n = s.len() as int;
    let e = s.subrange(b, n);
    let tail = e.subrange(1, e.len() as int);
    let u = unsigned_part(tail);
    assert(e[0] == s[b]);
    if b + 1 < n {
        assert(tail[0] == s[b + 1]);
    }
    assert(u =~= s.subrange(c, n));
    if d == n && d > c {
        assert forall|j: int| 0 <= j < u.len() implies is_digit(#[trigger] u[j]) by {
            assert(u[j] == s[c + j]);
        }
    }
    if is_exponent(e) {
        if d < n {
            assert(is_digit(u[d - c]));
        }
    }
}

/// No character comes before the first one.
proof fn lemma_char_is_not_below_nul(c: char)
    ensures
        '\0' <= c,
{
}

/// Every character of a floating-point literal is an ASCII character.
proof fn lemma_float_text_is_ascii(s: Seq<char>)
    requires
        is_float_text(s),
    ensures
        vstd::utf8::is_ascii_chars(s),
{
    let body = unsigned_part(s);
    assert forall|i: int| 0 <= i < body.len() implies #[trigger] body[i] <= '\u{7f}' by {
        if is_special(body) {
            let inf = seq!['i', 'n', 'f'];
            let infinity = seq!['i', 'n', 'f', 'i', 'n', 'i', 't', 'y'];
            let nan = seq!['n', 'a', 'n'];
            if spells(body, inf) {
                assert(is_letter(body[i], inf[i]));
            } else if spells(body, infinity) {
                assert(is_letter(body[i], infinity[i]));
            } else {
                assert(is_letter(body[i], nan[i]));
            }
        } else {
            let k = if is_mantissa(body) {
                body.len() as int
            } else {
                choose|k: int|
                    0 <= k <= body.len() && is_mantissa(#[trigger] body.subrange(0, k))
                        && is_exponent(body.subrange(k, body.len() as int))
            };
            assert(body.subrange(0, body.len() as int) =~= body);
            let m = body.subrange(0, k);
            if i < k {
                assert(m[i] == body[i]);
                if m.len() >= 1 && all_digits(m) {
                    assert(is_digit(m[i]));
                } else {
                    let p = choose|p: int|
                        0 <= p < m.len() && #[trigger] m[p] == '.' && all_digits(m.subrange(0, p))
                            && all_digits(m.subrange(p + 1, m.len() as int));
                    if i < p {
                        assert(is_digit(m.subrange(0, p)[i]));
                    } else if i > p {
                        assert(is_digit(m.subrange(p + 1, m.len() as int)[i - p - 1]));
                    }
                }
            } else {
                let e = body.subrange(k, body.len() as int);
                let tail = e.subrange(1, e.len() as int);
                let u = unsigned_part(tail);
                assert(e[i - k] == body[i]);
                if i > k {
                    assert(tail[i - k - 1] == body[i]);
                    if u.len() == tail.len() {
                        assert(is_digit(u[i - k - 1]));
                    } else if i > k + 1 {
                        assert(is_digit(u[i - k - 2]));
                    }
                }
            }
        }
    }
    assert forall|i: int| 0 <= i < s.len() implies '\0' <= #[trigger] s[i] <= '\u{7f}' by {
        if body.len() == s.len() {
            assert(body[i] == s[i]);
        } else if i > 0 {
            assert(body[i - 1] == s[i]);
        } else {
            assert(is_sign(s[0]));
        }
        lemma_char_is_not_below_nul(s[i]);
    }
}

/// Finds where the digits that start at `from` end.
fn digit_run_end(bytes: &[u8], from: usize, Ghost(s): Ghost<Seq<char>>) -> (to: usize)
    requires
        vstd::utf8::is_ascii_chars(s),
        bytes@ == ascii_bytes(s),
        from <= bytes.len(),
    ensures
        digit_run(s, from as int, to as int),
{
    let mut to: usize = from;
    while to < bytes.len() && 48u8 <= bytes[to] && bytes[to] <= 57u8
        invariant
            vstd::utf8::is_ascii_chars(s),
            bytes@ == ascii_bytes(s),
            from <= to <= bytes.len(),
            forall|j: int| from <= j < to ==> is_digit(#[trigger] s[j]),
        decreases bytes.len() - to,
    {
        assert(bytes@[to as int] == s[to as int] as u8);
        to += 1;
    }
    proof {
        if to < bytes.len() {
            assert(bytes@[to as int] == s[to as int] as u8);
        }
    }
    to
}

/// Tells whether the byte at `i` is the letter `lower` or its capital.
fn letter_at(bytes: &[u8], i: usize, lower: u8, Ghost(s): Ghost<Seq<char>>) -> (r: bool)
    requires
        vstd::utf8::is_ascii_chars(s),
        bytes@ == ascii_bytes(s),
        i < bytes.len(),
        97 <= lower <= 122,
    ensures
        r == is_letter(s[i as int], lower as char),
{
    assert(bytes@[i as int] == s[i as int] as u8);
    bytes[i] == lower || bytes[i] == lower - 32
}

/// Tells whether the text is one of the special names.
fn is_special_name(bytes: &[u8], Ghost(s): Ghost<Seq<char>>) -> (r: bool)
    requires
        vstd::utf8::is_ascii_chars(s),
        bytes@ == ascii_bytes(s),
    ensures
        r == is_special(s),
{
    let ghost inf = seq!['i', 'n', 'f'];
    let ghost infinity = seq!['i', 'n', 'f', 'i', 'n', 'i', 't', 'y'];
    let ghost nan = seq!['n', 'a', 'n'];
    if bytes.len() == 3 {
        let is_inf = letter_at(bytes, 0, 105, Ghost(s)) && letter_at(bytes, 1, 110, Ghost(s))
            && letter_at(bytes, 2, 102, Ghost(s));
        let is_nan = letter_at(bytes, 0, 110, Ghost(s)) && letter_at(bytes, 1, 97, Ghost(s))
            && letter_at(bytes, 2, 110, Ghost(s));
        proof {
            assert(spells(s, inf) ==> is_letter(s[0], inf[0]) && is_letter(s[1], inf[1])
                && is_letter(s[2], inf[2]));
            assert(spells(s, nan) ==> is_letter(s[0], nan[0]) && is_letter(s[1], nan[1])
                && is_letter(s[2], nan[2]));
        }
        is_inf || is_nan
    } else if bytes.len() == 8 {
        let r = letter_at(bytes, 0, 105, Ghost(s)) && letter_at(bytes, 1, 110, Ghost(s))
            && letter_at(bytes, 2, 102, Ghost(s)) && letter_at(bytes, 3, 105, Ghost(s))
            && letter_at(bytes, 4, 110, Ghost(s)) && letter_at(bytes, 5, 105, Ghost(s))
            && letter_at(bytes, 6, 116, Ghost(s)) && letter_at(bytes, 7, 121, Ghost(s));
        proof {
            assert(spells(s, infinity) ==> is_letter(s[0], infinity[0]) && is_letter(
                s[1],
                infinity[1],
            ) && is_letter(s[2], infinity[2]) && is_letter(s[3], infinity[3]) && is_letter(
                s[4],
                infinity[4],
            ) && is_letter(s[5], infinity[5]) && is_letter(s[6], infinity[6]) && is_letter(
                s[7],
                infinity[7],
            ));
        }
        r
    } else {
        false
    }
}

/// Tells whether the text is a number: a mantissa and perhaps an exponent.
fn is_number_text(bytes: &[u8], Ghost(s): Ghost<Seq<char>>) -> (r: bool)
    requires
        vstd::utf8::is_ascii_chars(s),
        bytes@ == ascii_bytes(s),
    ensures
        r == is_number(s),
{
    let n = bytes.len();
    let a = digit_run_end(bytes, 0, Ghost(s));
    let point = a < n && bytes[a] == 46u8;
    proof {
        if a < n {
            assert(bytes@[a as int] == s[a as int] as u8);
        }
    }
    let b = if point {
        digit_run_end(bytes, a + 1, Ghost(s))
    } else {
        a
    };
    proof {
        lemma_number_by_runs(s, a as int, b as int);
    }
    if (point && b < 2) || b < 1 {
        return false;
    }
    if b == n {
        return true;
    }
    assert(bytes@[b as int] == s[b as int] as u8);
    if bytes[b] != 101u8 && bytes[b] != 69u8 {
        assert(s.subrange(b as int, n as int)[0] == s[b as int]);
        return false;
    }
    let signed = b + 1 < n && (bytes[b + 1] == 43u8 || bytes[b + 1] == 45u8);
    proof {
        if b + 1 < n {
            assert(bytes@[b + 1] == s[b + 1] as u8);
        }
    }
    let c = if signed {
        b + 2
    } else {
        b + 1
    };
    let d = digit_run_end(bytes, c, Ghost(s));
    proof {
        lemma_exponent_by_run(s, b as int, c as int, d as int);
    }
    d == n && d > c
}

/// Tells whether `text` is a decimal floating-point literal.
pub fn is_float_literal(text: &str) -> (r: bool)
    ensures
        r == is_float_text(text@),
{
    if !text.is_ascii() {
        proof {
            if is_float_text(text@) {
                lemma_float_text_is_ascii(text@);
            }
        }
        return false;
    }
    let bytes = text.as_bytes();
    proof {
        is_ascii_spec_bytes(text);
    }
    let n = bytes.len();
    let start: usize = if n > 0 && (bytes[0] == 43u8 || bytes[0] == 45u8) {
        1
    } else {
        0
    };
    let rest = slice_subrange(bytes, start, n);
    let ghost body = unsigned_part(text@);
    proof {
        if n > 0 {
            assert(bytes@[0] == text@[0] as u8);
        }
        assert(body =~= text@.subrange(start as int, n as int));
        assert(rest@ =~= ascii_bytes(body));
    }
    is_special_name(rest, Ghost(body)) || is_number_text(rest, Ghost(body))
}

} // verus!
