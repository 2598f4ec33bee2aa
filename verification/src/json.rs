//! Byte-level JSON writing: string escaping, decimal integers and the
//! number-literal grammar.

use vstd::prelude::*;

verus! {

/// The double quote.
pub const QUOTE: u8 = 0x22;

/// The backslash.
pub const BACKSLASH: u8 = 0x5c;

/// The line feed that ends every line of a bulk payload.
pub const NEWLINE: u8 = 0x0a;

/// The UTF-8 bytes of a text.
pub open spec fn utf8(chars: Seq<char>) -> Seq<u8> {
    vstd::utf8::encode_utf8(chars)
}

/// The lower-case hexadecimal digit for a nibble.
pub open spec fn hex_digit(n: u8) -> u8 {
    if n < 10 {
        (0x30 + n) as u8
    } else {
        (0x57 + n) as u8
    }
}

/// The bytes that stand for one byte of a string inside a JSON string
/// literal: quotes and backslashes get a backslash, control bytes become
/// `\u00XX`, every other byte stands for itself.
pub open spec fn escape_byte(b: u8) -> Seq<u8> {
    if b == QUOTE {
        seq![BACKSLASH, QUOTE]
    } else if b == BACKSLASH {
        seq![BACKSLASH, BACKSLASH]
    } else if b < 0x20 {
        seq![BACKSLASH, 0x75u8, 0x30u8, 0x30u8, hex_digit(b / 16), hex_digit(b % 16)]
    } else {
        seq![b]
    }
}

/// The escaped form of a whole byte string.
pub open spec fn escaped(s: Seq<u8>) -> Seq<u8>
    decreases s.len(),
{
    if s.len() == 0 {
        Seq::empty()
    } else {
        escaped(s.drop_last()) + escape_byte(s.last())
    }
}

/// A JSON string literal: the escaped bytes between two quotes.
pub open spec fn quoted(s: Seq<u8>) -> Seq<u8> {
    seq![QUOTE] + escaped(s) + seq![QUOTE]
}

/// Every byte of an escaped string is printable: none is a control byte,
/// so none is a line break.
pub proof fn lemma_escaped_is_printable(s: Seq<u8>)
    ensures
        forall|i: int| 0 <= i < escaped(s).len() ==> #[trigger] escaped(s)[i] >= 0x20,
    decreases s.len(),
{
    if s.len() > 0 {
        lemma_escaped_is_printable(s.drop_last());
        let head = escaped(s.drop_last());
        let tail = escape_byte(s.last());
        assert forall|i: int| 0 <= i < escaped(s).len() implies #[trigger] escaped(s)[i]
            >= 0x20 by {
            if i < head.len() {
                assert(escaped(s)[i] == head[i]);
            } else {
                assert(escaped(s)[i] == tail[i - head.len()]);
            }
        }
    }
}

fn hex_of(n: u8) -> (r: u8)
    requires
        n < 16,
    ensures
        r == hex_digit(n),
{
    if n < 10 {
        0x30 + n
    } else {
        0x57 + n
    }
}

/// Appends the escaped form of `s` to `out`.
pub fn write_escaped(out: &mut Vec<u8>, s: &[u8])
    ensures
        final(out)@ == old(out)@ + escaped(s@),
{
    let mut i: usize = 0;
    while i < s.len()
        invariant
            i <= s.len(),
            out@ == old(out)@ + escaped(s@.take(i as int)),
        decreases s.len() - i,
    {
        let b: u8 = s[i];
        proof {
            assert(s@.take(i + 1).drop_last() == s@.take(i as int));
            assert(s@.take(i + 1).last() == b);
        }
        if b == QUOTE {
            out.push(BACKSLASH);
            out.push(QUOTE);
        } else if b == BACKSLASH {
            out.push(BACKSLASH);
            out.push(BACKSLASH);
        } else if b < 0x20 {
            out.push(BACKSLASH);
            out.push(0x75);
            out.push(0x30);
            out.push(0x30);
            out.push(hex_of(b / 16));
            out.push(hex_of(b % 16));
        } else {
            out.push(b);
        }
        i += 1;
    }
    proof {
        assert(s@.take(s.len() as int) == s@);
    }
}

/// Appends `s` as a JSON string literal to `out`.
pub fn write_quoted(out: &mut Vec<u8>, s: &[u8])
    ensures
        final(out)@ == old(out)@ + quoted(s@),
{
    out.push(QUOTE);
    write_escaped(out, s);
    out.push(QUOTE);
}

/// Appends the bytes of `s` to `out` unchanged.
pub fn append_bytes(out: &mut Vec<u8>, s: &[u8])
    ensures
        final(out)@ == old(out)@ + s@,
{
    let mut i: usize = 0;
    while i < s.len()
        invariant
            i <= s.len(),
            out@ == old(out)@ + s@.take(i as int),
        decreases s.len() - i,
    {
        out.push(s[i]);
        proof {
            assert(s@.take(i + 1) == s@.take(i as int).push(s@[i as int]));
        }
        i += 1;
    }
    proof {
        assert(s@.take(s.len() as int) == s@);
    }
}

/// The decimal digits of a natural number, most significant first.
pub open spec fn decimal(n: nat) -> Seq<u8>
    decreases n,
{
    if n < 10 {
        seq![(0x30 + n) as u8]
    } else {
        decimal(n / 10).push((0x30 + n % 10) as u8)
    }
}

/// Appends the decimal digits of `n` to `out`.
pub fn write_decimal(out: &mut Vec<u8>, n: u64)
    ensures
        final(out)@ == old(out)@ + decimal(n as nat),
    decreases n,
{
    if n >= 10 {
        write_decimal(out, n / 10);
    }
    out.push(0x30 + (n % 10) as u8);
}

/// Whether a byte is one of the digits `0` to `9`.
pub open spec fn is_digit(b: u8) -> bool {
    0x30 <= b <= 0x39
}

/// The first position at or after `i` that holds no digit.
pub open spec fn digits_end(s: Seq<u8>, i: int) -> int
    decreases s.len() - i,
{
    if 0 <= i < s.len() && is_digit(s[i]) {
        digits_end(s, i + 1)
    } else {
        i
    }
}

/// The position after an optional minus sign.
pub open spec fn sign_end(s: Seq<u8>) -> int {
    if s.len() > 0 && s[0] == 0x2d {
        1
    } else {
        0
    }
}

/// The position after the integer part that starts at `i`: a single `0`, or
/// a run of digits that starts with `1` to `9`.
pub open spec fn int_end(s: Seq<u8>, i: int) -> Option<int> {
    if 0 <= i < s.len() && is_digit(s[i]) {
        if s[i] == 0x30 {
            Some(i + 1)
        } else {
            Some(digits_end(s, i))
        }
    } else {
        None
    }
}

/// The position after an optional fraction that starts at `i`: a dot and at
/// least one digit.
pub open spec fn frac_end(s: Seq<u8>, i: int) -> Option<int> {
    if 0 <= i < s.len() && s[i] == 0x2e {
        if i + 1 < s.len() && is_digit(s[i + 1]) {
            Some(digits_end(s, i + 1))
        } else {
            None
        }
    } else {
        Some(i)
    }
}

/// The position after an optional exponent that starts at `i`: `e` or `E`,
/// an optional sign and at least one digit.
pub open spec fn exp_end(s: Seq<u8>, i: int) -> Option<int> {
    if 0 <= i < s.len() && (s[i] == 0x65 || s[i] == 0x45) {
        let j = if i + 1 < s.len() && (s[i + 1] == 0x2b || s[i + 1] == 0x2d) {
            i + 2
        } else {
            i + 1
        };
        if j < s.len() && is_digit(s[j]) {
            Some(digits_end(s, j))
        } else {
            None
        }
    } else {
        Some(i)
    }
}

/// Whether the bytes are exactly one JSON number: an optional minus, an
/// integer part, an optional fraction and an optional exponent.
pub open spec fn is_number_literal(s: Seq<u8>) -> bool {
    match int_end(s, sign_end(s)) {
        Some(a) => match frac_end(s, a) {
            Some(b) => match exp_end(s, b) {
                Some(c) => c == s.len(),
                None => false,
            },
            None => false,
        },
        None => false,
    }
}

/// The digits of a run never reach past the end of the text.
pub proof fn lemma_digits_end_bounds(s: Seq<u8>, i: int)
    requires
        0 <= i <= s.len(),
    ensures
        i <= digits_end(s, i) <= s.len(),
    decreases s.len() - i,
{
    if i < s.len() && is_digit(s[i]) {
        lemma_digits_end_bounds(s, i + 1);
    }
}

fn skip_digits(s: &[u8], start: usize) -> (end: usize)
    requires
        start <= s.len(),
    ensures
        end == digits_end(s@, start as int),
        start <= end <= s.len(),
{
    let mut i: usize = start;
    while i < s.len() && s[i] >= 0x30 && s[i] <= 0x39
        invariant
            start <= i <= s.len(),
            digits_end(s@, start as int) == digits_end(s@, i as int),
        decreases s.len() - i,
    {
        i += 1;
    }
    i
}

/// Tells whether `s` is exactly one JSON number.
pub fn check_number_literal(s: &[u8]) -> (ok: bool)
    ensures
        ok == is_number_literal(s@),
{
    let n: usize = s.len();
    let mut i: usize = 0;
    if n > 0 && s[0] == 0x2d {
        i = 1;
    }
    if i >= n || s[i] < 0x30 || s[i] > 0x39 {
        return false;
    }
    if s[i] == 0x30 {
        i += 1;
    } else {
        i = skip_digits(s, i);
    }
    if i < n && s[i] == 0x2e {
        if i + 1 < n && s[i + 1] >= 0x30 && s[i + 1] <= 0x39 {
            i = skip_digits(s, i + 1);
        } else {
            return false;
        }
    }
    if i < n && (s[i] == 0x65 || s[i] == 0x45) {
        let mut j: usize = i + 1;
        if j < n && (s[j] == 0x2b || s[j] == 0x2d) {
            j += 1;
        }
        if j < n && s[j] >= 0x30 && s[j] <= 0x39 {
            i = skip_digits(s, j);
        } else {
            return false;
        }
    }
    i == n
}

/// Every byte of a decimal rendering is a digit, and only a single digit may
/// be a zero in front.
pub proof fn lemma_decimal_digits(n: nat)
    ensures
        decimal(n).len() >= 1,
        forall|i: int| 0 <= i < decimal(n).len() ==> is_digit(#[trigger] decimal(n)[i]),
        decimal(n)[0] == 0x30 ==> decimal(n).len() == 1,
    decreases n,
{
    if n >= 10 {
        lemma_decimal_digits(n / 10);
        assert(n / 10 >= 1);
        lemma_decimal_leading(n / 10);
    }
}

proof fn lemma_decimal_leading(n: nat)
    requires
        n >= 1,
    ensures
        decimal(n)[0] != 0x30,
    decreases n,
{
    if n >= 10 {
        lemma_decimal_leading(n / 10);
        lemma_decimal_digits(n / 10);
    }
}

/// A run of digits that reaches the end of the text ends there.
pub proof fn lemma_digits_end_all(s: Seq<u8>, i: int)
    requires
        0 <= i <= s.len(),
        forall|j: int| i <= j < s.len() ==> is_digit(#[trigger] s[j]),
    ensures
        digits_end(s, i) == s.len(),
    decreases s.len() - i,
{
    if i < s.len() {
        lemma_digits_end_all(s, i + 1);
    }
}

/// The decimal rendering of a natural number is a JSON number.
pub proof fn lemma_decimal_is_number(n: nat)
    ensures
        is_number_literal(decimal(n)),
{
    let s = decimal(n);
    lemma_decimal_digits(n);
    lemma_digits_end_all(s, 0);
    lemma_digits_end_all(s, 1);
}

/// Every byte from `i` up to the end of the run of digits is a digit.
pub proof fn lemma_digits_run(s: Seq<u8>, i: int)
    requires
        0 <= i <= s.len(),
    ensures
        forall|k: int| i <= k < digits_end(s, i) ==> is_digit(#[trigger] s[k]),
    decreases s.len() - i,
{
    if i < s.len() && is_digit(s[i]) {
        lemma_digits_run(s, i + 1);
    }
}

/// A JSON number holds no control byte, so no line break.
pub proof fn lemma_number_is_printable(s: Seq<u8>)
    requires
        is_number_literal(s),
    ensures
        s.len() >= 1,
        forall|i: int| 0 <= i < s.len() ==> #[trigger] s[i] >= 0x20,
{
    let i0 = sign_end(s);
    let a = int_end(s, i0).unwrap();
    lemma_digits_run(s, i0);
    lemma_digits_end_bounds(s, i0);
    let b = frac_end(s, a).unwrap();
    if a < s.len() && s[a] == 0x2e {
        lemma_digits_run(s, a + 1);
        lemma_digits_end_bounds(s, a + 1);
    }
    if b < s.len() && (s[b] == 0x65 || s[b] == 0x45) {
        let j = if b + 1 < s.len() && (s[b + 1] == 0x2b || s[b + 1] == 0x2d) {
            b + 2
        } else {
            b + 1
        };
        lemma_digits_run(s, j);
        lemma_digits_end_bounds(s, j);
    }
    assert forall|i: int| 0 <= i < s.len() implies #[trigger] s[i] >= 0x20 by {
        if i < i0 {
        } else if i < a {
            assert(is_digit(s[i]));
        } else if i < b {
            if i > a {
                assert(is_digit(s[i]));
            }
        } else {
            let j = if b + 1 < s.len() && (s[b + 1] == 0x2b || s[b + 1] == 0x2d) {
                b + 2
            } else {
                b + 1
            };
            if i >= j {
                assert(is_digit(s[i]));
            }
        }
    }
}

/// The number that a run of digits stands for.
pub open spec fn digits_value(s: Seq<u8>) -> nat
    decreases s.len(),
{
    if s.len() == 0 {
        0
    } else {
        (digits_value(s.drop_last()) * 10 + (s.last() - 0x30)) as nat
    }
}

/// Whether the bytes are a natural number written the plain way: digits
/// only, at least one, and no zero in front of another digit.
pub open spec fn is_plain_decimal(s: Seq<u8>) -> bool {
    &&& s.len() >= 1
    &&& forall|i: int| 0 <= i < s.len() ==> is_digit(#[trigger] s[i])
    &&& s[0] != 0x30 || s.len() == 1
}

/// The number that the bytes stand for, where they are a plain decimal that
/// fits 64 bits.
pub open spec fn plain_value(s: Seq<u8>) -> Option<u64> {
    if is_plain_decimal(s) && digits_value(s) <= u64::MAX {
        Some(digits_value(s) as u64)
    } else {
        None
    }
}

proof fn lemma_digits_value_grows(s: Seq<u8>, n: int)
    requires
        0 <= n <= s.len(),
        forall|i: int| 0 <= i < s.len() ==> is_digit(#[trigger] s[i]),
    ensures
        digits_value(s.take(n)) <= digits_value(s),
    decreases s.len() - n,
{
    if n < s.len() {
        lemma_digits_value_grows(s, n + 1);
        assert(s.take(n + 1).drop_last() == s.take(n));
        assert(is_digit(s[n]));
        assert(s.take(n + 1).last() == s[n]);
    } else {
        assert(s.take(n) == s);
    }
}

/// Reads a natural number written the plain way. `None` for anything else,
/// and for a number that does not fit 64 bits.
pub fn parse_decimal(s: &[u8]) -> (value: Option<u64>)
    ensures
        value == plain_value(s@),
{
    let n: usize = s.len();
    if n == 0 {
        return None;
    }
    if s[0] == 0x30 && n > 1 {
        return None;
    }
    let mut value: u64 = 0;
    let mut i: usize = 0;
    while i < n
        invariant
            i <= n,
            n == s.len(),
            forall|j: int| 0 <= j < i ==> is_digit(#[trigger] s@[j]),
            value == digits_value(s@.take(i as int)),
        decreases n - i,
    {
        let b: u8 = s[i];
        if b < 0x30 || b > 0x39 {
            return None;
        }
        proof {
            assert(s@.take(i + 1).drop_last() == s@.take(i as int));
            assert(s@.take(i + 1).last() == b);
        }
        let next = match value.checked_mul(10) {
            Some(shifted) => shifted.checked_add((b - 0x30) as u64),
            None => None,
        };
        match next {
            Some(v) => {
                value = v;
            },
            None => {
                proof {
                    if is_plain_decimal(s@) {
                        lemma_digits_value_grows(s@, i + 1);
                    }
                }
                return None;
            },
        }
        i += 1;
    }
    proof {
        assert(s@.take(n as int) == s@);
    }
    Some(value)
}

/// Reading back the decimal rendering of a number gives the number.
pub proof fn lemma_decimal_round_trip(n: nat)
    ensures
        is_plain_decimal(decimal(n)),
        digits_value(decimal(n)) == n,
    decreases n,
{
    lemma_decimal_digits(n);
    if n >= 10 {
        lemma_decimal_round_trip(n / 10);
        assert(decimal(n).drop_last() == decimal(n / 10));
        assert(decimal(n).last() == (0x30 + n % 10) as u8);
        assert(digits_value(decimal(n)) == digits_value(decimal(n / 10)) * 10 + n % 10);
    } else {
        assert(decimal(n).drop_last() =~= Seq::<u8>::empty());
        assert(decimal(n).last() == (0x30 + n) as u8);
        assert(digits_value(decimal(n).drop_last()) == 0);
    }
}

} // verus!
