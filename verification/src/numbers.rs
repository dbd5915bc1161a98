//! Numbers written out as text: parsing and formatting.
use vstd::prelude::*;
use vstd::string::*;
use vstd::utf8::{decode_utf8, valid_utf8};
use crate::text::{chars_of, trim, trim_range, utf8_text};

verus! {

broadcast use crate::slices::slice_len_bound;

/// The value of an ASCII digit or letter as a digit of the given radix.
pub open spec fn digit(c: char, radix: int) -> Option<int> {
    let n = c as u32;
    let value = if 0x30 <= n <= 0x39 {
        n - 0x30
    } else if 0x61 <= n <= 0x7A {
        n - 0x61 + 10
    } else if 0x41 <= n <= 0x5A {
        n - 0x41 + 10
    } else {
        radix
    };
    if value < radix {
        Some(value)
    } else {
        None
    }
}

/// The value of a row of digits, most significant first.
pub open spec fn digits_value(text: Seq<char>, radix: int) -> Option<int>
    decreases text.len(),
{
    if text.len() == 0 {
        Some(0)
    } else {
        match (digits_value(text.drop_last(), radix), digit(text.last(), radix)) {
            (Some(high), Some(low)) => Some(high * radix + low),
            _ => None,
        }
    }
}

/// The unsigned number that `text` spells in the given radix: an optional `+`
/// and at least one digit, with a value of at most `max`.
pub open spec fn number(text: Seq<char>, radix: int, max: int) -> Option<int> {
    let digits = if text.len() > 1 && text[0] == '+' {
        text.skip(1)
    } else {
        text
    };
    if digits.len() == 0 {
        None
    } else {
        match digits_value(digits, radix) {
            Some(value) if value <= max => Some(value),
            _ => None,
        }
    }
}

/// The number that a field of UTF-8 text spells.
pub open spec fn field_number(field: Seq<u8>, radix: int) -> Option<int> {
    if valid_utf8(field) {
        number(decode_utf8(field), radix, u64::MAX as int)
    } else {
        None
    }
}

/// The number that a field of UTF-8 text spells between white space.
pub open spec fn padded_field_number(field: Seq<u8>, radix: int) -> Option<int> {
    if valid_utf8(field) {
        number(trim(decode_utf8(field)), radix, u64::MAX as int)
    } else {
        None
    }
}

/// A row of digits has at least the value of each of its beginnings.
pub proof fn lemma_digits_prefix(text: Seq<char>, radix: int, k: int)
    requires
        0 <= k <= text.len(),
        radix >= 1,
    ensures
        digits_value(text, radix) matches Some(whole) ==> {
            &&& digits_value(text.take(k), radix) matches Some(part)
            &&& 0 <= part <= whole
        },
    decreases text.len() - k,
{
    if k == text.len() {
        assert(text.take(k) == text);
        lemma_digits_nonnegative(text, radix);
    } else {
        lemma_digits_prefix(text, radix, k + 1);
        assert(text.take(k + 1).drop_last() == text.take(k));
        lemma_digits_nonnegative(text.take(k), radix);
        if let Some(part) = digits_value(text.take(k), radix) {
            assert(part * radix >= part) by (nonlinear_arith)
                requires
                    part >= 0,
                    radix >= 1,
            ;
        }
    }
}

/// A row of digits has no negative value.
pub proof fn lemma_digits_nonnegative(text: Seq<char>, radix: int)
    requires
        radix >= 1,
    ensures
        digits_value(text, radix) matches Some(value) ==> value >= 0,
    decreases text.len(),
{
    if text.len() > 0 {
        lemma_digits_nonnegative(text.drop_last(), radix);
        if let Some(high) = digits_value(text.drop_last(), radix) {
            assert(high * radix >= 0) by (nonlinear_arith)
                requires
                    high >= 0,
                    radix >= 1,
            ;
        }
    }
}

fn digit_value(c: char, radix: u8) -> (r: Option<u8>)
    ensures
        r is Some <==> digit(c, radix as int) is Some,
        r matches Some(value) ==> digit(c, radix as int) == Some(value as int),
{
    let n = c as u32;
    let value = if 0x30 <= n && n <= 0x39 {
        (n - 0x30) as u8
    } else if 0x61 <= n && n <= 0x7A {
        (n - 0x61 + 10) as u8
    } else if 0x41 <= n && n <= 0x5A {
        (n - 0x41 + 10) as u8
    } else {
        radix
    };
    if value < radix {
        Some(value)
    } else {
        None
    }
}

/// The number that the characters `from..to` spell, of at most `max`.
pub fn parse_number(chars: &Vec<char>, from: usize, to: usize, radix: u8, max: u64) -> (r: Option<u64>)
    requires
        from <= to <= chars@.len(),
        1 <= radix,
    ensures
        r is Some <==> number(chars@.subrange(from as int, to as int), radix as int, max as int) is Some,
        r matches Some(n) ==> number(chars@.subrange(from as int, to as int), radix as int, max as int)
            == Some(n as int),
{
    let ghost text = chars@.subrange(from as int, to as int);
    let first = if to - from > 1 && chars[from] == '+' {
        from + 1
    } else {
        from
    };
    let ghost digits = chars@.subrange(first as int, to as int);
    assert(first == from + 1 ==> text.skip(1) == digits);
    if first == to {
        return None;
    }
    let mut value: u64 = 0;
    let mut i: usize = first;
    while i < to
        invariant
            1 <= radix,
            first <= i <= to <= chars@.len(),
            digits == chars@.subrange(first as int, to as int),
            digits_value(digits.take(i - first), radix as int) == Some(value as int),
            value <= max,
            digits.len() > 0,
            number(text, radix as int, max as int) == match digits_value(digits, radix as int) {
                Some(v) if v <= max => Some(v),
                _ => None::<int>,
            },
            text == chars@.subrange(from as int, to as int),
        decreases to - i,
    {
        proof {
            let k = i - first;
            assert(digits.take(k + 1).drop_last() == digits.take(k));
            assert(digits.take(k + 1).last() == chars@[i as int]);
            lemma_digits_prefix(digits, radix as int, k + 1);
        }
        let low = match digit_value(chars[i], radix) {
            Some(low) => low,
            None => {
                return None;
            },
        };
        value = match value.checked_mul(radix as u64) {
            Some(high) => match high.checked_add(low as u64) {
                Some(sum) => sum,
                None => {
                    return None;
                },
            },
            None => {
                return None;
            },
        };
        if value > max {
            return None;
        }
        i = i + 1;
    }
    assert(digits.take(i - first) == digits);
    Some(value)
}

/// The number in the field `from..to` of `data`.
pub fn parse_field(data: &[u8], from: usize, to: usize, radix: u8) -> (r: Option<u64>)
    requires
        from <= to <= data@.len(),
        1 <= radix,
    ensures
        r is Some <==> field_number(data@.subrange(from as int, to as int), radix as int) is Some,
        r matches Some(n) ==> field_number(data@.subrange(from as int, to as int), radix as int) == Some(
            n as int,
        ),
{
    let field = vstd::slice::slice_subrange(data, from, to);
    let text = utf8_text(field)?;
    let chars = chars_of(text);
    assert(chars@.subrange(0, chars@.len() as int) == chars@);
    parse_number(&chars, 0, chars.len(), radix, u64::MAX)
}

/// The number between white space in the field `from..to` of `data`.
pub fn parse_padded_field(data: &[u8], from: usize, to: usize, radix: u8) -> (r: Option<u64>)
    requires
        from <= to <= data@.len(),
        1 <= radix,
    ensures
        r is Some <==> padded_field_number(data@.subrange(from as int, to as int), radix as int) is Some,
        r matches Some(n) ==> padded_field_number(data@.subrange(from as int, to as int), radix as int)
            == Some(n as int),
{
    let field = vstd::slice::slice_subrange(data, from, to);
    let text = utf8_text(field)?;
    let chars = chars_of(text);
    let (a, b) = trim_range(&chars);
    parse_number(&chars, a, b, radix, u64::MAX)
}

/// The character for a digit below 16.
pub open spec fn digit_char(n: int) -> char {
    if n < 10 {
        ((0x30 + n) as u8) as char
    } else {
        ((0x61 + n - 10) as u8) as char
    }
}

/// A number in decimal.
pub open spec fn dec(n: nat) -> Seq<char>
    decreases n,
{
    if n < 10 {
        seq![digit_char(n as int)]
    } else {
        dec(n / 10).push(digit_char((n % 10) as int))
    }
}

/// A number in lower-case hexadecimal.
pub open spec fn hex(n: nat) -> Seq<char>
    decreases n,
{
    if n < 16 {
        seq![digit_char(n as int)]
    } else {
        hex(n / 16).push(digit_char((n % 16) as int))
    }
}

/// A signed number in decimal.
pub open spec fn signed_dec(n: int) -> Seq<char> {
    if n < 0 {
        seq!['-'] + dec((-n) as nat)
    } else {
        dec(n as nat)
    }
}

/// `text` with as many `fill` characters in front of it as make it `width` long.
pub open spec fn pad_left(text: Seq<char>, width: nat, fill: char) -> Seq<char> {
    if text.len() < width {
        Seq::new((width - text.len()) as nat, |i: int| fill) + text
    } else {
        text
    }
}

/// `text` with as many `fill` characters behind it as make it `width` long.
pub open spec fn pad_right(text: Seq<char>, width: nat, fill: char) -> Seq<char> {
    if text.len() < width {
        text + Seq::new((width - text.len()) as nat, |i: int| fill)
    } else {
        text
    }
}

fn digit_character(n: u8) -> (r: char)
    requires
        n < 16,
    ensures
        r == digit_char(n as int),
{
    if n < 10 {
        (0x30 + n) as char
    } else {
        (0x61 + (n - 10)) as char
    }
}

/// Appends a number in decimal.
pub fn push_dec(out: &mut String, n: u64)
    ensures
        final(out)@ == old(out)@ + dec(n as nat),
    decreases n,
{
    if n >= 10 {
        push_dec(out, n / 10);
    }
    out.push(digit_character((n % 10) as u8));
    assert(out@ == old(out)@ + dec(n as nat));
}

/// Appends a number in lower-case hexadecimal.
pub fn push_hex(out: &mut String, n: u64)
    ensures
        final(out)@ == old(out)@ + hex(n as nat),
    decreases n,
{
    if n >= 16 {
        push_hex(out, n / 16);
    }
    out.push(digit_character((n % 16) as u8));
    assert(out@ == old(out)@ + hex(n as nat));
}

/// Appends a signed number in decimal.
pub fn push_signed(out: &mut String, n: i64)
    ensures
        final(out)@ == old(out)@ + signed_dec(n as int),
{
    if n < 0 {
        out.push('-');
        let magnitude = (-(n as i128)) as u64;
        push_dec(out, magnitude);
        assert(out@ == old(out)@ + signed_dec(n as int));
    } else {
        push_dec(out, n as u64);
    }
}

/// Appends `n` copies of a character.
pub fn push_repeated(out: &mut String, c: char, n: usize)
    ensures
        final(out)@ == old(out)@ + Seq::new(n as nat, |i: int| c),
{
    let mut i: usize = 0;
    assert(out@ + Seq::new(0, |i: int| c) == out@);
    while i < n
        invariant
            i <= n,
            out@ == old(out)@ + Seq::new(i as nat, |i: int| c),
        decreases n - i,
    {
        out.push(c);
        i = i + 1;
        assert(out@ == old(out)@ + Seq::new(i as nat, |i: int| c));
    }
}

/// A number in decimal.
pub fn dec_text(n: u64) -> (r: String)
    ensures
        r@ == dec(n as nat),
{
    let mut out = String::new();
    push_dec(&mut out, n);
    assert(Seq::<char>::empty() + dec(n as nat) == dec(n as nat));
    out
}

/// A number in lower-case hexadecimal, filled up with zeros to that width.
pub fn padded_hex(n: u64, width: usize) -> (r: String)
    ensures
        r@ == pad_left(hex(n as nat), width as nat, '0'),
{
    let mut digits = String::new();
    push_hex(&mut digits, n);
    assert(digits@ == hex(n as nat));
    left_padded(digits, width, '0')
}

/// A text filled up on the left to that width, in characters.
pub fn left_padded(text: String, width: usize, fill: char) -> (r: String)
    ensures
        r@ == pad_left(text@, width as nat, fill),
{
    let n = text.as_str().unicode_len();
    if n >= width {
        return text;
    }
    let mut out = String::new();
    push_repeated(&mut out, fill, width - n);
    out.append(text.as_str());
    assert(out@ == pad_left(text@, width as nat, fill));
    out
}

/// A text filled up on the right to that width, in characters.
pub fn right_padded(text: String, width: usize, fill: char) -> (r: String)
    ensures
        r@ == pad_right(text@, width as nat, fill),
{
    let n = text.as_str().unicode_len();
    if n >= width {
        return text;
    }
    let mut out = text;
    push_repeated(&mut out, fill, width - n);
    out
}

} // verus!
