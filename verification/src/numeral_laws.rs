//! Numbers and names in text fields are read as they were written.
use vstd::prelude::*;
use vstd::utf8::{
    encode_utf8, encode_utf8_decode_utf8, encode_utf8_valid_utf8, is_ascii_chars,
    is_ascii_chars_encode_utf8,
};
use crate::names::{field_text, until_nul};
use crate::numbers::{
    dec, digit, digits_value, field_number, hex, number, pad_left, pad_right, padded_field_number,
    signed_dec,
};
use crate::search::{lemma_first_byte_found, lemma_first_byte_absent};
use crate::text::{is_space, is_trimmed, lossy, trim, trim_end, trim_start};

verus! {

/// `base` to the power of `n`.
pub open spec fn power(base: int, n: nat) -> int
    decreases n,
{
    if n == 0 {
        1
    } else {
        base * power(base, (n - 1) as nat)
    }
}

/// A digit: from `0` to `9`, then letters.
pub open spec fn numeral_digit(n: int, upper: bool) -> char {
    if n < 10 {
        ((48 + n) as u8) as char
    } else if upper {
        ((55 + n) as u8) as char
    } else {
        ((87 + n) as u8) as char
    }
}

/// A number with a fixed number of digits.
pub open spec fn numeral(n: int, radix: int, width: nat, upper: bool) -> Seq<char>
    decreases width,
{
    if width == 0 {
        Seq::empty()
    } else {
        numeral(n / radix, radix, (width - 1) as nat, upper).push(numeral_digit(n % radix, upper))
    }
}

/// The number can be written with that many digits.
pub open spec fn is_numeral(n: int, radix: int, width: nat) -> bool {
    &&& 2 <= radix <= 16
    &&& 0 < width
    &&& 0 <= n < power(radix, width)
    &&& n <= u64::MAX
}

proof fn lemma_digit(n: int, radix: int, upper: bool)
    requires
        2 <= radix <= 16,
        0 <= n < radix,
    ensures
        digit(numeral_digit(n, upper), radix) == Some(n),
        numeral_digit(n, upper) != '+',
        '\0' < numeral_digit(n, upper) <= '\u{7f}',
        !is_space(numeral_digit(n, upper)),
{
}

/// The digits of a number stand for it.
pub proof fn lemma_numeral(n: int, radix: int, width: nat, upper: bool)
    requires
        2 <= radix <= 16,
        0 <= n < power(radix, width),
    ensures
        digits_value(numeral(n, radix, width, upper), radix) == Some(n),
        numeral(n, radix, width, upper).len() == width,
        is_ascii_chars(numeral(n, radix, width, upper)),
        forall|i: int|
            0 <= i < width ==> {
                let c = #[trigger] numeral(n, radix, width, upper)[i];
                c != '+' && c != '\0' && !is_space(c)
            },
    decreases width,
{
    if width > 0 {
        let rest = (width - 1) as nat;
        let high = n / radix;
        assert(0 <= high < power(radix, rest) && n == high * radix + n % radix && 0 <= n % radix
            < radix) by (nonlinear_arith)
            requires
                radix >= 2,
                high == n / radix,
                0 <= n < radix * power(radix, rest),
        ;
        lemma_numeral(high, radix, rest, upper);
        lemma_digit(n % radix, radix, upper);
        let text = numeral(n, radix, width, upper);
        assert(text.drop_last() == numeral(high, radix, rest, upper));
    }
}

/// A field that holds the digits of a number is read as that number.
pub proof fn law_field_gives_the_number_back(n: int, radix: int, width: nat, upper: bool)
    requires
        is_numeral(n, radix, width),
    ensures
        field_number(encode_utf8(numeral(n, radix, width, upper)), radix) == Some(n),
        encode_utf8(numeral(n, radix, width, upper)).len() == width,
{
    let text = numeral(n, radix, width, upper);
    lemma_numeral(n, radix, width, upper);
    encode_utf8_valid_utf8(text);
    encode_utf8_decode_utf8(text);
    is_ascii_chars_encode_utf8(text);
    assert(text[0] != '+');
}

/// Spaces.
pub open spec fn spaces(n: nat) -> Seq<char> {
    Seq::new(n, |i: int| ' ')
}

proof fn lemma_trim_end_spaces(t: Seq<char>, n: nat)
    requires
        t.len() > 0,
        !is_space(t.last()),
    ensures
        trim_end(t + spaces(n)) == t,
    decreases n,
{
    let all = t + spaces(n);
    if n == 0 {
        assert(all == t);
    } else {
        lemma_trim_end_spaces(t, (n - 1) as nat);
        assert(all.last() == ' ');
        assert(all.drop_last() == t + spaces((n - 1) as nat));
    }
}

/// Trimming takes the spaces away at both ends of a text, and nothing else.
pub proof fn law_trim_takes_spaces_away(before: nat, t: Seq<char>, after: nat)
    requires
        t.len() > 0,
        is_trimmed(t),
    ensures
        trim(spaces(before) + t + spaces(after)) == t,
{
    let tail = t + spaces(after);
    assert(spaces(before) + t + spaces(after) == spaces(before) + tail);
    lemma_trim_start_rest(before, tail);
    lemma_trim_end_spaces(t, after);
}

proof fn lemma_trim_start_rest(n: nat, t: Seq<char>)
    requires
        t.len() > 0,
        !is_space(t.first()),
    ensures
        trim_start(spaces(n) + t) == t,
    decreases n,
{
    let all = spaces(n) + t;
    if n == 0 {
        assert(all == t);
    } else {
        lemma_trim_start_rest((n - 1) as nat, t);
        assert(all.first() == ' ');
        assert(all.drop_first() == spaces((n - 1) as nat) + t);
    }
}

/// A field with the digits of a number and spaces around them is read as that number.
pub proof fn law_padded_field_gives_the_number_back(
    n: int,
    radix: int,
    width: nat,
    upper: bool,
    before: nat,
    after: nat,
)
    requires
        is_numeral(n, radix, width),
    ensures
        ({
            let text = spaces(before) + numeral(n, radix, width, upper) + spaces(after);
            &&& padded_field_number(encode_utf8(text), radix) == Some(n)
            &&& encode_utf8(text).len() == before + width + after
        }),
{
    let digits = numeral(n, radix, width, upper);
    let text = spaces(before) + digits + spaces(after);
    lemma_numeral(n, radix, width, upper);
    assert(is_ascii_chars(text)) by {
        assert forall|i: int| 0 <= i < text.len() implies '\0' <= #[trigger] text[i] <= '\u{7f}' by {
            if before <= i < before + width {
                assert(text[i] == digits[i - before]);
            } else {
                assert(text[i] == ' ');
            }
        }
    }
    encode_utf8_valid_utf8(text);
    encode_utf8_decode_utf8(text);
    is_ascii_chars_encode_utf8(text);
    assert(digits[0] != '+');
    assert(!is_space(digits[0]) && !is_space(digits[width - 1]));
    law_trim_takes_spaces_away(before, digits, after);
}

/// `n` zero bytes.
pub open spec fn nuls(n: nat) -> Seq<u8> {
    Seq::new(n, |i: int| 0u8)
}

/// No byte is zero.
pub open spec fn is_free_of_nul(bytes: Seq<u8>) -> bool {
    forall|i: int| 0 <= i < bytes.len() ==> #[trigger] bytes[i] != 0
}

/// A name in a field of fixed length ends where the zero bytes begin that fill the
/// field up.
pub proof fn law_field_gives_the_name_back(name: Seq<u8>, fill: nat)
    requires
        is_free_of_nul(name),
    ensures
        until_nul(name + nuls(fill)) == name,
        field_text(name + nuls(fill)) == trim(lossy(name)),
{
    let field = name + nuls(fill);
    if fill == 0 {
        assert(field == name);
        lemma_first_byte_absent(field, 0, 0);
    } else {
        assert(field[name.len() as int] == 0);
        lemma_first_byte_found(field, 0, 0, name.len() as int);
        assert(field.take(name.len() as int) == name);
    }
}

/// A decimal number stands for the number that it was written for, and has no leading
/// zero.
pub proof fn law_dec_stands_for_the_number(n: nat)
    ensures
        digits_value(dec(n), 10) == Some(n as int),
        dec(n).len() > 0,
        n > 0 ==> dec(n)[0] != '0',
        n == 0 ==> dec(n) == seq!['0'],
    decreases n,
{
    if n < 10 {
        let text = dec(n);
        assert(text.drop_last() == Seq::<char>::empty());
        assert(digits_value(text.drop_last(), 10) == Some(0int));
    } else {
        law_dec_stands_for_the_number(n / 10);
        let text = dec(n);
        assert(text.drop_last() == dec(n / 10));
        assert(text[0] == dec(n / 10)[0]);
    }
}

/// A hexadecimal number stands for the number that it was written for, and has no
/// leading zero.
pub proof fn law_hex_stands_for_the_number(n: nat)
    ensures
        digits_value(hex(n), 16) == Some(n as int),
        hex(n).len() > 0,
        n > 0 ==> hex(n)[0] != '0',
        n == 0 ==> hex(n) == seq!['0'],
    decreases n,
{
    if n < 16 {
        let text = hex(n);
        assert(text.drop_last() == Seq::<char>::empty());
        assert(digits_value(text.drop_last(), 16) == Some(0int));
    } else {
        law_hex_stands_for_the_number(n / 16);
        let text = hex(n);
        assert(text.drop_last() == hex(n / 16));
        assert(text[0] == hex(n / 16)[0]);
    }
}

/// A padded text is at least as long as asked for, and holds the text with nothing but
/// the fill beside it.
pub proof fn law_padding_keeps_the_text(text: Seq<char>, width: nat, fill: char)
    ensures
        ({
            let left = pad_left(text, width, fill);
            let right = pad_right(text, width, fill);
            let len = if text.len() < width {
                width
            } else {
                text.len()
            };
            &&& left.len() == len && right.len() == len
            &&& left.skip(len - text.len()) == text
            &&& right.take(text.len() as int) == text
            &&& forall|i: int| 0 <= i < len - text.len() ==> #[trigger] left[i] == fill
            &&& forall|i: int| text.len() <= i < len ==> #[trigger] right[i] == fill
        }),
{
}

/// A number below zero has a minus in front of its digits, and only that has.
pub proof fn law_sign_of_a_number(n: nat)
    ensures
        n > 0 ==> signed_dec(-n) == seq!['-'] + dec(n),
        signed_dec(n as int) == dec(n),
{
}

} // verus!
