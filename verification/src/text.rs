//! Text: decoding bytes, trimming, comparing and building strings.
use vstd::prelude::*;
use vstd::string::*;
use vstd::utf8::{
    char_is_scalar, char_u32_cast, decode_utf8, encode_utf8, encode_utf8_decode_utf8, is_ascii_chars, valid_utf8,
};

verus! {

broadcast use crate::slices::slice_len_bound;

/// `String::push`: appends one character.
pub assume_specification[ String::push ](s: &mut String, c: char)
    ensures
        final(s)@ == old(s)@.push(c),
;

/// `std::str::from_utf8`: the text that the bytes encode, if they are valid
/// UTF-8.
#[verifier::external_body]
pub(crate) fn utf8_text(bytes: &[u8]) -> (r: Option<&str>)
    ensures
        r is Some <==> valid_utf8(bytes@),
        r matches Some(text) ==> text@ == decode_utf8(bytes@),
{
    std::str::from_utf8(bytes).ok()
}

/// What `String::from_utf8_lossy` makes of bytes that are not valid UTF-8.
pub uninterp spec fn repaired_utf8(bytes: Seq<u8>) -> Seq<char>;

/// The text that the bytes encode, with replacement characters where they are
/// not valid UTF-8.
pub open spec fn lossy(bytes: Seq<u8>) -> Seq<char> {
    if valid_utf8(bytes) {
        decode_utf8(bytes)
    } else {
        repaired_utf8(bytes)
    }
}

/// `String::from_utf8_lossy`: the text that the bytes encode if they are valid
/// UTF-8. What replaces the parts that are not depends on nothing but the bytes.
#[verifier::external_body]
pub(crate) fn lossy_text(bytes: &[u8]) -> (r: String)
    ensures
        valid_utf8(bytes@) ==> r@ == decode_utf8(bytes@),
        !valid_utf8(bytes@) ==> r@ == repaired_utf8(bytes@),
{
    String::from_utf8_lossy(bytes).into_owned()
}

/// A code unit that can only be the first of a pair.
pub open spec fn is_high_surrogate(unit: u16) -> bool {
    0xD800 <= unit <= 0xDBFF
}

/// A code unit that can only be the second of a pair.
pub open spec fn is_low_surrogate(unit: u16) -> bool {
    0xDC00 <= unit <= 0xDFFF
}

/// The character that a pair of surrogates stands for.
pub open spec fn paired(high: u16, low: u16) -> char {
    ((0x1_0000 + (high - 0xD800) * 0x400 + (low - 0xDC00)) as u32) as char
}

/// The text that the code units encode: a high surrogate with a low one behind it
/// makes one character, any other surrogate a replacement character, and any
/// other unit is a character itself.
pub open spec fn utf16_lossy(units: Seq<u16>) -> Seq<char>
    decreases units.len(),
{
    if units.len() == 0 {
        Seq::empty()
    } else if units.len() > 1 && is_high_surrogate(units[0]) && is_low_surrogate(units[1]) {
        seq![paired(units[0], units[1])] + utf16_lossy(units.skip(2))
    } else if is_high_surrogate(units[0]) || is_low_surrogate(units[0]) {
        seq!['\u{FFFD}'] + utf16_lossy(units.skip(1))
    } else {
        seq![units[0] as char] + utf16_lossy(units.skip(1))
    }
}

/// `String::from_utf16_lossy`: the text that the code units encode, with U+FFFD
/// for each surrogate that is not one of a pair.
#[verifier::external_body]
pub(crate) fn utf16_text(units: &Vec<u16>) -> (r: String)
    ensures
        r@ == utf16_lossy(units@),
{
    String::from_utf16_lossy(units)
}

/// A character in UTF-16: one code unit, or a pair of surrogates.
pub open spec fn utf16_char(c: char) -> Seq<u16> {
    let code = (c as u32) as int;
    if code < 0x1_0000 {
        seq![code as u16]
    } else {
        seq![
            (0xD800 + (code - 0x1_0000) / 0x400) as u16,
            (0xDC00 + (code - 0x1_0000) % 0x400) as u16,
        ]
    }
}

/// A text in UTF-16.
pub open spec fn utf16_units(text: Seq<char>) -> Seq<u16>
    decreases text.len(),
{
    if text.len() == 0 {
        Seq::empty()
    } else {
        utf16_char(text[0]) + utf16_units(text.skip(1))
    }
}

/// Decoding a text in UTF-16 gives the text back.
pub proof fn law_utf16_round_trip(text: Seq<char>)
    ensures
        utf16_lossy(utf16_units(text)) == text,
    decreases text.len(),
{
    if text.len() == 0 {
        assert(text == Seq::<char>::empty());
    } else {
        let units = utf16_units(text);
        let first = utf16_char(text[0]);
        let rest = utf16_units(text.skip(1));
        let code = (text[0] as u32) as int;
        char_is_scalar(text[0]);
        law_utf16_round_trip(text.skip(1));
        assert(units.skip(first.len() as int) == rest);
        assert(text == seq![text[0]] + text.skip(1));
        if code >= 0x1_0000 {
            assert(0 <= (code - 0x1_0000) / 0x400 < 0x400);
            assert(units[0] == first[0] && units[1] == first[1]);
            assert(code - 0x1_0000 == (code - 0x1_0000) / 0x400 * 0x400 + (code - 0x1_0000) % 0x400);
            assert(0x1_0000 + (units[0] - 0xD800) * 0x400 + (units[1] - 0xDC00) == code);
            char_u32_cast(text[0], code as u32);
            assert(paired(units[0], units[1]) == text[0]);
        } else {
            assert(units[0] == first[0]);
            char_u32_cast(text[0], code as u32);
            assert(units[0] as char == text[0]);
        }
    }
}

/// What `str::to_lowercase` makes of a text that is not ASCII.
pub uninterp spec fn unicode_lowercase(text: Seq<char>) -> Seq<char>;

/// An ASCII character in lower case.
pub open spec fn ascii_lower(c: char) -> char {
    if 'A' <= c <= 'Z' {
        ((c as u8 + 32) as u8) as char
    } else {
        c
    }
}

/// A text in lower case.
pub open spec fn lowercase(text: Seq<char>) -> Seq<char> {
    if is_ascii_chars(text) {
        text.map_values(|c: char| ascii_lower(c))
    } else {
        unicode_lowercase(text)
    }
}

/// `str::to_lowercase`: the text in lower case. In ASCII text each letter from
/// `A` to `Z` is lowered and the rest kept; what other text becomes depends on
/// nothing but the text.
#[verifier::external_body]
pub(crate) fn lowercase_text(text: &str) -> (r: String)
    ensures
        is_ascii_chars(text@) ==> r@ == text@.map_values(|c: char| ascii_lower(c)),
        !is_ascii_chars(text@) ==> r@ == unicode_lowercase(text@),
{
    text.to_lowercase()
}

/// The characters of a text.
pub fn chars_of(text: &str) -> (r: Vec<char>)
    ensures
        r@ == text@,
{
    broadcast use vstd::string::axiom_spec_iter;

    let mut out: Vec<char> = Vec::new();
    for c in it: text.chars()
        invariant
            it.seq() == text@,
            out@ == text@.take(it.index() as int),
    {
        out.push(c);
        assert(text@.take(it.index() + 1) == text@.take(it.index() as int).push(c));
    }
    assert(text@.take(text@.len() as int) == text@);
    out
}

/// The text made of the characters `from..to`.
pub fn text_from(chars: &Vec<char>, from: usize, to: usize) -> (r: String)
    requires
        from <= to <= chars@.len(),
    ensures
        r@ == chars@.subrange(from as int, to as int),
{
    let mut out = String::new();
    let mut i = from;
    while i < to
        invariant
            from <= i <= to <= chars@.len(),
            out@ == chars@.subrange(from as int, i as int),
        decreases to - i,
    {
        out.push(chars[i]);
        i = i + 1;
        assert(chars@.subrange(from as int, i as int) == chars@.subrange(from as int, i - 1).push(
            chars@[i - 1],
        ));
    }
    out
}

/// Whether two texts are equal.
pub fn same_text(a: &str, b: &str) -> (r: bool)
    ensures
        r == (a@ == b@),
{
    let x = a.as_bytes();
    let y = b.as_bytes();
    proof {
        encode_utf8_decode_utf8(a@);
        encode_utf8_decode_utf8(b@);
    }
    if x.len() != y.len() {
        return false;
    }
    let mut i: usize = 0;
    while i < x.len()
        invariant
            i <= x@.len() == y@.len(),
            x@ == encode_utf8(a@),
            y@ == encode_utf8(b@),
            forall|j: int| 0 <= j < i ==> x@[j] == y@[j],
        decreases x@.len() - i,
    {
        if x[i] != y[i] {
            return false;
        }
        i = i + 1;
    }
    assert(x@ == y@);
    true
}

/// The characters that Unicode counts as white space.
pub open spec fn is_space(c: char) -> bool {
    ||| 0x09 <= c as u32 <= 0x0D
    ||| c as u32 == 0x20
    ||| c as u32 == 0x85
    ||| c as u32 == 0xA0
    ||| c as u32 == 0x1680
    ||| 0x2000 <= c as u32 <= 0x200A
    ||| c as u32 == 0x2028
    ||| c as u32 == 0x2029
    ||| c as u32 == 0x202F
    ||| c as u32 == 0x205F
    ||| c as u32 == 0x3000
}

/// Whether a character is white space.
pub fn is_white_space(c: char) -> (r: bool)
    ensures
        r == is_space(c),
{
    let n = c as u32;
    (0x09 <= n && n <= 0x0D) || n == 0x20 || n == 0x85 || n == 0xA0 || n == 0x1680 || (0x2000 <= n && n
        <= 0x200A) || n == 0x2028 || n == 0x2029 || n == 0x202F || n == 0x205F || n == 0x3000
}

/// A text without the white space at its start.
pub open spec fn trim_start(t: Seq<char>) -> Seq<char>
    decreases t.len(),
{
    if t.len() > 0 && is_space(t.first()) {
        trim_start(t.drop_first())
    } else {
        t
    }
}

/// A text without the white space at its end.
pub open spec fn trim_end(t: Seq<char>) -> Seq<char>
    decreases t.len(),
{
    if t.len() > 0 && is_space(t.last()) {
        trim_end(t.drop_last())
    } else {
        t
    }
}

/// A text without the white space at either end.
pub open spec fn trim(t: Seq<char>) -> Seq<char> {
    trim_end(trim_start(t))
}

/// A text without white space at either end is empty, or begins and ends with
/// something else.
pub open spec fn is_trimmed(t: Seq<char>) -> bool {
    t.len() > 0 ==> !is_space(t.first()) && !is_space(t.last())
}

proof fn lemma_trim_end(t: Seq<char>)
    ensures
        trim_end(t).len() > 0 ==> !is_space(trim_end(t).last()) && trim_end(t).first() == t.first(),
    decreases t.len(),
{
    if t.len() > 0 && is_space(t.last()) {
        lemma_trim_end(t.drop_last());
    }
}

proof fn lemma_trim_start(t: Seq<char>)
    ensures
        trim_start(t).len() > 0 ==> !is_space(trim_start(t).first()),
    decreases t.len(),
{
    if t.len() > 0 && is_space(t.first()) {
        lemma_trim_start(t.drop_first());
    }
}

/// Trimming leaves no white space at either end.
pub proof fn law_trim_trims(t: Seq<char>)
    ensures
        is_trimmed(trim(t)),
{
    lemma_trim_start(t);
    lemma_trim_end(trim_start(t));
}

/// The range of a text that is left once the white space at either end is gone.
pub fn trim_range(chars: &Vec<char>) -> (r: (usize, usize))
    ensures
        r.0 <= r.1 <= chars@.len(),
        chars@.subrange(r.0 as int, r.1 as int) == trim(chars@),
{
    let n = chars.len();
    let mut from: usize = 0;
    assert(chars@.subrange(0, n as int) == chars@);
    while from < n && is_white_space(chars[from])
        invariant
            from <= n == chars@.len(),
            trim_start(chars@) == trim_start(chars@.subrange(from as int, n as int)),
        decreases n - from,
    {
        assert(chars@.subrange(from as int, n as int).drop_first() == chars@.subrange(
            from + 1,
            n as int,
        ));
        from = from + 1;
    }
    let mut to: usize = n;
    while to > from && is_white_space(chars[to - 1])
        invariant
            from <= to <= n == chars@.len(),
            trim(chars@) == trim_end(chars@.subrange(from as int, to as int)),
        decreases to,
    {
        assert(chars@.subrange(from as int, to as int).drop_last() == chars@.subrange(
            from as int,
            to - 1,
        ));
        to = to - 1;
    }
    (from, to)
}

/// A text without the white space at either end.
pub fn trimmed(text: &str) -> (r: String)
    ensures
        r@ == trim(text@),
{
    let chars = chars_of(text);
    let (from, to) = trim_range(&chars);
    text_from(&chars, from, to)
}

/// The offset of the first `c` in `t` from `from` on, or the length of `t`.
pub open spec fn find_char(t: Seq<char>, c: char, from: int) -> int
    decreases t.len() - from,
{
    if from < 0 || from >= t.len() {
        t.len() as int
    } else if t[from] == c {
        from
    } else {
        find_char(t, c, from + 1)
    }
}

/// The offset of the last `c` among the first `n` characters of `t`.
pub open spec fn rfind_char(t: Seq<char>, c: char, n: int) -> Option<int>
    decreases n,
{
    if n <= 0 {
        None
    } else if t[n - 1] == c {
        Some(n - 1)
    } else {
        rfind_char(t, c, n - 1)
    }
}

/// A text up to the first `c`, or all of it.
pub open spec fn before_first(t: Seq<char>, c: char) -> Seq<char> {
    t.take(find_char(t, c, 0))
}

/// A text up to the last `c`, or all of it.
pub open spec fn before_last(t: Seq<char>, c: char) -> Seq<char> {
    match rfind_char(t, c, t.len() as int) {
        Some(i) => t.take(i),
        None => t,
    }
}

/// A text without the `c` at its end.
pub open spec fn trim_end_of(t: Seq<char>, c: char) -> Seq<char>
    decreases t.len(),
{
    if t.len() > 0 && t.last() == c {
        trim_end_of(t.drop_last(), c)
    } else {
        t
    }
}

/// The part of a text before the first `c`.
pub fn text_before_first(text: &str, c: char) -> (r: String)
    ensures
        r@ == before_first(text@, c),
{
    let chars = chars_of(text);
    let mut i: usize = 0;
    while i < chars.len() && chars[i] != c
        invariant
            i <= chars@.len(),
            find_char(chars@, c, 0) == find_char(chars@, c, i as int),
        decreases chars@.len() - i,
    {
        i = i + 1;
    }
    text_from(&chars, 0, i)
}

/// The part of a text before the last `c`.
pub fn text_before_last(text: String, c: char) -> (r: String)
    ensures
        r@ == before_last(text@, c),
{
    let chars = chars_of(text.as_str());
    let mut n = chars.len();
    while n > 0
        invariant
            chars@ == text@,
            n <= chars@.len(),
            rfind_char(chars@, c, chars@.len() as int) == rfind_char(chars@, c, n as int),
        decreases n,
    {
        if chars[n - 1] == c {
            return text_from(&chars, 0, n - 1);
        }
        n = n - 1;
    }
    text
}

/// A text without the `c` at its end.
pub fn text_trim_end_of(text: &str, c: char) -> (r: String)
    ensures
        r@ == trim_end_of(text@, c),
{
    let chars = chars_of(text);
    let mut n = chars.len();
    assert(chars@.take(n as int) == chars@);
    while n > 0 && chars[n - 1] == c
        invariant
            n <= chars@.len(),
            trim_end_of(text@, c) == trim_end_of(chars@.take(n as int), c),
        decreases n,
    {
        assert(chars@.take(n as int).drop_last() == chars@.take(n - 1));
        n = n - 1;
    }
    text_from(&chars, 0, n)
}

} // verus!
