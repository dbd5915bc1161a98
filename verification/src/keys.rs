//! Keys of the browser.
use vstd::prelude::*;

verus! {

/// A key that was pressed.
#[derive(Clone, Copy, Debug, PartialEq, Eq, Structural)]
pub enum Key {
    Esc,
    Enter,
    Tab,
    Backspace,
    Up,
    Down,
    PageUp,
    PageDown,
    Char(char),
    /// A key without a meaning here.
    Other,
}

/// The Latin letter on the key that gives `c` in the Ukrainian layout; other
/// characters stand for themselves.
pub open spec fn latin_of(c: char) -> char {
    match c {
        'й' => 'q',
        'ц' => 'w',
        'у' => 'e',
        'к' => 'r',
        'е' => 't',
        'н' => 'y',
        'г' => 'u',
        'ш' => 'i',
        'щ' => 'o',
        'з' => 'p',
        'ф' => 'a',
        'і' => 's',
        'в' => 'd',
        'а' => 'f',
        'п' => 'g',
        'р' => 'h',
        'о' => 'j',
        'л' => 'k',
        'д' => 'l',
        'я' => 'z',
        'ч' => 'x',
        'с' => 'c',
        'м' => 'v',
        'и' => 'b',
        'т' => 'n',
        'ь' => 'm',
        other => other,
    }
}

/// The key as it is in the Latin layout.
pub open spec fn normalized(key: Key) -> Key {
    match key {
        Key::Char(c) => Key::Char(latin_of(c)),
        other => other,
    }
}

/// The Latin letter on the key that gives `c` in the Ukrainian layout.
pub fn normalize_ukrainian_layout_char(c: char) -> (r: char)
    ensures
        r == latin_of(c),
{
    match c {
        'й' => 'q',
        'ц' => 'w',
        'у' => 'e',
        'к' => 'r',
        'е' => 't',
        'н' => 'y',
        'г' => 'u',
        'ш' => 'i',
        'щ' => 'o',
        'з' => 'p',
        'ф' => 'a',
        'і' => 's',
        'в' => 'd',
        'а' => 'f',
        'п' => 'g',
        'р' => 'h',
        'о' => 'j',
        'л' => 'k',
        'д' => 'l',
        'я' => 'z',
        'ч' => 'x',
        'с' => 'c',
        'м' => 'v',
        'и' => 'b',
        'т' => 'n',
        'ь' => 'm',
        other => other,
    }
}

/// The key as it is in the Latin layout, whatever the layout is.
pub fn normalize_key_code(code: Key) -> (r: Key)
    ensures
        r == normalized(code),
{
    match code {
        Key::Char(c) => Key::Char(normalize_ukrainian_layout_char(c)),
        other => other,
    }
}

/// A key that has been normalized stays as it is, and so does one that is an
/// ASCII character or no character at all.
pub proof fn law_normalized_stays(key: Key)
    ensures
        normalized(normalized(key)) == normalized(key),
        key matches Key::Char(c) && (c as u32) < 0x80 ==> normalized(key) == key,
        !(key is Char) ==> normalized(key) == key,
{
}

} // verus!
