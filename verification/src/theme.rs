//! Colour themes of the browser.
use vstd::prelude::*;
use vstd::string::*;
use crate::text::same_text;

verus! {

/// A terminal colour.
#[derive(Clone, Copy, Debug, PartialEq, Eq, Structural)]
pub enum Color {
    Black,
    Red,
    LightRed,
    Green,
    Yellow,
    Blue,
    Cyan,
    White,
    Gray,
    DarkGray,
}

/// How text looks: its colours, where they differ from those of the terminal,
/// and its emphasis.
#[derive(Clone, Copy)]
pub struct Style {
    pub fg: Option<Color>,
    pub bg: Option<Color>,
    pub bold: bool,
    pub reversed: bool,
    pub underlined: bool,
}

/// The looks of all parts of the screen.
#[derive(Clone, Copy)]
pub struct Theme {
    /// The colour behind everything; `None` leaves that of the terminal.
    pub background: Option<Color>,
    pub text: Style,
    pub border: Style,
    pub border_focused: Style,
    pub selection: Style,
    pub high_entropy: Style,
    pub status_bar: Style,
}

/// A theme.
#[derive(Clone, Copy, Debug, PartialEq, Eq, Structural)]
pub enum ThemeKind {
    Standard,
    MidnightCommander,
    Dark,
    Monochrome,
}

/// How many themes there are.
pub const THEME_COUNT: usize = 4;

/// The looks of the terminal, unchanged.
pub open spec fn plain_style() -> Style {
    Style { fg: None, bg: None, bold: false, reversed: false, underlined: false }
}

/// Text in that colour.
pub open spec fn colored(fg: Color) -> Style {
    Style { fg: Some(fg), ..plain_style() }
}

/// Text in that colour before another.
pub open spec fn colored_on(fg: Color, bg: Color) -> Style {
    Style { fg: Some(fg), bg: Some(bg), ..plain_style() }
}

fn plain() -> (r: Style)
    ensures
        r == plain_style(),
{
    Style { fg: None, bg: None, bold: false, reversed: false, underlined: false }
}

fn fg_style(fg: Color) -> (r: Style)
    ensures
        r == colored(fg),
{
    Style { fg: Some(fg), bg: None, bold: false, reversed: false, underlined: false }
}

fn pair_style(fg: Color, bg: Color) -> (r: Style)
    ensures
        r == colored_on(fg, bg),
{
    Style { fg: Some(fg), bg: Some(bg), bold: false, reversed: false, underlined: false }
}

impl Default for ThemeKind {
    fn default() -> (r: ThemeKind)
        ensures
            r == ThemeKind::Standard,
    {
        ThemeKind::Standard
    }
}

impl ThemeKind {
    /// The themes in the order of the menu.
    pub open spec fn at(i: int) -> ThemeKind {
        if i <= 0 {
            ThemeKind::Standard
        } else if i == 1 {
            ThemeKind::MidnightCommander
        } else if i == 2 {
            ThemeKind::Dark
        } else {
            ThemeKind::Monochrome
        }
    }

    /// The theme at that place of the menu.
    pub fn nth(i: usize) -> (r: ThemeKind)
        ensures
            r == ThemeKind::at(i as int),
    {
        match i {
            0 => ThemeKind::Standard,
            1 => ThemeKind::MidnightCommander,
            2 => ThemeKind::Dark,
            _ => ThemeKind::Monochrome,
        }
    }

    /// The place of the theme in the menu.
    pub open spec fn index_spec(self) -> int {
        match self {
            ThemeKind::Standard => 0,
            ThemeKind::MidnightCommander => 1,
            ThemeKind::Dark => 2,
            ThemeKind::Monochrome => 3,
        }
    }

    /// The place of the theme in the menu.
    pub fn index(self) -> (r: usize)
        ensures
            r == self.index_spec(),
            r < THEME_COUNT,
    {
        match self {
            ThemeKind::Standard => 0,
            ThemeKind::MidnightCommander => 1,
            ThemeKind::Dark => 2,
            ThemeKind::Monochrome => 3,
        }
    }

    /// The name of the theme in the menu.
    pub open spec fn label_text(self) -> Seq<char> {
        match self {
            ThemeKind::Standard => "Типова (як було)"@,
            ThemeKind::MidnightCommander => "Midnight Commander"@,
            ThemeKind::Dark => "Темна"@,
            ThemeKind::Monochrome => "Монохромна"@,
        }
    }

    /// The name of the theme in the menu.
    pub fn label(self) -> (r: &'static str)
        ensures
            r@ == self.label_text(),
    {
        match self {
            ThemeKind::Standard => "Типова (як було)",
            ThemeKind::MidnightCommander => "Midnight Commander",
            ThemeKind::Dark => "Темна",
            ThemeKind::Monochrome => "Монохромна",
        }
    }

    /// The key under which the theme is kept in the settings.
    pub open spec fn key_text(self) -> Seq<char> {
        match self {
            ThemeKind::Standard => "standard"@,
            ThemeKind::MidnightCommander => "midnight_commander"@,
            ThemeKind::Dark => "dark"@,
            ThemeKind::Monochrome => "monochrome"@,
        }
    }

    /// The key under which the theme is kept in the settings.
    pub fn config_key(self) -> (r: &'static str)
        ensures
            r@ == self.key_text(),
    {
        match self {
            ThemeKind::Standard => "standard",
            ThemeKind::MidnightCommander => "midnight_commander",
            ThemeKind::Dark => "dark",
            ThemeKind::Monochrome => "monochrome",
        }
    }

    /// The theme with that key.
    pub open spec fn of_key(key: Seq<char>) -> Option<ThemeKind> {
        if key == ThemeKind::Standard.key_text() {
            Some(ThemeKind::Standard)
        } else if key == ThemeKind::MidnightCommander.key_text() {
            Some(ThemeKind::MidnightCommander)
        } else if key == ThemeKind::Dark.key_text() {
            Some(ThemeKind::Dark)
        } else if key == ThemeKind::Monochrome.key_text() {
            Some(ThemeKind::Monochrome)
        } else {
            None
        }
    }

    /// The theme with that key.
    pub fn from_config_key(key: &str) -> (r: Option<ThemeKind>)
        ensures
            r == ThemeKind::of_key(key@),
    {
        if same_text(key, "standard") {
            Some(ThemeKind::Standard)
        } else if same_text(key, "midnight_commander") {
            Some(ThemeKind::MidnightCommander)
        } else if same_text(key, "dark") {
            Some(ThemeKind::Dark)
        } else if same_text(key, "monochrome") {
            Some(ThemeKind::Monochrome)
        } else {
            None
        }
    }

    /// The looks of the theme.
    pub open spec fn theme(self) -> Theme {
        match self {
            ThemeKind::Standard => Theme {
                background: None,
                text: plain_style(),
                border: plain_style(),
                border_focused: colored(Color::Cyan),
                selection: Style { reversed: true, ..plain_style() },
                high_entropy: colored(Color::Red),
                status_bar: plain_style(),
            },
            ThemeKind::MidnightCommander => Theme {
                background: Some(Color::Blue),
                text: colored_on(Color::White, Color::Blue),
                border: colored_on(Color::White, Color::Blue),
                border_focused: Style { bold: true, ..colored_on(Color::Yellow, Color::Blue) },
                selection: colored_on(Color::Black, Color::Cyan),
                high_entropy: colored_on(Color::LightRed, Color::Blue),
                status_bar: colored_on(Color::Black, Color::Cyan),
            },
            ThemeKind::Dark => Theme {
                background: Some(Color::Black),
                text: colored_on(Color::Gray, Color::Black),
                border: colored_on(Color::DarkGray, Color::Black),
                border_focused: colored_on(Color::Green, Color::Black),
                selection: colored_on(Color::Black, Color::Green),
                high_entropy: colored_on(Color::LightRed, Color::Black),
                status_bar: colored_on(Color::Gray, Color::Black),
            },
            ThemeKind::Monochrome => Theme {
                background: None,
                text: plain_style(),
                border: plain_style(),
                border_focused: Style { bold: true, ..plain_style() },
                selection: Style { reversed: true, ..plain_style() },
                high_entropy: Style { underlined: true, ..plain_style() },
                status_bar: plain_style(),
            },
        }
    }

    /// The looks of the theme.
    pub fn palette(self) -> (r: Theme)
        ensures
            r == self.theme(),
    {
        let mut bold = plain();
        bold.bold = true;
        let mut reversed = plain();
        reversed.reversed = true;
        let mut underlined = plain();
        underlined.underlined = true;
        match self {
            ThemeKind::Standard => Theme {
                background: None,
                text: plain(),
                border: plain(),
                border_focused: fg_style(Color::Cyan),
                selection: reversed,
                high_entropy: fg_style(Color::Red),
                status_bar: plain(),
            },
            ThemeKind::MidnightCommander => {
                let mut focused = pair_style(Color::Yellow, Color::Blue);
                focused.bold = true;
                Theme {
                    background: Some(Color::Blue),
                    text: pair_style(Color::White, Color::Blue),
                    border: pair_style(Color::White, Color::Blue),
                    border_focused: focused,
                    selection: pair_style(Color::Black, Color::Cyan),
                    high_entropy: pair_style(Color::LightRed, Color::Blue),
                    status_bar: pair_style(Color::Black, Color::Cyan),
                }
            },
            ThemeKind::Dark => Theme {
                background: Some(Color::Black),
                text: pair_style(Color::Gray, Color::Black),
                border: pair_style(Color::DarkGray, Color::Black),
                border_focused: pair_style(Color::Green, Color::Black),
                selection: pair_style(Color::Black, Color::Green),
                high_entropy: pair_style(Color::LightRed, Color::Black),
                status_bar: pair_style(Color::Gray, Color::Black),
            },
            ThemeKind::Monochrome => Theme {
                background: None,
                text: plain(),
                border: plain(),
                border_focused: bold,
                selection: reversed,
                high_entropy: underlined,
                status_bar: plain(),
            },
        }
    }
}

/// The key of a theme leads back to the theme: what is kept in the settings is
/// found again.
pub proof fn law_theme_key_round_trip(kind: ThemeKind)
    ensures
        ThemeKind::of_key(kind.key_text()) == Some(kind),
{
    reveal_strlit("standard");
    reveal_strlit("midnight_commander");
    reveal_strlit("dark");
    reveal_strlit("monochrome");
    assert("standard"@.len() == 8);
    assert("midnight_commander"@.len() == 18);
    assert("dark"@.len() == 4);
    assert("monochrome"@.len() == 10);
}

/// The menu lists each theme in its place.
pub proof fn law_theme_menu_lists_all(kind: ThemeKind)
    ensures
        0 <= kind.index_spec() < THEME_COUNT,
        ThemeKind::at(kind.index_spec()) == kind,
{
}

} // verus!
