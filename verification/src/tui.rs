//! The state of the browser and how keys change it.
use vstd::prelude::*;
use vstd::string::*;
use vstd::utf8::{encode_utf8, encode_utf8_decode_utf8};
use crate::entropy::EntropyBlock;
use crate::keys::{normalize_key_code, normalized, Key};
use crate::lines::{no_texts, texts_of};
use crate::names::name_of;
use crate::numbers::{dec, dec_text, number, parse_number};
use crate::scanner::{findings_view, Finding, FindingModel};
use crate::signature::{bytes_le, lemma_lex_total, lemma_lex_transitive, lex_le, text_le};
use crate::text::{chars_of, same_text, text_from};
use crate::theme::{Theme, ThemeKind, THEME_COUNT};
use crate::views::{count_rows, fragment, fragment_of, rows_of};

verus! {

broadcast use crate::slices::slice_len_bound;

/// The side that the arrow keys act on.
#[derive(Clone, Copy, Debug, PartialEq, Eq, Structural)]
pub enum Focus {
    List,
    Hex,
}

/// What is open above the panels.
pub enum Menu {
    /// The choice of a format to show.
    Format { cursor: usize },
    /// The choice of a least confidence.
    Confidence { cursor: usize },
    /// The input of a least confidence.
    ConfidenceInput { buffer: String },
    /// The help on all formats.
    FormatsHelp { scroll: u16 },
    /// The choice of a theme.
    Theme { cursor: usize },
    /// The help on the program.
    AppHelp { scroll: u16 },
}

/// The mathematical content of a [`Menu`].
pub ghost enum MenuModel {
    Format { cursor: usize },
    Confidence { cursor: usize },
    ConfidenceInput { buffer: Seq<char> },
    FormatsHelp { scroll: u16 },
    Theme { cursor: usize },
    AppHelp { scroll: u16 },
}

impl View for Menu {
    type V = MenuModel;

    open spec fn view(&self) -> MenuModel {
        match *self {
            Menu::Format { cursor } => MenuModel::Format { cursor },
            Menu::Confidence { cursor } => MenuModel::Confidence { cursor },
            Menu::ConfidenceInput { buffer } => MenuModel::ConfidenceInput { buffer: buffer@ },
            Menu::FormatsHelp { scroll } => MenuModel::FormatsHelp { scroll },
            Menu::Theme { cursor } => MenuModel::Theme { cursor },
            Menu::AppHelp { scroll } => MenuModel::AppHelp { scroll },
        }
    }
}

/// The content of an optional menu.
pub open spec fn menu_view(menu: Option<Menu>) -> Option<MenuModel> {
    match menu {
        Some(m) => Some(m@),
        None => None,
    }
}

/// How many choices the menu of confidences has: three levels, an input, and the
/// level of the scan.
pub const CONFIDENCE_MENU_LEN: usize = 5;

/// What is left to do outside once a key has been handled.
#[derive(Clone, Copy, Debug, PartialEq, Eq, Structural)]
pub enum Action {
    Nothing,
    Quit,
    /// Write the selected finding to a file.
    Extract,
    /// Measure the entropy if it is not shown, and toggle it.
    ToggleEntropy,
    /// Keep the theme in the settings.
    SaveTheme,
}

/// The state of the browser.
pub struct App<'a> {
    pub data: &'a [u8],
    pub findings: Vec<Finding>,
    /// The indices of the findings that pass the filters.
    pub filtered: Vec<usize>,
    /// The formats that were found, in order, each once.
    pub available_formats: Vec<String>,
    pub format_filter: Option<String>,
    pub confidence_filter: u8,
    /// The least confidence of the scan, below which there are no findings.
    pub initial_min_confidence: u8,
    pub theme: ThemeKind,
    pub menu: Option<Menu>,
    /// The selected row of the filtered list.
    pub selected_row: Option<usize>,
    pub focus: Focus,
    /// The first row that the panel of the finding shows.
    pub hex_scroll: usize,
    /// The entropy of the data, while it is shown.
    pub entropy_blocks: Option<Vec<EntropyBlock>>,
    pub status: String,
}

/// The mathematical content of an [`App`].
pub ghost struct AppModel {
    pub data: Seq<u8>,
    pub findings: Seq<FindingModel>,
    pub filtered: Seq<usize>,
    pub available_formats: Seq<Seq<char>>,
    pub format_filter: Option<Seq<char>>,
    pub confidence_filter: u8,
    pub initial_min_confidence: u8,
    pub theme: ThemeKind,
    pub menu: Option<MenuModel>,
    pub selected_row: Option<usize>,
    pub focus: Focus,
    pub hex_scroll: usize,
    pub entropy_blocks: Option<Seq<EntropyBlock>>,
    pub status: Seq<char>,
}

/// The content of an optional list of blocks.
pub open spec fn blocks_view(blocks: Option<Vec<EntropyBlock>>) -> Option<Seq<EntropyBlock>> {
    match blocks {
        Some(b) => Some(b@),
        None => None,
    }
}

impl<'a> View for App<'a> {
    type V = AppModel;

    open spec fn view(&self) -> AppModel {
        AppModel {
            data: self.data@,
            findings: findings_view(self.findings@),
            filtered: self.filtered@,
            available_formats: texts_of(self.available_formats@),
            format_filter: name_of(self.format_filter),
            confidence_filter: self.confidence_filter,
            initial_min_confidence: self.initial_min_confidence,
            theme: self.theme,
            menu: menu_view(self.menu),
            selected_row: self.selected_row,
            focus: self.focus,
            hex_scroll: self.hex_scroll,
            entropy_blocks: blocks_view(self.entropy_blocks),
            status: self.status@,
        }
    }
}

/// The finding passes the filters.
pub open spec fn passes(f: FindingModel, format: Option<Seq<char>>, min_confidence: u8) -> bool {
    &&& f.confidence >= min_confidence
    &&& format matches Some(name) ==> f.format == name
}

/// The indices among the first `n` findings that pass the filters.
pub open spec fn passing(
    findings: Seq<FindingModel>,
    format: Option<Seq<char>>,
    min_confidence: u8,
    n: int,
) -> Seq<usize>
    decreases n,
{
    if n <= 0 {
        Seq::empty()
    } else if passes(findings[n - 1], format, min_confidence) {
        passing(findings, format, min_confidence, n - 1).push((n - 1) as usize)
    } else {
        passing(findings, format, min_confidence, n - 1)
    }
}

/// The row that is selected in a list of that length: the same as before, as far
/// as the list goes.
pub open spec fn kept_row(row: Option<usize>, len: int) -> Option<usize> {
    let current = match row {
        Some(i) => i as int,
        None => 0,
    };
    if len <= 0 {
        None
    } else if current < len {
        Some(current as usize)
    } else {
        Some((len - 1) as usize)
    }
}

/// The hints on the keys, which the status line shows.
pub open spec fn default_status_text() -> Seq<char> {
    "↑/↓ — навігація  Tab — фокус  f — формат  c — мін.%  r — скинути фільтри  e — ентропія  x — екстракція  t — тема  ? — усі формати  h — про програму  q — вихід"@
}

/// The hints on the keys, which the status line shows.
pub fn default_status() -> (r: String)
    ensures
        r@ == default_status_text(),
{
    "↑/↓ — навігація  Tab — фокус  f — формат  c — мін.%  r — скинути фільтри  e — ентропія  x — екстракція  t — тема  ? — усі формати  h — про програму  q — вихід".to_owned()
}

/// The place of a text in a list, from index `i` on.
pub open spec fn place_of(list: Seq<Seq<char>>, text: Seq<char>, i: int) -> Option<int>
    decreases list.len() - i,
{
    if i < 0 || i >= list.len() {
        None
    } else if list[i] == text {
        Some(i)
    } else {
        place_of(list, text, i + 1)
    }
}

impl AppModel {
    /// The list follows the filters, and a row is selected exactly if there is
    /// one.
    pub open spec fn list_wf(self) -> bool {
        &&& self.findings.len() <= usize::MAX
        &&& self.filtered == passing(
            self.findings,
            self.format_filter,
            self.confidence_filter,
            self.findings.len() as int,
        )
        &&& match self.selected_row {
            Some(row) => row < self.filtered.len(),
            None => self.filtered.len() == 0,
        }
    }

    /// The cursor of the open menu is on one of its choices, and an input has at
    /// most three digits.
    pub open spec fn menu_wf(self) -> bool {
        match self.menu {
            Some(MenuModel::Format { cursor }) => cursor <= self.available_formats.len(),
            Some(MenuModel::Confidence { cursor }) => cursor < CONFIDENCE_MENU_LEN,
            Some(MenuModel::ConfidenceInput { buffer }) => buffer.len() <= 3 && forall|i: int|
                0 <= i < buffer.len() ==> '0' <= #[trigger] buffer[i] <= '9',
            Some(MenuModel::Theme { cursor }) => cursor < THEME_COUNT,
            _ => true,
        }
    }

    /// The formats are in strictly ascending order, and they are those of the
    /// findings.
    pub open spec fn formats_wf(self) -> bool {
        &&& self.available_formats.len() < usize::MAX
        &&& ascending(self.available_formats)
        &&& forall|text: Seq<char>|
            #[trigger] self.available_formats.contains(text) <==> exists|i: int|
                0 <= i < self.findings.len() && (#[trigger] self.findings[i]).format == text
    }

    /// The list, the menu and the formats are in order.
    pub open spec fn wf(self) -> bool {
        self.list_wf() && self.menu_wf() && self.formats_wf()
    }

    /// The list once the filters have changed; the panel is back at its top.
    pub open spec fn refiltered(self) -> AppModel {
        let filtered = passing(
            self.findings,
            self.format_filter,
            self.confidence_filter,
            self.findings.len() as int,
        );
        AppModel {
            filtered,
            selected_row: kept_row(self.selected_row, filtered.len() as int),
            hex_scroll: 0,
            ..self
        }
    }

    /// The menu of formats, on the one that is shown.
    pub open spec fn with_format_menu(self) -> AppModel {
        let cursor = match self.format_filter {
            None => 0,
            Some(format) => match place_of(self.available_formats, format, 0) {
                Some(i) => i + 1,
                None => 0,
            },
        };
        AppModel { menu: Some(MenuModel::Format { cursor: cursor as usize }), ..self }
    }

    /// The least confidence set to `value`, and the menu closed.
    pub open spec fn with_confidence(self, value: u8) -> AppModel {
        AppModel {
            confidence_filter: value,
            menu: None,
            status: "Мінімальна впевненість: "@ + dec(value as nat) + "%"@,
            ..self
        }.refiltered()
    }

    /// All findings of the scan shown again.
    pub open spec fn with_filters_reset(self) -> AppModel {
        AppModel {
            format_filter: None,
            confidence_filter: self.initial_min_confidence,
            status: "Фільтри скинуто"@,
            ..self
        }.refiltered()
    }

    /// Only the format under that cursor of the menu shown; 0 stands for all.
    pub open spec fn with_format(self, cursor: int) -> AppModel {
        let format = if cursor <= 0 {
            None
        } else {
            Some(self.available_formats[cursor - 1])
        };
        AppModel {
            format_filter: format,
            menu: None,
            status: "Фільтр формату: "@ + match format {
                Some(name) => name,
                None => "усі"@,
            },
            ..self
        }.refiltered()
    }

    /// Another theme, and the menu closed.
    pub open spec fn with_theme(self, theme: ThemeKind) -> AppModel {
        AppModel { theme, menu: None, status: "Тема: "@ + theme.label_text(), ..self }
    }

    /// The finding in the selected row.
    pub open spec fn selected(self) -> Option<FindingModel> {
        match self.selected_row {
            Some(row) => if row < self.filtered.len() && self.filtered[row as int] < self.findings.len() {
                Some(self.findings[self.filtered[row as int] as int])
            } else {
                None
            },
            None => None,
        }
    }

    /// The selection moved by `delta` rows, as far as the list goes.
    pub open spec fn with_selection_moved(self, delta: int) -> AppModel {
        if self.filtered.len() == 0 {
            self
        } else {
            let current = match self.selected_row {
                Some(row) => row as int,
                None => 0,
            };
            AppModel {
                selected_row: Some(
                    clamped(current + delta, self.filtered.len() - 1) as usize,
                ),
                hex_scroll: 0,
                ..self
            }
        }
    }

    /// The panel of the finding moved by `delta` rows, as far as it goes.
    pub open spec fn with_panel_scrolled(self, delta: int) -> AppModel {
        match self.selected() {
            Some(finding) => match fragment_of(self.data, finding) {
                Some(bytes) => {
                    let rows = rows_of(finding, bytes);
                    AppModel {
                        hex_scroll: clamped(
                            self.hex_scroll + delta,
                            if rows > 0 {
                                rows - 1
                            } else {
                                0
                            },
                        ) as usize,
                        ..self
                    }
                },
                None => self,
            },
            None => self,
        }
    }
}

/// `n`, but not below 0 or above `max`.
pub open spec fn clamped(n: int, max: int) -> int {
    if n < 0 {
        0
    } else if n > max {
        max
    } else {
        n
    }
}

/// The texts are in strictly ascending order.
pub open spec fn ascending(list: Seq<Seq<char>>) -> bool {
    forall|i: int, j: int|
        0 <= i < j < list.len() ==> text_le(#[trigger] list[i], #[trigger] list[j]) && list[i] != list[j]
}

/// `cursor` one row up.
pub open spec fn row_up(cursor: usize) -> usize {
    if cursor > 0 {
        (cursor - 1) as usize
    } else {
        0
    }
}

/// `cursor` one row down in a menu of that length.
pub open spec fn row_down(cursor: usize, len: int) -> usize {
    if cursor + 1 < len {
        (cursor + 1) as usize
    } else {
        (len - 1) as usize
    }
}

/// `scroll` moved by `delta` lines, as far as it goes.
pub open spec fn scrolled(scroll: u16, delta: int) -> u16 {
    clamped(scroll + delta, u16::MAX as int) as u16
}

/// Where a key moves a help text: to another line, or away.
pub open spec fn help_scroll(scroll: u16, key: Key, closing: char) -> Option<u16> {
    match key {
        Key::Esc | Key::Enter => None,
        Key::Up => Some(scrolled(scroll, -1)),
        Key::Down => Some(scrolled(scroll, 1)),
        Key::PageUp => Some(scrolled(scroll, -10)),
        Key::PageDown => Some(scrolled(scroll, 10)),
        Key::Char(c) => if c == 'q' || c == closing {
            None
        } else if c == 'k' {
            Some(scrolled(scroll, -1))
        } else if c == 'j' {
            Some(scrolled(scroll, 1))
        } else {
            Some(scroll)
        },
        _ => Some(scroll),
    }
}

/// What a key does in a menu with a cursor.
pub ghost enum Choice {
    /// The menu is closed.
    Close,
    /// The cursor is there.
    Stay(usize),
    /// The row under the cursor is chosen.
    Take,
}

/// What a key does in a menu of that length.
pub open spec fn choice(cursor: usize, key: Key, len: int) -> Choice {
    match key {
        Key::Esc => Choice::Close,
        Key::Enter => Choice::Take,
        Key::Up => Choice::Stay(row_up(cursor)),
        Key::Down => Choice::Stay(row_down(cursor, len)),
        Key::Char(c) => if c == 'k' {
            Choice::Stay(row_up(cursor))
        } else if c == 'j' {
            Choice::Stay(row_down(cursor, len))
        } else {
            Choice::Stay(cursor)
        },
        _ => Choice::Stay(cursor),
    }
}

impl AppModel {
    /// The state with that menu.
    pub open spec fn with_menu(self, menu: Option<MenuModel>) -> AppModel {
        AppModel { menu, ..self }
    }

    /// A key in the menu of formats.
    pub open spec fn format_menu_key(self, cursor: usize, key: Key) -> AppModel {
        match choice(cursor, key, self.available_formats.len() as int + 1) {
            Choice::Close => self.with_menu(None),
            Choice::Stay(at) => self.with_menu(Some(MenuModel::Format { cursor: at })),
            Choice::Take => self.with_format(cursor as int),
        }
    }

    /// A key in the menu of confidences.
    pub open spec fn confidence_menu_key(self, cursor: usize, key: Key) -> AppModel {
        match choice(cursor, key, CONFIDENCE_MENU_LEN as int) {
            Choice::Close => self.with_menu(None),
            Choice::Stay(at) => self.with_menu(Some(MenuModel::Confidence { cursor: at })),
            Choice::Take => if cursor == 0 {
                self.with_confidence(55)
            } else if cursor == 1 {
                self.with_confidence(80)
            } else if cursor == 2 {
                self.with_confidence(95)
            } else if cursor == 3 {
                self.with_menu(Some(MenuModel::ConfidenceInput { buffer: Seq::empty() }))
            } else {
                self.with_confidence(self.initial_min_confidence)
            },
        }
    }

    /// A key in the input of a confidence: up to three digits make a number,
    /// which counts as 100 if it is more.
    pub open spec fn confidence_input_key(self, buffer: Seq<char>, key: Key) -> AppModel {
        let stay = self.with_menu(Some(MenuModel::ConfidenceInput { buffer }));
        match key {
            Key::Esc => self.with_menu(None),
            Key::Backspace => self.with_menu(
                Some(
                    MenuModel::ConfidenceInput {
                        buffer: if buffer.len() > 0 {
                            buffer.drop_last()
                        } else {
                            buffer
                        },
                    },
                ),
            ),
            Key::Char(c) => if '0' <= c <= '9' && buffer.len() < 3 {
                self.with_menu(Some(MenuModel::ConfidenceInput { buffer: buffer.push(c) }))
            } else {
                stay
            },
            Key::Enter => match number(buffer, 10, u32::MAX as int) {
                Some(value) => self.with_confidence(
                    (if value < 100 {
                        value
                    } else {
                        100
                    }) as u8,
                ),
                None => self.with_menu(None),
            },
            _ => stay,
        }
    }

    /// A key in the menu of themes.
    pub open spec fn theme_menu_key(self, cursor: usize, key: Key) -> AppModel {
        match choice(cursor, key, THEME_COUNT as int) {
            Choice::Close => self.with_menu(None),
            Choice::Stay(at) => self.with_menu(Some(MenuModel::Theme { cursor: at })),
            Choice::Take => self.with_theme(ThemeKind::at(cursor as int)),
        }
    }

    /// A key while a menu is open.
    pub open spec fn menu_key(self, key: Key) -> AppModel {
        match self.menu {
            Some(MenuModel::Format { cursor }) => self.format_menu_key(cursor, key),
            Some(MenuModel::Confidence { cursor }) => self.confidence_menu_key(cursor, key),
            Some(MenuModel::ConfidenceInput { buffer }) => self.confidence_input_key(buffer, key),
            Some(MenuModel::Theme { cursor }) => self.theme_menu_key(cursor, key),
            Some(MenuModel::FormatsHelp { scroll }) => self.with_menu(
                match help_scroll(scroll, key, '?') {
                    Some(at) => Some(MenuModel::FormatsHelp { scroll: at }),
                    None => None,
                },
            ),
            Some(MenuModel::AppHelp { scroll }) => self.with_menu(
                match help_scroll(scroll, key, 'h') {
                    Some(at) => Some(MenuModel::AppHelp { scroll: at }),
                    None => None,
                },
            ),
            None => self,
        }
    }

    /// What is left to do outside after a key in a menu: a theme that was chosen
    /// is to be kept.
    pub open spec fn menu_action(self, key: Key) -> Action {
        match self.menu {
            Some(MenuModel::Theme { .. }) if key is Enter => Action::SaveTheme,
            _ => Action::Nothing,
        }
    }

    /// A key while no menu is open.
    pub open spec fn panel_key(self, key: Key) -> AppModel {
        let up = if self.focus == Focus::List {
            self.with_selection_moved(-1)
        } else {
            self.with_panel_scrolled(-1)
        };
        let down = if self.focus == Focus::List {
            self.with_selection_moved(1)
        } else {
            self.with_panel_scrolled(1)
        };
        match key {
            Key::Tab => AppModel {
                focus: if self.focus == Focus::List {
                    Focus::Hex
                } else {
                    Focus::List
                },
                ..self
            },
            Key::Up => up,
            Key::Down => down,
            Key::PageUp => self.with_panel_scrolled(-16),
            Key::PageDown => self.with_panel_scrolled(16),
            Key::Char(c) => if c == 'f' {
                self.with_format_menu()
            } else if c == 'c' {
                self.with_menu(Some(MenuModel::Confidence { cursor: 0 }))
            } else if c == 'r' {
                self.with_filters_reset()
            } else if c == 't' {
                self.with_menu(
                    Some(MenuModel::Theme { cursor: self.theme.index_spec() as usize }),
                )
            } else if c == '?' {
                self.with_menu(Some(MenuModel::FormatsHelp { scroll: 0 }))
            } else if c == 'h' {
                self.with_menu(Some(MenuModel::AppHelp { scroll: 0 }))
            } else if c == 'k' {
                up
            } else if c == 'j' {
                down
            } else {
                self
            },
            _ => self,
        }
    }

    /// What is left to do outside after a key while no menu is open.
    pub open spec fn panel_action(self, key: Key) -> Action {
        match key {
            Key::Esc => Action::Quit,
            Key::Char(c) => if c == 'q' {
                Action::Quit
            } else if c == 'x' {
                Action::Extract
            } else if c == 'e' {
                Action::ToggleEntropy
            } else {
                Action::Nothing
            },
            _ => Action::Nothing,
        }
    }

    /// A key: whatever the status line said is gone first.
    pub open spec fn key(self, key: Key) -> AppModel {
        let cleared = AppModel { status: default_status_text(), ..self };
        if self.menu is Some {
            cleared.menu_key(normalized(key))
        } else {
            cleared.panel_key(normalized(key))
        }
    }

    /// What is left to do outside after a key.
    pub open spec fn action(self, key: Key) -> Action {
        if self.menu is Some {
            self.menu_action(normalized(key))
        } else {
            self.panel_action(normalized(key))
        }
    }
}

/// Two texts that come before each other are equal.
proof fn lemma_text_antisymmetric(a: Seq<u8>, b: Seq<u8>)
    requires
        lex_le(a, b),
        lex_le(b, a),
    ensures
        a == b,
    decreases a.len(),
{
    if a.len() > 0 && b.len() > 0 {
        lemma_text_antisymmetric(a.drop_first(), b.drop_first());
        assert(a == seq![a[0]] + a.drop_first());
        assert(b == seq![b[0]] + b.drop_first());
    } else {
        assert(a == b);
    }
}

/// Whether `a` comes before `b` or equals it.
fn string_le(a: &String, b: &String) -> (r: bool)
    ensures
        r == text_le(a@, b@),
{
    bytes_le(a.as_str().as_bytes(), b.as_str().as_bytes())
}

/// Adds a text to an ascending list, unless it is there.
fn insert_ascending(list: &mut Vec<String>, text: &String)
    requires
        ascending(texts_of(old(list)@)),
    ensures
        ascending(texts_of(final(list)@)),
        forall|t: Seq<char>|
            #[trigger] texts_of(final(list)@).contains(t) <==> texts_of(old(list)@).contains(t) || t
                == text@,
        final(list)@.len() <= old(list)@.len() + 1,
{
    let ghost before = texts_of(list@);
    let mut at: usize = 0;
    while at < list.len() && !string_le(text, &list[at])
        invariant
            at <= list@.len(),
            before == texts_of(list@),
            ascending(before),
            forall|i: int| 0 <= i < at ==> !text_le(text@, #[trigger] before[i]),
        decreases list@.len() - at,
    {
        assert(before[at as int] == list@[at as int]@);
        at = at + 1;
    }
    if at < list.len() && same_text(list[at].as_str(), text.as_str()) {
        assert(before[at as int] == text@);
        return;
    }
    proof {
        assert forall|i: int| 0 <= i < at implies text_le(#[trigger] before[i], text@) && before[i]
            != text@ by {
            lemma_lex_total(encode_utf8(text@), encode_utf8(before[i]));
        }
        assert forall|i: int| at <= i < before.len() implies text_le(text@, #[trigger] before[i])
            && before[i] != text@ by {
            assert(before[at as int] == list@[at as int]@);
            assert(text_le(text@, before[at as int]) && before[at as int] != text@);
            if i > at {
                assert(text_le(before[at as int], before[i]));
                lemma_lex_transitive(
                    encode_utf8(text@),
                    encode_utf8(before[at as int]),
                    encode_utf8(before[i]),
                );
                if before[i] == text@ {
                    lemma_text_antisymmetric(encode_utf8(text@), encode_utf8(before[at as int]));
                    encode_utf8_decode_utf8(text@);
                    encode_utf8_decode_utf8(before[at as int]);
                }
            }
        }
    }
    list.insert(at, text.clone());
    proof {
        let after = texts_of(list@);
        assert(after == before.insert(at as int, text@));
        assert forall|i: int, j: int| 0 <= i < j < after.len() implies text_le(
            #[trigger] after[i],
            #[trigger] after[j],
        ) && after[i] != after[j] by {
            let x = if i < at {
                i
            } else {
                i - 1
            };
            let y = if j < at {
                j
            } else {
                j - 1
            };
            if i == at {
                assert(after[j] == before[y]);
            } else if j == at {
                assert(after[i] == before[x]);
            } else {
                assert(after[i] == before[x] && after[j] == before[y]);
            }
        }
        assert forall|t: Seq<char>| #[trigger] after.contains(t) <==> before.contains(t) || t
            == text@ by {
            if after.contains(t) {
                let i = after.index_of(t);
                if i < at {
                    assert(before[i] == t);
                } else if i > at {
                    assert(before[i - 1] == t);
                }
            }
            if before.contains(t) {
                let i = before.index_of(t);
                if i < at {
                    assert(after[i] == t);
                } else {
                    assert(after[i + 1] == t);
                }
            }
            if t == text@ {
                assert(after[at as int] == t);
            }
        }
    }
}

/// The formats of the findings, in ascending order, each once.
pub fn formats_of(findings: &Vec<Finding>) -> (r: Vec<String>)
    ensures
        ascending(texts_of(r@)),
        forall|text: Seq<char>|
            #[trigger] texts_of(r@).contains(text) <==> exists|i: int|
                0 <= i < findings@.len() && (#[trigger] findings_view(findings@)[i]).format == text,
        r@.len() <= findings@.len(),
{
    let mut list = no_texts();
    let ghost model = findings_view(findings@);
    let mut i: usize = 0;
    assert(texts_of(list@).len() == list@.len());
    while i < findings.len()
        invariant
            i <= findings@.len(),
            model == findings_view(findings@),
            ascending(texts_of(list@)),
            list@.len() <= i,
            forall|text: Seq<char>|
                #[trigger] texts_of(list@).contains(text) <==> exists|k: int|
                    0 <= k < i && (#[trigger] model[k]).format == text,
        decreases findings@.len() - i,
    {
        let ghost before = texts_of(list@);
        insert_ascending(&mut list, &findings[i].format);
        proof {
            assert(model[i as int].format == findings@[i as int].format@);
            assert forall|text: Seq<char>| #[trigger] texts_of(list@).contains(text) <==> exists|k: int|
                0 <= k < i + 1 && (#[trigger] model[k]).format == text by {
                if before.contains(text) {
                    let k = choose|k: int| 0 <= k < i && (#[trigger] model[k]).format == text;
                    assert(model[k].format == text);
                }
                if exists|k: int| 0 <= k < i + 1 && (#[trigger] model[k]).format == text {
                    let k = choose|k: int| 0 <= k < i + 1 && (#[trigger] model[k]).format == text;
                    if k < i {
                        assert(before.contains(text));
                    }
                }
            }
        }
        i = i + 1;
    }
    list
}

/// The lengths of lists are the lengths of their contents.
proof fn lemma_app_lengths(app: &App)
    ensures
        app@.findings.len() == app.findings@.len(),
        app@.available_formats.len() == app.available_formats@.len(),
{
}

impl<'a> App<'a> {
    /// A browser of these findings, all of which are shown.
    pub fn new(data: &'a [u8], findings: Vec<Finding>, min_confidence: u8) -> (r: App<'a>)
        requires
            findings@.len() < usize::MAX,
        ensures
            r@.wf(),
            r@ == (AppModel {
                data: data@,
                findings: findings_view(findings@),
                filtered: Seq::empty(),
                available_formats: r@.available_formats,
                format_filter: None,
                confidence_filter: min_confidence,
                initial_min_confidence: min_confidence,
                theme: ThemeKind::Standard,
                menu: None,
                selected_row: None,
                focus: Focus::List,
                hex_scroll: 0,
                entropy_blocks: None,
                status: default_status_text(),
            }).refiltered(),
    {
        let available_formats = formats_of(&findings);
        let mut app = App {
            data,
            findings,
            filtered: Vec::new(),
            available_formats,
            format_filter: None,
            confidence_filter: min_confidence,
            initial_min_confidence: min_confidence,
            theme: ThemeKind::Standard,
            menu: None,
            selected_row: None,
            focus: Focus::List,
            hex_scroll: 0,
            entropy_blocks: None,
            status: default_status(),
        };
        proof {
            lemma_app_lengths(&app);
        }
        app.recompute_filtered();
        app
    }

    /// Brings the list in line with the filters.
    pub fn recompute_filtered(&mut self)
        ensures
            final(self)@ == old(self)@.refiltered(),
            final(self)@.list_wf(),
    {
        let ghost st = self@;
        proof {
            lemma_app_lengths(&*self);
        }
        let mut filtered: Vec<usize> = Vec::new();
        let mut i: usize = 0;
        while i < self.findings.len()
            invariant
                i <= self.findings@.len(),
                self@ == st,
                st.findings.len() == self.findings@.len(),
                filtered@ == passing(st.findings, st.format_filter, st.confidence_filter, i as int),
                filtered@.len() <= i,
            decreases self.findings@.len() - i,
        {
            assert(st.findings[i as int] == self.findings@[i as int]@);
            let fits = self.findings[i].confidence >= self.confidence_filter && match &self.format_filter {
                Some(format) => same_text(self.findings[i].format.as_str(), format.as_str()),
                None => true,
            };
            if fits {
                filtered.push(i);
            }
            i = i + 1;
        }
        let current = match self.selected_row {
            Some(row) => row,
            None => 0,
        };
        self.selected_row = if filtered.len() == 0 {
            None
        } else if current < filtered.len() {
            Some(current)
        } else {
            Some(filtered.len() - 1)
        };
        self.filtered = filtered;
        self.hex_scroll = 0;
    }

    /// Opens the menu of formats.
    pub fn open_format_menu(&mut self)
        ensures
            final(self)@ == old(self)@.with_format_menu(),
    {
        proof {
            lemma_app_lengths(&*self);
        }
        let ghost formats = self@.available_formats;
        let mut cursor: usize = 0;
        if let Some(format) = &self.format_filter {
            let mut i: usize = 0;
            while i < self.available_formats.len() && !same_text(
                self.available_formats[i].as_str(),
                format.as_str(),
            )
                invariant
                    i <= self.available_formats@.len(),
                    formats == texts_of(self.available_formats@),
                    place_of(formats, format@, 0) == place_of(formats, format@, i as int),
                decreases self.available_formats@.len() - i,
            {
                i = i + 1;
            }
            if i < self.available_formats.len() {
                cursor = i + 1;
            }
        }
        self.menu = Some(Menu::Format { cursor });
    }

    /// Opens the menu of confidences.
    pub fn open_confidence_menu(&mut self)
        ensures
            final(self)@ == old(self)@.with_menu(Some(MenuModel::Confidence { cursor: 0 })),
    {
        self.menu = Some(Menu::Confidence { cursor: 0 });
    }

    /// Opens the help on all formats.
    pub fn open_formats_help(&mut self)
        ensures
            final(self)@ == old(self)@.with_menu(Some(MenuModel::FormatsHelp { scroll: 0 })),
    {
        self.menu = Some(Menu::FormatsHelp { scroll: 0 });
    }

    /// Opens the help on the program.
    pub fn open_app_help(&mut self)
        ensures
            final(self)@ == old(self)@.with_menu(Some(MenuModel::AppHelp { scroll: 0 })),
    {
        self.menu = Some(Menu::AppHelp { scroll: 0 });
    }

    /// Opens the menu of themes.
    pub fn open_theme_menu(&mut self)
        ensures
            final(self)@ == old(self)@.with_menu(
                Some(MenuModel::Theme { cursor: old(self)@.theme.index_spec() as usize }),
            ),
    {
        self.menu = Some(Menu::Theme { cursor: self.theme.index() });
    }

    /// Puts the hints on the keys back in the status line.
    pub fn clear_transient_status(&mut self)
        ensures
            final(self)@ == (AppModel { status: default_status_text(), ..old(self)@ }),
    {
        self.status = default_status();
    }

    /// The looks of the current theme.
    pub fn palette(&self) -> (r: Theme)
        ensures
            r == self.theme.theme(),
    {
        self.theme.palette()
    }

    /// Shows all findings of the scan again.
    pub fn reset_filters(&mut self)
        ensures
            final(self)@ == old(self)@.with_filters_reset(),
            final(self)@.list_wf(),
    {
        self.format_filter = None;
        self.confidence_filter = self.initial_min_confidence;
        self.status = "Фільтри скинуто".to_owned();
        self.recompute_filtered();
    }

    /// Sets the least confidence.
    pub fn apply_confidence_filter(&mut self, value: u8)
        ensures
            final(self)@ == old(self)@.with_confidence(value),
            final(self)@.list_wf(),
    {
        self.confidence_filter = value;
        self.menu = None;
        let mut status = "Мінімальна впевненість: ".to_owned();
        status.append(dec_text(value as u64).as_str());
        status.append("%");
        self.status = status;
        self.recompute_filtered();
    }

    fn apply_format(&mut self, cursor: usize)
        requires
            cursor <= old(self)@.available_formats.len(),
        ensures
            final(self)@ == old(self)@.with_format(cursor as int),
    {
        proof {
            lemma_app_lengths(&*self);
        }
        let mut status = "Фільтр формату: ".to_owned();
        if cursor == 0 {
            status.append("усі");
            self.format_filter = None;
        } else {
            let format = self.available_formats[cursor - 1].clone();
            status.append(format.as_str());
            self.format_filter = Some(format);
        }
        self.menu = None;
        self.status = status;
        self.recompute_filtered();
    }

    fn apply_theme(&mut self, theme: ThemeKind)
        ensures
            final(self)@ == old(self)@.with_theme(theme),
    {
        self.theme = theme;
        self.menu = None;
        let mut status = "Тема: ".to_owned();
        status.append(theme.label());
        self.status = status;
    }

    /// Says in the status line that the theme could not be kept, and why.
    pub fn report_unsaved_theme(&mut self, reason: &str)
        ensures
            final(self)@ == (AppModel {
                status: "Тема: "@ + old(self)@.theme.label_text()
                    + " (не вдалося зберегти конфіг: "@ + reason@ + ")"@,
                ..old(self)@
            }),
    {
        let mut status = "Тема: ".to_owned();
        status.append(self.theme.label());
        status.append(" (не вдалося зберегти конфіг: ");
        status.append(reason);
        status.append(")");
        self.status = status;
    }

    /// Says in the status line where a finding was written to, or why not.
    pub fn report_extraction(&mut self, outcome: Result<&str, &str>)
        ensures
            final(self)@ == (AppModel {
                status: match outcome {
                    Ok(path) => "Витягнуто: "@ + path@,
                    Err(reason) => "Помилка екстракції: "@ + reason@,
                },
                ..old(self)@
            }),
    {
        self.status = match outcome {
            Ok(path) => {
                let mut status = "Витягнуто: ".to_owned();
                status.append(path);
                status
            },
            Err(reason) => {
                let mut status = "Помилка екстракції: ".to_owned();
                status.append(reason);
                status
            },
        };
    }

    /// The finding in the selected row.
    pub fn selected(&self) -> (r: Option<&Finding>)
        ensures
            r is Some <==> self@.selected() is Some,
            r matches Some(finding) ==> self@.selected() == Some(finding@),
    {
        proof {
            lemma_app_lengths(self);
        }
        let row = self.selected_row?;
        if row >= self.filtered.len() {
            return None;
        }
        let i = self.filtered[row];
        if i >= self.findings.len() {
            return None;
        }
        assert(self@.findings[i as int] == self.findings@[i as int]@);
        Some(&self.findings[i])
    }

    /// Moves the selection.
    pub fn move_selection(&mut self, delta: isize)
        ensures
            final(self)@ == old(self)@.with_selection_moved(delta as int),
    {
        if self.filtered.len() == 0 {
            return;
        }
        let current: usize = match self.selected_row {
            Some(row) => row,
            None => 0,
        };
        let last = self.filtered.len() - 1;
        self.selected_row = Some(shifted(current, delta, last));
        self.hex_scroll = 0;
    }

    /// Scrolls the panel of the finding: its listing, its text or its bytes.
    pub fn scroll_hex(&mut self, delta: isize)
        ensures
            final(self)@ == old(self)@.with_panel_scrolled(delta as int),
    {
        let rows = match self.selected() {
            Some(finding) => match fragment(self.data, finding) {
                Some(bytes) => count_rows(finding, bytes),
                None => {
                    return;
                },
            },
            None => {
                return;
            },
        };
        let last = if rows > 0 {
            rows - 1
        } else {
            0
        };
        self.hex_scroll = shifted(self.hex_scroll, delta, last);
    }

    /// Moves the focus to the other side.
    pub fn toggle_focus(&mut self)
        ensures
            final(self)@ == (AppModel {
                focus: if old(self)@.focus == Focus::List {
                    Focus::Hex
                } else {
                    Focus::List
                },
                ..old(self)@
            }),
    {
        self.focus = match self.focus {
            Focus::List => Focus::Hex,
            Focus::Hex => Focus::List,
        };
    }

    /// Shows these blocks of entropy, or hides those that are shown.
    pub fn toggle_entropy(&mut self, blocks: Vec<EntropyBlock>)
        ensures
            final(self)@ == if old(self)@.entropy_blocks is Some {
                AppModel {
                    entropy_blocks: None,
                    status: default_status_text(),
                    ..old(self)@
                }
            } else {
                AppModel {
                    entropy_blocks: Some(blocks@),
                    status: "Підсвітка ентропії: ділянки з високою ентропією позначені ★"@,
                    ..old(self)@
                }
            },
    {
        if self.entropy_blocks.is_some() {
            self.entropy_blocks = None;
            self.status = default_status();
        } else {
            self.entropy_blocks = Some(blocks);
            self.status =
            "Підсвітка ентропії: ділянки з високою ентропією позначені ★".to_owned();
        }
    }

    /// Whether a finding shares bytes with a block of high entropy.
    pub fn is_high_entropy(&self, finding: &Finding) -> (r: bool)
        ensures
            r == overlaps_high(self@.entropy_blocks, finding@),
    {
        match &self.entropy_blocks {
            Some(blocks) => {
                let mut i: usize = 0;
                while i < blocks.len()
                    invariant
                        i <= blocks@.len(),
                        blocks_view(self.entropy_blocks) == Some(blocks@),
                        forall|k: int| 0 <= k < i ==> !overlaps(#[trigger] blocks@[k], finding@),
                    decreases blocks@.len() - i,
                {
                    let block = blocks[i];
                    let ends_behind = block.offset > finding.offset_start || block.size
                        > finding.offset_start - block.offset;
                    if block.high && block.offset <= finding.offset_end && ends_behind {
                        let ghost list = self@.entropy_blocks->0;
                        assert(overlaps(list[i as int], finding@));
                        return true;
                    }
                    i = i + 1;
                }
                false
            },
            None => false,
        }
    }
}

/// The block is of high entropy and shares bytes with the finding.
pub open spec fn overlaps(block: EntropyBlock, f: FindingModel) -> bool {
    block.high && block.offset < f.offset_end + 1 && block.offset + block.size > f.offset_start
}

/// One of the blocks is of high entropy and shares bytes with the finding.
pub open spec fn overlaps_high(blocks: Option<Seq<EntropyBlock>>, f: FindingModel) -> bool {
    match blocks {
        Some(list) => exists|k: int| 0 <= k < list.len() && overlaps(#[trigger] list[k], f),
        None => false,
    }
}

/// `n` moved by `delta`, but not below 0 or above `max`.
fn shifted(n: usize, delta: isize, max: usize) -> (r: usize)
    ensures
        r == clamped(n + delta, max as int),
{
    let moved = n as i128 + delta as i128;
    if moved < 0 {
        0
    } else if moved > max as i128 {
        max
    } else {
        moved as usize
    }
}

/// What a key does in a menu with a cursor.
enum Chosen {
    Close,
    Stay(usize),
    Take,
}

fn choose_row(cursor: usize, key: Key, len: usize) -> (r: Chosen)
    requires
        len > 0,
        cursor < len,
    ensures
        match choice(cursor, key, len as int) {
            Choice::Close => r is Close,
            Choice::Stay(at) => r matches Chosen::Stay(row) && row == at,
            Choice::Take => r is Take,
        },
{
    let up = if cursor > 0 {
        cursor - 1
    } else {
        0
    };
    let down = if cursor < len - 1 {
        cursor + 1
    } else {
        len - 1
    };
    match key {
        Key::Esc => Chosen::Close,
        Key::Enter => Chosen::Take,
        Key::Up => Chosen::Stay(up),
        Key::Down => Chosen::Stay(down),
        Key::Char(c) => if c == 'k' {
            Chosen::Stay(up)
        } else if c == 'j' {
            Chosen::Stay(down)
        } else {
            Chosen::Stay(cursor)
        },
        _ => Chosen::Stay(cursor),
    }
}

fn scroll_help(scroll: u16, key: Key, closing: char) -> (r: Option<u16>)
    ensures
        r == help_scroll(scroll, key, closing),
{
    match key {
        Key::Esc => None,
        Key::Enter => None,
        Key::Up => Some(scroll.saturating_sub(1)),
        Key::Down => Some(scroll.saturating_add(1)),
        Key::PageUp => Some(scroll.saturating_sub(10)),
        Key::PageDown => Some(scroll.saturating_add(10)),
        Key::Char(c) => if c == 'q' || c == closing {
            None
        } else if c == 'k' {
            Some(scroll.saturating_sub(1))
        } else if c == 'j' {
            Some(scroll.saturating_add(1))
        } else {
            Some(scroll)
        },
        _ => Some(scroll),
    }
}

/// The number that an input spells, counted as 100 if it is more.
fn typed_percentage(buffer: &String) -> (r: Option<u8>)
    ensures
        match number(buffer@, 10, u32::MAX as int) {
            Some(value) => r matches Some(n) && n == (if value < 100 {
                value
            } else {
                100
            }),
            None => r is None,
        },
{
    let chars = chars_of(buffer.as_str());
    assert(chars@.subrange(0, chars@.len() as int) == chars@);
    match parse_number(&chars, 0, chars.len(), 10, u32::MAX as u64) {
        Some(value) => Some(
            if value < 100 {
                value as u8
            } else {
                100
            },
        ),
        None => None,
    }
}

/// The text without its last character.
fn shortened(text: &String) -> (r: String)
    ensures
        r@ == if text@.len() > 0 {
            text@.drop_last()
        } else {
            text@
        },
{
    let chars = chars_of(text.as_str());
    let n = if chars.len() > 0 {
        chars.len() - 1
    } else {
        0
    };
    let out = text_from(&chars, 0, n);
    assert(out@ == if text@.len() > 0 {
        text@.drop_last()
    } else {
        text@
    });
    out
}

impl<'a> App<'a> {
    fn confidence_choice(&mut self, cursor: usize)
        ensures
            final(self)@ == old(self)@.confidence_menu_key(cursor, Key::Enter),
    {
        if cursor == 0 {
            self.apply_confidence_filter(55);
        } else if cursor == 1 {
            self.apply_confidence_filter(80);
        } else if cursor == 2 {
            self.apply_confidence_filter(95);
        } else if cursor == 3 {
            self.menu = Some(Menu::ConfidenceInput { buffer: String::new() });
        } else {
            let value = self.initial_min_confidence;
            self.apply_confidence_filter(value);
        }
    }

    fn confidence_input(&mut self, buffer: String, key: Key)
        ensures
            final(self)@ == old(self)@.confidence_input_key(buffer@, key),
    {
        match key {
            Key::Esc => {
                self.menu = None;
            },
            Key::Backspace => {
                self.menu = Some(Menu::ConfidenceInput { buffer: shortened(&buffer) });
            },
            Key::Char(c) => {
                let mut text = buffer;
                if '0' <= c && c <= '9' && text.as_str().unicode_len() < 3 {
                    text.push(c);
                }
                self.menu = Some(Menu::ConfidenceInput { buffer: text });
            },
            Key::Enter => {
                match typed_percentage(&buffer) {
                    Some(value) => {
                        self.apply_confidence_filter(value);
                    },
                    None => {
                        self.menu = None;
                    },
                }
            },
            _ => {
                self.menu = Some(Menu::ConfidenceInput { buffer });
            },
        }
    }

    /// Handles a key while a menu is open, and says what is left to do outside.
    pub fn handle_menu_key(&mut self, code: Key) -> (r: Action)
        requires
            old(self)@.menu_wf(),
            old(self)@.available_formats.len() < usize::MAX,
        ensures
            final(self)@ == old(self)@.menu_key(code),
            r == old(self)@.menu_action(code),
    {
        proof {
            lemma_app_lengths(&*self);
        }
        match self.menu.take() {
            Some(Menu::Format { cursor }) => {
                match choose_row(cursor, code, self.available_formats.len() + 1) {
                    Chosen::Close => {},
                    Chosen::Stay(at) => {
                        self.menu = Some(Menu::Format { cursor: at });
                    },
                    Chosen::Take => {
                        self.apply_format(cursor);
                    },
                }
                Action::Nothing
            },
            Some(Menu::Confidence { cursor }) => {
                match choose_row(cursor, code, CONFIDENCE_MENU_LEN) {
                    Chosen::Close => {},
                    Chosen::Stay(at) => {
                        self.menu = Some(Menu::Confidence { cursor: at });
                    },
                    Chosen::Take => {
                        self.confidence_choice(cursor);
                    },
                }
                Action::Nothing
            },
            Some(Menu::ConfidenceInput { buffer }) => {
                self.confidence_input(buffer, code);
                Action::Nothing
            },
            Some(Menu::FormatsHelp { scroll }) => {
                if let Some(at) = scroll_help(scroll, code, '?') {
                    self.menu = Some(Menu::FormatsHelp { scroll: at });
                }
                Action::Nothing
            },
            Some(Menu::Theme { cursor }) => {
                match choose_row(cursor, code, THEME_COUNT) {
                    Chosen::Close => Action::Nothing,
                    Chosen::Stay(at) => {
                        self.menu = Some(Menu::Theme { cursor: at });
                        Action::Nothing
                    },
                    Chosen::Take => {
                        self.apply_theme(ThemeKind::nth(cursor));
                        Action::SaveTheme
                    },
                }
            },
            Some(Menu::AppHelp { scroll }) => {
                if let Some(at) = scroll_help(scroll, code, 'h') {
                    self.menu = Some(Menu::AppHelp { scroll: at });
                }
                Action::Nothing
            },
            None => Action::Nothing,
        }
    }

    fn arrow(&mut self, delta: isize)
        ensures
            final(self)@ == if old(self)@.focus == Focus::List {
                old(self)@.with_selection_moved(delta as int)
            } else {
                old(self)@.with_panel_scrolled(delta as int)
            },
    {
        match self.focus {
            Focus::List => self.move_selection(delta),
            Focus::Hex => self.scroll_hex(delta),
        }
    }

    /// Handles a key while no menu is open, and says what is left to do outside.
    fn handle_panel_key(&mut self, code: Key) -> (r: Action)
        ensures
            final(self)@ == old(self)@.panel_key(code),
            r == old(self)@.panel_action(code),
    {
        match code {
            Key::Esc => {
                return Action::Quit;
            },
            Key::Tab => self.toggle_focus(),
            Key::Up => self.arrow(-1),
            Key::Down => self.arrow(1),
            Key::PageUp => self.scroll_hex(-16),
            Key::PageDown => self.scroll_hex(16),
            Key::Char(c) => {
                if c == 'q' {
                    return Action::Quit;
                } else if c == 'x' {
                    return Action::Extract;
                } else if c == 'e' {
                    return Action::ToggleEntropy;
                } else if c == 'f' {
                    self.open_format_menu();
                } else if c == 'c' {
                    self.open_confidence_menu();
                } else if c == 'r' {
                    self.reset_filters();
                } else if c == 't' {
                    self.open_theme_menu();
                } else if c == '?' {
                    self.open_formats_help();
                } else if c == 'h' {
                    self.open_app_help();
                } else if c == 'k' {
                    self.arrow(-1);
                } else if c == 'j' {
                    self.arrow(1);
                }
            },
            _ => {},
        }
        Action::Nothing
    }

    /// Handles a key, whatever the keyboard layout, and says what is left to do
    /// outside.
    pub fn handle_key(&mut self, code: Key) -> (r: Action)
        requires
            old(self)@.wf(),
        ensures
            final(self)@ == old(self)@.key(code),
            final(self)@.wf(),
            r == old(self)@.action(code),
    {
        proof {
            law_key_keeps_order(self@, code);
        }
        self.clear_transient_status();
        let key = normalize_key_code(code);
        if self.menu.is_some() {
            self.handle_menu_key(key)
        } else {
            self.handle_panel_key(key)
        }
    }
}

proof fn lemma_passing_bounds(
    findings: Seq<FindingModel>,
    format: Option<Seq<char>>,
    min_confidence: u8,
    n: int,
)
    requires
        0 <= n <= findings.len() <= usize::MAX,
    ensures
        ({
            let list = passing(findings, format, min_confidence, n);
            &&& list.len() <= n
            &&& forall|i: int|
                0 <= i < list.len() ==> (#[trigger] list[i]) < n && passes(
                    findings[list[i] as int],
                    format,
                    min_confidence,
                )
            &&& forall|i: int, j: int|
                0 <= i < j < list.len() ==> (#[trigger] list[i]) < (#[trigger] list[j])
            &&& forall|k: int|
                0 <= k < n && passes(#[trigger] findings[k], format, min_confidence) ==> list.contains(
                    k as usize,
                )
        }),
    decreases n,
{
    if n > 0 {
        lemma_passing_bounds(findings, format, min_confidence, n - 1);
        let before = passing(findings, format, min_confidence, n - 1);
        let list = passing(findings, format, min_confidence, n);
        assert forall|k: int| 0 <= k < n && passes(#[trigger] findings[k], format, min_confidence) implies list.contains(
            k as usize,
        ) by {
            if k == n - 1 {
                assert(list[before.len() as int] == k as usize);
            } else {
                assert(before.contains(k as usize));
                let i = before.index_of(k as usize);
                assert(list[i] == k as usize);
            }
        }
    }
}

/// The list shows the findings that pass the filters, all of them and no others,
/// in their order.
pub proof fn law_list_follows_filters(state: AppModel)
    requires
        state.list_wf(),
    ensures
        forall|i: int|
            0 <= i < state.filtered.len() ==> (#[trigger] state.filtered[i]) < state.findings.len()
                && passes(
                state.findings[state.filtered[i] as int],
                state.format_filter,
                state.confidence_filter,
            ),
        forall|k: int|
            0 <= k < state.findings.len() && passes(
                #[trigger] state.findings[k],
                state.format_filter,
                state.confidence_filter,
            ) ==> state.filtered.contains(k as usize),
        forall|i: int, j: int|
            0 <= i < j < state.filtered.len() ==> (#[trigger] state.filtered[i]) < (
            #[trigger] state.filtered[j]),
{
    lemma_passing_bounds(
        state.findings,
        state.format_filter,
        state.confidence_filter,
        state.findings.len() as int,
    );
}

/// There is a selected finding whenever the list is not empty, and it passes the
/// filters.
pub proof fn law_selection_is_shown(state: AppModel)
    requires
        state.list_wf(),
    ensures
        state.filtered.len() > 0 <==> state.selected() is Some,
        state.selected() matches Some(f) ==> passes(f, state.format_filter, state.confidence_filter),
{
    law_list_follows_filters(state);
}

/// A new filter leaves the state in order.
proof fn lemma_refiltered_wf(state: AppModel)
    requires
        state.findings.len() <= usize::MAX,
    ensures
        state.refiltered().list_wf(),
{
    lemma_passing_bounds(
        state.findings,
        state.format_filter,
        state.confidence_filter,
        state.findings.len() as int,
    );
}

proof fn lemma_place_bounds(list: Seq<Seq<char>>, text: Seq<char>, i: int)
    ensures
        place_of(list, text, i) matches Some(at) ==> 0 <= at < list.len() && list[at] == text,
    decreases list.len() - i,
{
    if 0 <= i < list.len() && list[i] != text {
        lemma_place_bounds(list, text, i + 1);
    }
}

/// Whatever key is pressed, the state stays in order: the list follows the
/// filters, a row is selected exactly if there is one, and the cursor is on one
/// of the choices of the menu.
pub proof fn law_key_keeps_order(state: AppModel, key: Key)
    requires
        state.wf(),
    ensures
        state.key(key).wf(),
{
    let cleared = AppModel { status: default_status_text(), ..state };
    let k = normalized(key);
    lemma_refiltered_wf(AppModel { format_filter: None, ..cleared });
    if let Some(format) = cleared.format_filter {
        lemma_place_bounds(cleared.available_formats, format, 0);
    }
    if state.menu is Some {
        law_menu_key_keeps_order(cleared, k);
    } else {
        let reset = AppModel {
            format_filter: None,
            confidence_filter: cleared.initial_min_confidence,
            status: "Фільтри скинуто"@,
            ..cleared
        };
        lemma_refiltered_wf(reset);
    }
}

/// Whatever key is pressed in a menu, the state stays in order.
pub proof fn law_menu_key_keeps_order(state: AppModel, key: Key)
    requires
        state.wf(),
    ensures
        state.menu_key(key).wf(),
{
    match state.menu {
        Some(MenuModel::Format { cursor }) => {
            let format = if cursor == 0 {
                None
            } else {
                Some(state.available_formats[cursor - 1])
            };
            let changed = AppModel {
                format_filter: format,
                menu: None,
                status: "Фільтр формату: "@ + match format {
                    Some(name) => name,
                    None => "усі"@,
                },
                ..state
            };
            lemma_refiltered_wf(changed);
        },
        Some(MenuModel::Confidence { cursor }) => {
            lemma_confidence_wf(state, 55);
            lemma_confidence_wf(state, 80);
            lemma_confidence_wf(state, 95);
            lemma_confidence_wf(state, state.initial_min_confidence);
        },
        Some(MenuModel::ConfidenceInput { buffer }) => {
            if let Some(value) = number(buffer, 10, u32::MAX as int) {
                lemma_confidence_wf(
                    state,
                    (if value < 100 {
                        value
                    } else {
                        100
                    }) as u8,
                );
            }
        },
        _ => {},
    }
}

proof fn lemma_confidence_wf(state: AppModel, value: u8)
    requires
        state.wf(),
    ensures
        state.with_confidence(value).wf(),
{
    let changed = AppModel {
        confidence_filter: value,
        menu: None,
        status: "Мінімальна впевненість: "@ + dec(value as nat) + "%"@,
        ..state
    };
    lemma_refiltered_wf(changed);
}

/// Escape closes any menu and changes nothing else.
pub proof fn law_escape_closes_menu(state: AppModel)
    ensures
        state.menu_key(Key::Esc) == state.with_menu(None),
{
    assert(state.menu is None ==> state == state.with_menu(None));
}

/// Resetting the filters shows every finding that is certain enough for the scan,
/// whatever the filters were.
pub proof fn law_reset_shows_all(state: AppModel, k: int)
    requires
        state.findings.len() <= usize::MAX,
        0 <= k < state.findings.len(),
        state.findings[k].confidence >= state.initial_min_confidence,
    ensures
        state.with_filters_reset().filtered.contains(k as usize),
{
    lemma_passing_bounds(
        state.findings,
        None,
        state.initial_min_confidence,
        state.findings.len() as int,
    );
    assert(passes(state.findings[k], None, state.initial_min_confidence));
}

} // verus!
