//! What the open menu and the filters look like.
use vstd::prelude::*;
use vstd::string::*;
use crate::lines::{no_texts, push_text, texts_of};
use crate::numbers::{dec, dec_text};
use crate::theme::{ThemeKind, THEME_COUNT};
use crate::tui::{App, AppModel, Menu, MenuModel};

verus! {

/// What is shown above the panels.
pub enum Popup {
    /// A list of choices, one of which is under the cursor.
    Choices { title: &'static str, options: Vec<String>, cursor: usize },
    /// A line of input.
    Input { title: &'static str, text: String },
    /// The help on all formats, from that line on.
    FormatsHelp { scroll: u16 },
    /// The help on the program, from that line on.
    AppHelp { scroll: u16 },
}

/// The mathematical content of a [`Popup`].
pub ghost enum PopupModel {
    Choices { title: Seq<char>, options: Seq<Seq<char>>, cursor: usize },
    Input { title: Seq<char>, text: Seq<char> },
    FormatsHelp { scroll: u16 },
    AppHelp { scroll: u16 },
}

impl View for Popup {
    type V = PopupModel;

    open spec fn view(&self) -> PopupModel {
        match *self {
            Popup::Choices { title, options, cursor } => PopupModel::Choices {
                title: title@,
                options: texts_of(options@),
                cursor,
            },
            Popup::Input { title, text } => PopupModel::Input { title: title@, text: text@ },
            Popup::FormatsHelp { scroll } => PopupModel::FormatsHelp { scroll },
            Popup::AppHelp { scroll } => PopupModel::AppHelp { scroll },
        }
    }
}

/// The names of the themes in the order of the menu.
pub open spec fn theme_labels() -> Seq<Seq<char>> {
    Seq::new(THEME_COUNT as nat, |i: int| ThemeKind::at(i).label_text())
}

/// The choices in the menu of confidences.
pub open spec fn confidence_labels(initial: int) -> Seq<Seq<char>> {
    seq![
        "55%"@,
        "80%"@,
        "95%"@,
        "Власне значення..."@,
        "Скинути (мін. зі скану: "@ + dec(initial as nat) + "%)"@,
    ]
}

/// What is shown for the open menu.
pub open spec fn popup_of(state: AppModel) -> Option<PopupModel> {
    match state.menu {
        Some(MenuModel::Format { cursor }) => Some(
            PopupModel::Choices {
                title: " Формат "@,
                options: seq!["Усі формати"@] + state.available_formats,
                cursor,
            },
        ),
        Some(MenuModel::Confidence { cursor }) => Some(
            PopupModel::Choices {
                title: " Мінімальний відсоток співпадіння "@,
                options: confidence_labels(state.initial_min_confidence as int),
                cursor,
            },
        ),
        Some(MenuModel::ConfidenceInput { buffer }) => Some(
            PopupModel::Input {
                title: " Мін. % (0-100), Enter — підтвердити "@,
                text: buffer + "_"@,
            },
        ),
        Some(MenuModel::FormatsHelp { scroll }) => Some(PopupModel::FormatsHelp { scroll }),
        Some(MenuModel::Theme { cursor }) => Some(
            PopupModel::Choices { title: " Тема "@, options: theme_labels(), cursor },
        ),
        Some(MenuModel::AppHelp { scroll }) => Some(PopupModel::AppHelp { scroll }),
        None => None,
    }
}

/// The content of an optional popup.
pub open spec fn popup_view(popup: Option<Popup>) -> Option<PopupModel> {
    match popup {
        Some(p) => Some(p@),
        None => None,
    }
}

fn format_choices(formats: &Vec<String>) -> (r: Vec<String>)
    ensures
        texts_of(r@) == seq!["Усі формати"@] + texts_of(formats@),
{
    let mut options = no_texts();
    push_text(&mut options, "Усі формати".to_owned());
    let ghost first = seq!["Усі формати"@];
    let mut i: usize = 0;
    assert(texts_of(options@) == first + texts_of(formats@).take(0));
    while i < formats.len()
        invariant
            i <= formats@.len(),
            texts_of(options@) == first + texts_of(formats@).take(i as int),
        decreases formats@.len() - i,
    {
        push_text(&mut options, formats[i].clone());
        i = i + 1;
        assert(texts_of(options@) == first + texts_of(formats@).take(i as int));
    }
    assert(texts_of(formats@).take(i as int) == texts_of(formats@));
    options
}

fn confidence_choices(initial: u8) -> (r: Vec<String>)
    ensures
        texts_of(r@) == confidence_labels(initial as int),
{
    let mut options = no_texts();
    push_text(&mut options, "55%".to_owned());
    push_text(&mut options, "80%".to_owned());
    push_text(&mut options, "95%".to_owned());
    push_text(&mut options, "Власне значення...".to_owned());
    let mut reset = "Скинути (мін. зі скану: ".to_owned();
    reset.append(dec_text(initial as u64).as_str());
    reset.append("%)");
    push_text(&mut options, reset);
    assert(texts_of(options@) == confidence_labels(initial as int));
    options
}

fn theme_choices() -> (r: Vec<String>)
    ensures
        texts_of(r@) == theme_labels(),
{
    let mut options = no_texts();
    push_text(&mut options, ThemeKind::nth(0).label().to_owned());
    push_text(&mut options, ThemeKind::nth(1).label().to_owned());
    push_text(&mut options, ThemeKind::nth(2).label().to_owned());
    push_text(&mut options, ThemeKind::nth(3).label().to_owned());
    assert(texts_of(options@) == theme_labels());
    options
}

/// What is shown for the open menu.
pub fn menu_popup(app: &App) -> (r: Option<Popup>)
    ensures
        popup_view(r) == popup_of(app@),
{
    match &app.menu {
        Some(Menu::Format { cursor }) => Some(
            Popup::Choices {
                title: " Формат ",
                options: format_choices(&app.available_formats),
                cursor: *cursor,
            },
        ),
        Some(Menu::Confidence { cursor }) => Some(
            Popup::Choices {
                title: " Мінімальний відсоток співпадіння ",
                options: confidence_choices(app.initial_min_confidence),
                cursor: *cursor,
            },
        ),
        Some(Menu::ConfidenceInput { buffer }) => {
            let mut text = buffer.clone();
            text.append("_");
            Some(Popup::Input { title: " Мін. % (0-100), Enter — підтвердити ", text })
        },
        Some(Menu::FormatsHelp { scroll }) => Some(Popup::FormatsHelp { scroll: *scroll }),
        Some(Menu::Theme { cursor }) => Some(
            Popup::Choices { title: " Тема ", options: theme_choices(), cursor: *cursor },
        ),
        Some(Menu::AppHelp { scroll }) => Some(Popup::AppHelp { scroll: *scroll }),
        None => None,
    }
}

/// The filters, and the keys that change them.
pub open spec fn filters_text(state: AppModel) -> Seq<char> {
    "Формат: "@ + match state.format_filter {
        Some(format) => format,
        None => "усі"@,
    } + "   Мін.%: "@ + dec(state.confidence_filter as nat)
        + "%\n[f] формат  [c] мін.%  [r] скинути"@
}

/// The filters, and the keys that change them.
pub fn filter_bar(app: &App) -> (r: String)
    ensures
        r@ == filters_text(app@),
{
    let mut text = "Формат: ".to_owned();
    match &app.format_filter {
        Some(format) => text.append(format.as_str()),
        None => text.append("усі"),
    }
    text.append("   Мін.%: ");
    text.append(dec_text(app.confidence_filter as u64).as_str());
    text.append("%\n[f] формат  [c] мін.%  [r] скинути");
    text
}

/// The title of the list: how many findings are shown, and of how many.
pub open spec fn list_title_text(state: AppModel) -> Seq<char> {
    " Знахідки ("@ + dec(state.filtered.len()) + "/"@ + dec(state.findings.len()) + ") "@
}

/// The title of the list.
pub fn list_title(app: &App) -> (r: String)
    ensures
        r@ == list_title_text(app@),
{
    assert(app@.findings.len() == app.findings@.len());
    let mut title = " Знахідки (".to_owned();
    title.append(dec_text(app.filtered.len() as u64).as_str());
    title.append("/");
    title.append(dec_text(app.findings.len() as u64).as_str());
    title.append(") ");
    title
}

/// A choice as it is shown: the one under the cursor is marked.
pub open spec fn choice_text(option: Seq<char>, chosen: bool) -> Seq<char> {
    if chosen {
        "▶ "@ + option
    } else {
        "  "@ + option
    }
}

/// A choice as it is shown.
pub fn choice_label(option: &str, chosen: bool) -> (r: String)
    ensures
        r@ == choice_text(option@, chosen),
{
    let mut label = (if chosen {
        "▶ "
    } else {
        "  "
    }).to_owned();
    label.append(option);
    label
}

/// The height of a list of `n` choices with its frame on a screen of that height:
/// it leaves a margin, but is at least three.
pub open spec fn choices_rows(n: int, screen: int) -> int {
    let room = if screen - 2 > 3 {
        screen - 2
    } else {
        3
    };
    if n + 2 < 3 {
        3
    } else if n + 2 < room {
        n + 2
    } else {
        room
    }
}

/// The height of a list of `n` choices on a screen of that height.
pub fn choices_height(n: usize, screen: u16) -> (r: u16)
    ensures
        r == choices_rows(n as int, screen as int),
{
    let room = if screen > 5 {
        screen - 2
    } else {
        3
    };
    if n < 1 {
        3
    } else if n < (room - 2) as usize {
        n as u16 + 2
    } else {
        room
    }
}

/// The height of a help text on a screen of that height: four fifths of it, but
/// at least ten.
pub fn help_height(screen: u16) -> (r: u16)
    ensures
        r == if screen * 80 / 100 > 10 {
            screen * 80 / 100
        } else {
            10
        },
{
    let height = screen as u32 * 80 / 100;
    if height > 10 {
        height as u16
    } else {
        10
    }
}

} // verus!
