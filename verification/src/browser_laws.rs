//! What the browser does for its user.
use vstd::prelude::*;
use vstd::string::*;
use crate::entropy::EntropyBlock;
use crate::finding_laws::is_offset;
use crate::keys::{latin_of, normalized, Key};
use crate::numbers::{digit, digits_value, hex, pad_left, pad_right};
use crate::numeral_laws::{law_hex_stands_for_the_number, numeral, lemma_numeral, power};
use crate::scanner::FindingModel;
use crate::theme::ThemeKind;
use crate::tui::{
    help_scroll, law_list_follows_filters, overlaps, passes, passing, row_down, row_up, Action,
    AppModel, Focus, MenuModel,
};
use crate::views::{fragment_of, hex_pairs, hex_row, hex_rows};

verus! {

/// The keys of the Ukrainian layout count as those of the Latin one at the same place.
pub proof fn law_layouts_agree(i: int)
    requires
        0 <= i < 26,
    ensures
        "йцукенгшщзфівапролдячсмить"@.len() == 26,
        "qwertyuiopasdfghjklzxcvbnm"@.len() == 26,
        latin_of("йцукенгшщзфівапролдячсмить"@[i]) == "qwertyuiopasdfghjklzxcvbnm"@[i],
        normalized(Key::Char("йцукенгшщзфівапролдячсмить"@[i])) == Key::Char(
            "qwertyuiopasdfghjklzxcvbnm"@[i],
        ),
{
    reveal_strlit("йцукенгшщзфівапролдячсмить");
    reveal_strlit("qwertyuiopasdfghjklzxcvbnm");
}

/// The list shows just the findings that are as certain as asked for and of the format that
/// is asked for, if one is.
pub proof fn law_list_shows_what_is_asked_for(state: AppModel, k: int)
    requires
        state.list_wf(),
        0 <= k < state.findings.len(),
    ensures
        state.filtered.contains(k as usize) <==> {
            &&& state.findings[k].confidence >= state.confidence_filter
            &&& state.format_filter is None || state.findings[k].format == state.format_filter->0
        },
{
    law_list_follows_filters(state);
    if state.filtered.contains(k as usize) {
        let i = state.filtered.index_of(k as usize);
        assert(state.filtered[i] == k);
    } else if state.findings[k].confidence >= state.confidence_filter && (state.format_filter is None
        || state.findings[k].format == state.format_filter->0) {
        assert(passes(state.findings[k], state.format_filter, state.confidence_filter));
    }
}

/// The list keeps the order of the findings.
pub proof fn law_list_keeps_the_order(state: AppModel, i: int, j: int)
    requires
        state.list_wf(),
        0 <= i < j < state.filtered.len(),
    ensures
        state.filtered[i] < state.filtered[j],
{
    lemma_passing_ascends(
        state.findings,
        state.format_filter,
        state.confidence_filter,
        state.findings.len() as int,
    );
}

proof fn lemma_passing_ascends(
    findings: Seq<FindingModel>,
    format: Option<Seq<char>>,
    min_confidence: u8,
    n: int,
)
    requires
        0 <= n <= findings.len() <= usize::MAX,
    ensures
        forall|i: int|
            0 <= i < passing(findings, format, min_confidence, n).len() ==> (#[trigger] passing(
                findings,
                format,
                min_confidence,
                n,
            )[i]) < n,
        forall|i: int, j: int|
            0 <= i < j < passing(findings, format, min_confidence, n).len() ==> (#[trigger] passing(
                findings,
                format,
                min_confidence,
                n,
            )[i]) < (#[trigger] passing(findings, format, min_confidence, n)[j]),
        passing(findings, format, min_confidence, n).len() <= n,
    decreases n,
{
    if n > 0 {
        lemma_passing_ascends(findings, format, min_confidence, n - 1);
        let before = passing(findings, format, min_confidence, n - 1);
        let all = passing(findings, format, min_confidence, n);
        assert forall|i: int| 0 <= i < all.len() implies (#[trigger] all[i]) < n by {
            if i < before.len() {
                assert(all[i] == before[i]);
            }
        }
        assert forall|i: int, j: int| 0 <= i < j < all.len() implies (#[trigger] all[i]) < (
        #[trigger] all[j]) by {
            assert(all[i] == before[i]);
            if j < before.len() {
                assert(all[j] == before[j]);
            }
        }
    }
}

/// Moving the selection goes as many rows as asked for, but not beyond either end, and back
/// again if no end was in the way.
pub proof fn law_selection_moves(state: AppModel, delta: int)
    requires
        state.list_wf(),
        state.filtered.len() > 0,
    ensures
        ({
            let row = state.selected_row->0 as int;
            let last = state.filtered.len() - 1;
            let moved = state.with_selection_moved(delta);
            &&& moved.selected_row is Some
            &&& 0 <= row + delta <= last ==> moved.selected_row->0 == row + delta
            &&& row + delta < 0 ==> moved.selected_row->0 == 0
            &&& row + delta > last ==> moved.selected_row->0 == last
            &&& 0 <= row + delta <= last ==> moved.with_selection_moved(-delta).selected_row
                == state.selected_row
            &&& moved.filtered == state.filtered && moved.hex_scroll == 0
        }),
{
    lemma_passing_ascends(
        state.findings,
        state.format_filter,
        state.confidence_filter,
        state.findings.len() as int,
    );
}

/// The keys that move: the arrows and `k` and `j` move what has the focus by one row, and the
/// page keys move the panel by sixteen.
pub proof fn law_keys_that_move(state: AppModel)
    requires
        state.menu is None,
    ensures
        state.focus == Focus::List ==> {
            &&& state.key(Key::Up).selected_row == state.with_selection_moved(-1).selected_row
            &&& state.key(Key::Down).selected_row == state.with_selection_moved(1).selected_row
        },
        state.focus == Focus::Hex ==> {
            &&& state.key(Key::Up).hex_scroll == state.with_panel_scrolled(-1).hex_scroll
            &&& state.key(Key::Down).hex_scroll == state.with_panel_scrolled(1).hex_scroll
        },
        state.key(Key::Char('k')) == state.key(Key::Up),
        state.key(Key::Char('j')) == state.key(Key::Down),
        state.key(Key::PageUp).hex_scroll == state.with_panel_scrolled(-16).hex_scroll,
        state.key(Key::PageDown).hex_scroll == state.with_panel_scrolled(16).hex_scroll,
        state.key(Key::Tab).focus != state.focus,
        state.key(Key::Tab).key(Key::Tab).focus == state.focus,
{
}

/// The keys that open a menu, and those that leave something to do outside.
pub proof fn law_keys_that_act(state: AppModel)
    requires
        state.menu is None,
    ensures
        state.key(Key::Char('f')).menu matches Some(MenuModel::Format { .. }),
        state.key(Key::Char('c')).menu == Some(MenuModel::Confidence { cursor: 0 }),
        state.key(Key::Char('t')).menu matches Some(MenuModel::Theme { .. }),
        state.key(Key::Char('?')).menu == Some(MenuModel::FormatsHelp { scroll: 0 }),
        state.key(Key::Char('h')).menu == Some(MenuModel::AppHelp { scroll: 0 }),
        state.key(Key::Char('r')).format_filter is None,
        state.key(Key::Char('r')).confidence_filter == state.initial_min_confidence,
        state.action(Key::Char('q')) == Action::Quit,
        state.action(Key::Esc) == Action::Quit,
        state.action(Key::Char('x')) == Action::Extract,
        state.action(Key::Char('e')) == Action::ToggleEntropy,
        state.action(Key::Char('f')) == Action::Nothing,
{
}

/// What is chosen in a menu is what is shown then, and the menu is closed.
pub proof fn law_choices_take_effect(state: AppModel, cursor: usize)
    ensures
        state.menu == Some(MenuModel::Format { cursor }) && cursor == 0 ==> {
            let after = state.key(Key::Enter);
            after.format_filter is None && after.menu is None
        },
        state.menu == Some(MenuModel::Format { cursor }) && 0 < cursor <= state.available_formats.len()
            ==> {
            let after = state.key(Key::Enter);
            after.format_filter == Some(state.available_formats[cursor - 1]) && after.menu is None
        },
        state.menu == Some(MenuModel::Confidence { cursor }) ==> {
            let after = state.key(Key::Enter);
            &&& cursor == 0 ==> after.confidence_filter == 55 && after.menu is None
            &&& cursor == 1 ==> after.confidence_filter == 80 && after.menu is None
            &&& cursor == 2 ==> after.confidence_filter == 95 && after.menu is None
            &&& cursor == 3 ==> after.menu == Some(
                MenuModel::ConfidenceInput { buffer: Seq::<char>::empty() },
            )
            &&& cursor == 4 ==> after.confidence_filter == state.initial_min_confidence && after.menu is None
        },
        state.menu == Some(MenuModel::Theme { cursor }) ==> {
            let after = state.key(Key::Enter);
            &&& after.theme == ThemeKind::at(cursor as int) && after.menu is None
            &&& state.action(Key::Enter) == Action::SaveTheme
        },
{
}

/// A confidence that was typed in is the one that is asked for, or 100 if it is more.
pub proof fn law_typed_confidence_is_asked_for(state: AppModel, n: int, width: nat)
    requires
        1 <= width <= 3,
        0 <= n < power(10, width),
        state.menu == Some(MenuModel::ConfidenceInput { buffer: numeral(n, 10, width, false) }),
    ensures
        state.key(Key::Enter).confidence_filter == if n < 100 {
            n
        } else {
            100
        },
        state.key(Key::Enter).menu is None,
{
    lemma_numeral(n, 10, width, false);
    let text = numeral(n, 10, width, false);
    assert(text[0] != '+');
    assert(power(10, 3) == 1000) by {
        reveal_with_fuel(power, 4);
    }
    assert(n < 1000) by {
        reveal_with_fuel(power, 4);
    }
}

/// A digit is typed in behind the others as long as there are less than three, and taken
/// away again.
pub proof fn law_digits_are_typed_in(state: AppModel, buffer: Seq<char>, c: char)
    requires
        state.menu == Some(MenuModel::ConfidenceInput { buffer }),
        '0' <= c <= '9',
    ensures
        buffer.len() < 3 ==> {
            let typed = state.key(Key::Char(c));
            &&& typed.menu == Some(MenuModel::ConfidenceInput { buffer: buffer.push(c) })
            &&& typed.key(Key::Backspace).menu == state.menu
        },
        buffer.len() >= 3 ==> state.key(Key::Char(c)).menu == state.menu,
{
    assert(buffer.push(c).drop_last() == buffer);
}

/// A finding is marked for high entropy just if it shares a byte with a block of high
/// entropy.
pub proof fn law_marked_where_entropy_is_high(block: EntropyBlock, f: FindingModel)
    requires
        block.size > 0,
        f.offset_start <= f.offset_end,
    ensures
        overlaps(block, f) <==> block.high && exists|at: int|
            #![trigger is_in(f, at)]
            is_in(f, at) && block.offset <= at < block.offset + block.size,
{
    if overlaps(block, f) {
        let at = if block.offset < f.offset_start {
            f.offset_start
        } else {
            block.offset as int
        };
        assert(is_in(f, at));
    }
}

/// The offset is one of the finding.
pub open spec fn is_in(f: FindingModel, at: int) -> bool {
    f.offset_start <= at <= f.offset_end
}

/// What is shown of a finding are its bytes, from the first to the last.
pub proof fn law_fragment_is_the_finding(s: Seq<u8>, f: FindingModel, i: int)
    requires
        0 <= f.offset_start <= f.offset_end < s.len(),
        0 <= i <= f.offset_end - f.offset_start,
    ensures
        fragment_of(s, f) matches Some(bytes) && bytes.len() == f.offset_end - f.offset_start + 1
            && bytes[i] == s[f.offset_start + i],
{
}

proof fn lemma_hex_pairs(bytes: Seq<u8>)
    ensures
        hex_pairs(bytes).len() == 3 * bytes.len(),
        forall|i: int|
            0 <= i < bytes.len() ==> {
                let text = hex_pairs(bytes);
                &&& digits_value(text.subrange(3 * i, 3 * i + 2), 16) == Some((#[trigger] bytes[i]) as int)
                &&& text[3 * i + 2] == ' '
            },
    decreases bytes.len(),
{
    reveal_strlit(" ");
    if bytes.len() > 0 {
        let rest = bytes.drop_last();
        let b = bytes.last();
        let before = hex_pairs(rest);
        lemma_hex_pairs(rest);
        lemma_pair(b);
        let pair = pad_left(hex(b as nat), 2, '0');
        let text = hex_pairs(bytes);
        assert(text == before + pair + " "@);
        assert forall|i: int| 0 <= i < bytes.len() implies digits_value(
            text.subrange(3 * i, 3 * i + 2),
            16,
        ) == Some((#[trigger] bytes[i]) as int) && text[3 * i + 2] == ' ' by {
            if i < rest.len() {
                assert(rest[i] == bytes[i]);
                assert(text.subrange(3 * i, 3 * i + 2) == before.subrange(3 * i, 3 * i + 2));
                assert(text[3 * i + 2] == before[3 * i + 2]);
            } else {
                assert(text.subrange(3 * i, 3 * i + 2) == pair);
            }
        }
    }
}

proof fn lemma_pair(b: u8)
    ensures
        pad_left(hex(b as nat), 2, '0').len() == 2,
        digits_value(pad_left(hex(b as nat), 2, '0'), 16) == Some(b as int),
{
    let text = hex(b as nat);
    law_hex_stands_for_the_number(b as nat);
    if b < 16 {
        assert(text.len() == 1);
        let pair = pad_left(text, 2, '0');
        assert(pair == seq!['0', text[0]]);
        assert(pair.drop_last() == seq!['0']);
        assert(pair.drop_last().drop_last() == Seq::<char>::empty());
        assert(text.drop_last() == Seq::<char>::empty());
        assert(digits_value(pair.drop_last().drop_last(), 16) == Some(0int));
        assert(digits_value(text.drop_last(), 16) == Some(0int));
        assert(digits_value(pair.drop_last(), 16) == Some(0int));
    } else {
        assert((b as nat) / 16 < 16);
        assert(hex((b / 16) as nat).len() == 1);
        assert(text == hex(((b as nat) / 16) as nat).push(text.last()));
        assert(text.len() == 2);
    }
}

/// A row of the hexadecimal view: the offset in eight digits, each byte in two with a space
/// behind them, and each byte as a character in a column of its own, or as a dot if it is
/// none that can be shown.
pub proof fn law_hex_row_shows_the_bytes(offset: int, bytes: Seq<u8>, i: int)
    requires
        0 <= offset < 0x1_0000_0000,
        0 < bytes.len() <= 16,
        0 <= i < bytes.len(),
    ensures
        ({
            let row = hex_row(offset, bytes);
            &&& row.len() == 58 + bytes.len()
            &&& is_offset(row.subrange(0, 8), offset)
            &&& digits_value(row.subrange(10 + 3 * i, 12 + 3 * i), 16) == Some(bytes[i] as int)
            &&& row[58 + i] == if 0x20 <= bytes[i] <= 0x7E {
                bytes[i] as char
            } else {
                '.'
            }
        }),
{
    reveal_strlit("  ");
    lemma_hex_pairs(bytes);
    let shown = pad_left(hex(offset as nat), 8, '0');
    lemma_offset_text(offset as nat);
    let pairs = hex_pairs(bytes);
    let padded = pad_right(pairs, 48, ' ');
    let row = hex_row(offset, bytes);
    assert(row.subrange(0, 8) == shown);
    assert(row.subrange(10 + 3 * i, 12 + 3 * i) == pairs.subrange(3 * i, 3 * i + 2));
}

proof fn lemma_offset_text(offset: nat)
    requires
        offset < 0x1_0000_0000,
    ensures
        pad_left(hex(offset), 8, '0').len() == 8,
        is_offset(pad_left(hex(offset), 8, '0'), offset as int),
{
    crate::finding_laws::lemma_offset(offset);
    assert(power(16, 8) == 0x1_0000_0000) by {
        reveal_with_fuel(power, 9);
    }
    lemma_hex_len(offset, 8);
}

proof fn lemma_hex_len(n: nat, width: nat)
    requires
        n < power(16, width),
        width > 0,
    ensures
        hex(n).len() <= width,
    decreases width,
{
    if n >= 16 {
        assert(width > 1) by {
            if width == 1 {
                reveal_with_fuel(power, 2);
            }
        }
        let p = power(16, (width - 1) as nat);
        assert(n / 16 < p) by (nonlinear_arith)
            requires
                n < 16 * p,
        ;
        lemma_hex_len((n / 16) as nat, (width - 1) as nat);
    }
}

/// The rows of the view follow each other, sixteen bytes to a row, from the row that is
/// scrolled to on.
pub proof fn law_hex_rows_show_all_bytes(bytes: Seq<u8>, offset: int, row: int, n: int, k: int)
    requires
        0 <= row,
        0 <= k < n,
        16 * (row + k) < bytes.len(),
    ensures
        k < hex_rows(bytes, offset, row, n).len() <= n,
        hex_rows(bytes, offset, row, n)[k] == hex_row(
            offset + 16 * (row + k),
            bytes.subrange(
                16 * (row + k),
                if 16 * (row + k) + 16 <= bytes.len() {
                    16 * (row + k) + 16
                } else {
                    bytes.len() as int
                },
            ),
        ),
    decreases n,
{
    if k > 0 {
        law_hex_rows_show_all_bytes(bytes, offset, row + 1, n - 1, k - 1);
        assert(hex_rows(bytes, offset, row, n)[k] == hex_rows(bytes, offset, row + 1, n - 1)[k - 1]);
    } else {
        lemma_rows_len(bytes, offset, row + 1, n - 1);
    }
}

proof fn lemma_rows_len(bytes: Seq<u8>, offset: int, row: int, n: int)
    ensures
        hex_rows(bytes, offset, row, n).len() <= if n > 0 {
            n
        } else {
            0
        },
    decreases n,
{
    if n > 0 {
        lemma_rows_len(bytes, offset, row + 1, n - 1);
    }
}

/// The cursor of a menu moves one row at a time and stops at either end.
pub proof fn law_cursor_moves_by_a_row(cursor: usize, len: int)
    requires
        cursor < len <= usize::MAX,
    ensures
        row_down(cursor, len) == if cursor == len - 1 {
            cursor as int
        } else {
            cursor + 1
        },
        row_up(cursor) == if cursor == 0 {
            0
        } else {
            cursor - 1
        },
{
}

/// A help text moves by a line or by ten, not above its first line, and the keys that leave it
/// do.
pub proof fn law_help_moves(scroll: u16, closing: char)
    requires
        scroll <= u16::MAX - 10,
    ensures
        help_scroll(scroll, Key::Down, closing) == Some((scroll + 1) as u16),
        help_scroll(scroll, Key::PageDown, closing) == Some((scroll + 10) as u16),
        scroll >= 1 ==> help_scroll(scroll, Key::Up, closing) == Some((scroll - 1) as u16),
        scroll >= 10 ==> help_scroll(scroll, Key::PageUp, closing) == Some((scroll - 10) as u16),
        scroll < 10 ==> help_scroll(scroll, Key::PageUp, closing) == Some(0u16),
        help_scroll(0, Key::Up, closing) == Some(0u16),
        help_scroll(scroll, Key::Esc, closing) is None,
        help_scroll(scroll, Key::Enter, closing) is None,
        help_scroll(scroll, Key::Char('q'), closing) is None,
        help_scroll(scroll, Key::Char(closing), closing) is None,
{
}

} // verus!
