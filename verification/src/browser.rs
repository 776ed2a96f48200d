//! The interactive view of transactions: what each key press does, and the
//! text the view shows.

use crate::amount::{two_place_text, Amount};
use crate::period::{
    chrono_format_date, iso_date_text, period_name, range_text, DateRange, TimePeriod,
};
use crate::transaction::Transaction;
use vstd::prelude::*;

verus! {

/// The keys the view tells apart.
#[derive(Clone, Copy, Debug, PartialEq, Eq, Structural)]
pub enum KeyCode {
    Char(char),
    Esc,
    Up,
    Down,
    Home,
    End,
    Other,
}

/// The modifier keys held: shift, control, alt, and any other.
#[derive(Clone, Copy, Debug, PartialEq, Eq, Structural)]
pub struct Modifiers {
    pub shift: bool,
    pub control: bool,
    pub alt: bool,
    pub other: bool,
}

/// A key event: the key, the modifiers held, and whether the key went down
/// (rather than being released or repeated).
#[derive(Clone, Copy, Debug, PartialEq, Eq, Structural)]
pub struct KeyPress {
    pub code: KeyCode,
    pub modifiers: Modifiers,
    pub is_press: bool,
}

/// What the view does in answer to a key.
#[derive(Clone, Copy, Debug, PartialEq, Eq, Structural)]
pub enum Action {
    Quit,
    ScrollDown(u16),
    ScrollUp(u16),
    SelectNext,
    SelectPrevious,
    SelectFirst,
    SelectLast,
    Nothing,
}

/// Rows scrolled by one page.
pub const PAGE: u16 = 10;

/// Control held and no other modifier.
pub open spec fn control_only(m: Modifiers) -> bool {
    m.control && !m.shift && !m.alt && !m.other
}

/// Alt held and no other modifier.
pub open spec fn alt_only(m: Modifiers) -> bool {
    m.alt && !m.shift && !m.control && !m.other
}

/// The answer to a key event: nothing unless the key went down; `q` or
/// escape, or control-`c` alone, quit; alt-down and alt-up alone scroll a page;
/// down or `j`, up or `k`, home or `g`, end or `G` move the selection.
pub open spec fn action_for(k: KeyPress) -> Action {
    if !k.is_press {
        Action::Nothing
    } else {
        match k.code {
            KeyCode::Char('q') => Action::Quit,
            KeyCode::Esc => Action::Quit,
            KeyCode::Char('c') => if control_only(k.modifiers) {
                Action::Quit
            } else {
                Action::Nothing
            },
            KeyCode::Down => if alt_only(k.modifiers) {
                Action::ScrollDown(PAGE)
            } else {
                Action::SelectNext
            },
            KeyCode::Up => if alt_only(k.modifiers) {
                Action::ScrollUp(PAGE)
            } else {
                Action::SelectPrevious
            },
            KeyCode::Char('j') => Action::SelectNext,
            KeyCode::Char('k') => Action::SelectPrevious,
            KeyCode::Home => Action::SelectFirst,
            KeyCode::Char('g') => Action::SelectFirst,
            KeyCode::End => Action::SelectLast,
            KeyCode::Char('G') => Action::SelectLast,
            _ => Action::Nothing,
        }
    }
}

/// The answer to a key event (`action_for`).
pub fn key_action(k: KeyPress) -> (r: Action)
    ensures
        r == action_for(k),
{
    if !k.is_press {
        return Action::Nothing;
    }
    let m = k.modifiers;
    let control_only = m.control && !m.shift && !m.alt && !m.other;
    let alt_only = m.alt && !m.shift && !m.control && !m.other;
    match k.code {
        KeyCode::Char('q') | KeyCode::Esc => Action::Quit,
        KeyCode::Char('c') => if control_only {
            Action::Quit
        } else {
            Action::Nothing
        },
        KeyCode::Down => if alt_only {
            Action::ScrollDown(PAGE)
        } else {
            Action::SelectNext
        },
        KeyCode::Up => if alt_only {
            Action::ScrollUp(PAGE)
        } else {
            Action::SelectPrevious
        },
        KeyCode::Char('j') => Action::SelectNext,
        KeyCode::Char('k') => Action::SelectPrevious,
        KeyCode::Home | KeyCode::Char('g') => Action::SelectFirst,
        KeyCode::End | KeyCode::Char('G') => Action::SelectLast,
        _ => Action::Nothing,
    }
}

/// The heading of the view: the period's name and its range, with a middle
/// dot between them; "All time" without a range.
pub open spec fn heading_text(period: TimePeriod, range: Option<DateRange>) -> Seq<char> {
    match range {
        Some(r) => period_name(period) + " \u{b7} "@ + range_text(r),
        None => "All time"@,
    }
}

/// The heading of the view (`heading_text`).
pub fn heading(period: TimePeriod, range: Option<DateRange>) -> (r: String)
    requires
        range matches Some(rg) ==> rg.start.wf() && rg.end.wf(),
    ensures
        r@ == heading_text(period, range),
{
    match range {
        Some(rg) => {
            let mut s = String::new();
            s.append(period.name());
            s.append(" \u{b7} ");
            s.append(rg.to_display_string().as_str());
            s
        },
        None => String::from_str("All time"),
    }
}

/// The cells of a transaction's row in the view.
pub struct RowCells {
    /// The date in ISO form.
    pub date: String,
    /// The amount with two places.
    pub amount: String,
    /// The amount is below zero (shown in red; others in green).
    pub negative: bool,
    pub category: String,
    pub description: String,
}

/// The cells of a transaction's row: ISO date, amount with two places, whether
/// it is below zero, category and description.
pub fn row_cells(t: &Transaction) -> (r: RowCells)
    requires
        t.date.wf(),
        t.amount.wf(),
    ensures
        r.date@ == iso_date_text(t.date),
        r.amount@ == two_place_text(t.amount),
        r.negative == (t.amount.key() < 0),
        r.category@ == t.category@,
        r.description@ == t.description@,
{
    RowCells {
        date: chrono_format_date(t.date, "%Y-%m-%d"),
        amount: t.amount.to_two_place_text(),
        negative: t.amount.is_negative(),
        category: t.category.clone(),
        description: t.description.clone(),
    }
}

/// Keys that move the selection or quit do so whatever modifiers are held:
/// End and `G` select the last row, Home and `g` the first, `j` the next, `k`
/// the previous; `q` and escape quit. (Upper-case letters come with shift.)
pub proof fn law_keys_ignore_modifiers(m: Modifiers)
    ensures
        action_for(KeyPress { code: KeyCode::Char('G'), modifiers: m, is_press: true })
            == Action::SelectLast,
        action_for(KeyPress { code: KeyCode::End, modifiers: m, is_press: true })
            == Action::SelectLast,
        action_for(KeyPress { code: KeyCode::Char('g'), modifiers: m, is_press: true })
            == Action::SelectFirst,
        action_for(KeyPress { code: KeyCode::Home, modifiers: m, is_press: true })
            == Action::SelectFirst,
        action_for(KeyPress { code: KeyCode::Char('j'), modifiers: m, is_press: true })
            == Action::SelectNext,
        action_for(KeyPress { code: KeyCode::Char('k'), modifiers: m, is_press: true })
            == Action::SelectPrevious,
        action_for(KeyPress { code: KeyCode::Char('q'), modifiers: m, is_press: true })
            == Action::Quit,
        action_for(KeyPress { code: KeyCode::Esc, modifiers: m, is_press: true }) == Action::Quit,
        !m.alt ==> action_for(KeyPress { code: KeyCode::Down, modifiers: m, is_press: true })
            == Action::SelectNext,
        !m.alt ==> action_for(KeyPress { code: KeyCode::Up, modifiers: m, is_press: true })
            == Action::SelectPrevious,
{
}

/// A heading with a range starts with the English name of its period, so
/// headings of different periods differ, whatever their ranges.
pub proof fn law_heading_names_its_period(p: TimePeriod, r: DateRange)
    ensures
        p == TimePeriod::Weekly ==> heading_text(p, Some(r)).take(6) == "Weekly"@,
        p == TimePeriod::Fortnightly ==> heading_text(p, Some(r)).take(11) == "Fortnightly"@,
        p == TimePeriod::Monthly ==> heading_text(p, Some(r)).take(7) == "Monthly"@,
        p == TimePeriod::Yearly ==> heading_text(p, Some(r)).take(6) == "Yearly"@,
        forall|q: TimePeriod, r2: DateRange|
            q != p ==> #[trigger] heading_text(q, Some(r2)) != heading_text(p, Some(r)),
{
    reveal_strlit("Weekly");
    reveal_strlit("Fortnightly");
    reveal_strlit("Monthly");
    reveal_strlit("Yearly");
    let h = heading_text(p, Some(r));
    assert(h.take(period_name(p).len() as int) =~= period_name(p));
    assert(h[0] == period_name(p)[0]);
    assert forall|q: TimePeriod, r2: DateRange|
        q != p implies #[trigger] heading_text(q, Some(r2)) != heading_text(p, Some(r)) by {
        let g = heading_text(q, Some(r2));
        assert(g[0] == period_name(q)[0]);
    }
}

} // verus!
