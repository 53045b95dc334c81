//! Splitting a screen rectangle with ratatui's layout solver.

use ratatui::layout::{Constraint, Direction, Layout, Rect};
use vstd::prelude::*;

verus! {

/// What ratatui's `Layout::split` makes of `area`, given as `(x, y, width,
/// height)`, split vertically or horizontally into three parts of the given
/// percentages, with no margin and no spacing.
pub uninterp spec fn layout_split(vertical: bool, p: (u16, u16, u16), area: (u16, u16, u16, u16)) -> Seq<
    (u16, u16, u16, u16),
>;

/// `Layout::split` with three `Constraint::Percentage` constraints in the
/// given direction. Its source builds one segment per constraint, so three
/// rectangles come back; which rectangles is the named result. The solver
/// only adds constraints that the area can always meet, so it does not fail.
#[verifier::external_body]
pub(crate) fn split_percentages(vertical: bool, p: (u16, u16, u16), area: (u16, u16, u16, u16)) -> (r: Vec<
    (u16, u16, u16, u16),
>)
    ensures
        r@ == layout_split(vertical, p, area),
        r@.len() == 3,
{
    let direction = if vertical { Direction::Vertical } else { Direction::Horizontal };
    Layout::default()
        .direction(direction)
        .constraints([Constraint::Percentage(p.0), Constraint::Percentage(p.1), Constraint::Percentage(p.2)])
        .split(Rect { x: area.0, y: area.1, width: area.2, height: area.3 })
        .iter()
        .map(|a| (a.x, a.y, a.width, a.height))
        .collect()
}

} // verus!
