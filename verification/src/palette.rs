//! Where a click lands on the command palette.

use vstd::prelude::*;

verus! {

/// A rectangle of terminal cells.
#[derive(Debug, Clone, Copy, PartialEq, Eq, Structural, Default)]
pub struct Area {
    pub x: u16,
    pub y: u16,
    pub width: u16,
    pub height: u16,
}

/// Whether cell (`x`, `y`) lies inside `area`.
pub open spec fn inside(area: Area, x: int, y: int) -> bool {
    area.width > 0 && area.x <= x < area.x + area.width && area.y <= y < area.y + area.height
}

/// What a click at (`x`, `y`) does while the palette is open over `area`,
/// scrolled by `offset` rows: `Some(row)` runs the row under it (when there
/// is one), `None` closes the palette, the click having landed elsewhere.
pub fn click(area: Area, offset: usize, x: u16, y: u16) -> (row: Option<usize>)
    requires
        offset + (y - area.y) <= usize::MAX,
    ensures
        match row {
            Some(r) => inside(area, x as int, y as int) && r == offset + (y - area.y),
            None => !inside(area, x as int, y as int),
        },
{
    let right = area.x as u32 + area.width as u32;
    let bottom = area.y as u32 + area.height as u32;
    let hit = area.width > 0 && area.x <= x && (x as u32) < right && area.y <= y && (y as u32) < bottom;
    if !hit {
        return None;
    }
    Some(offset + (y - area.y) as usize)
}

} // verus!
