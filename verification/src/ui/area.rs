//! Parts of the screen.

use crate::arith;
use ratatui::layout::{Constraint, Direction, Layout, Rect};
use vstd::prelude::*;

verus! {

/// A part of the screen.
#[derive(Debug, Clone, Copy, PartialEq, Eq, Structural)]
pub struct Area {
    pub x: u16,
    pub y: u16,
    pub width: u16,
    pub height: u16,
}

/// The sum of two coordinates, as far as a coordinate goes.
pub open spec fn capped(a: int, b: int) -> int {
    if a + b > 65535 {
        65535
    } else {
        a + b
    }
}

impl Area {
    /// The first column to the right of the area.
    pub open spec fn end_x(self) -> int {
        capped(self.x as int, self.width as int)
    }

    /// The first row below the area.
    pub open spec fn end_y(self) -> int {
        capped(self.y as int, self.height as int)
    }

    /// The last column that a cursor is kept to.
    pub open spec fn last_x(self) -> int {
        arith::less(self.end_x(), 1)
    }

    pub fn right(&self) -> (r: u16)
        ensures
            r == self.end_x(),
    {
        self.x.saturating_add(self.width)
    }

    pub fn bottom(&self) -> (r: u16)
        ensures
            r == self.end_y(),
    {
        self.y.saturating_add(self.height)
    }

    /// Whether a place lies in the area.
    pub open spec fn has(self, x: int, y: int) -> bool {
        self.x <= x < self.end_x() && self.y <= y < self.end_y()
    }

    /// A place, where it lies in the area.
    pub open spec fn place(self, x: int, y: int) -> Option<(u16, u16)> {
        if self.has(x, y) {
            Some((x as u16, y as u16))
        } else {
            None
        }
    }

    pub fn place_at(&self, x: u128, y: u128) -> (r: Option<(u16, u16)>)
        ensures
            r == self.place(x as int, y as int),
    {
        if self.x as u128 <= x && x < self.right() as u128 && self.y as u128 <= y && y < self.bottom() as u128 {
            Some((x as u16, y as u16))
        } else {
            None
        }
    }

    /// A column, kept to the last one of the area.
    pub open spec fn kept_x(self, x: int) -> int {
        if x > self.last_x() {
            self.last_x()
        } else {
            x
        }
    }

    pub fn keep_x(&self, x: u128) -> (r: u16)
        ensures
            r == self.kept_x(x as int),
    {
        let last: u16 = self.right().saturating_sub(1);
        if x > last as u128 {
            last
        } else {
            x as u16
        }
    }

    /// What a border on all sides leaves of the area.
    pub open spec fn framed(self) -> Area {
        Area {
            x: if self.x + 1 < self.end_x() {
                (self.x + 1) as u16
            } else {
                self.end_x() as u16
            },
            y: if self.y + 1 < self.end_y() {
                (self.y + 1) as u16
            } else {
                self.end_y() as u16
            },
            width: arith::less(self.width as int, 2) as u16,
            height: arith::less(self.height as int, 2) as u16,
        }
    }

    pub fn inner(&self) -> (r: Area)
        ensures
            r == self.framed(),
    {
        let x: u16 = self.x.saturating_add(1);
        let y: u16 = self.y.saturating_add(1);
        Area {
            x: if x < self.right() {
                x
            } else {
                self.right()
            },
            y: if y < self.bottom() {
                y
            } else {
                self.bottom()
            },
            width: self.width.saturating_sub(2),
            height: self.height.saturating_sub(2),
        }
    }
}

/// The rows that the heights from the `i`-th on ask for.
pub open spec fn rows_from(heights: Seq<u16>, i: int) -> int
    decreases heights.len() - i,
{
    if 0 <= i < heights.len() {
        heights[i] + rows_from(heights, i + 1)
    } else {
        0
    }
}

/// `ratatui::layout::Layout::split`, from top to bottom, of a part of at least
/// `least` rows and parts of the given heights. There is one area for each part,
/// as wide as the whole and inside it. Where all of it fits, the first part takes
/// the rows that the others leave, and the others follow with the heights they
/// ask for and no gap. Parts that do not fit are left open but for that they lie
/// inside: which of them gives way is up to the solver's weights.
#[verifier::external_body]
pub(crate) fn stack(area: Area, least: u16, heights: &Vec<u16>) -> (r: Vec<Area>)
    ensures
        r@.len() == heights@.len() + 1,
        forall|i: int| 0 <= i < r@.len() ==> (#[trigger] r@[i]).x == area.x && r@[i].width == area.width,
        forall|i: int|
            0 <= i < r@.len() ==> area.y <= (#[trigger] r@[i]).y && r@[i].y + r@[i].height <= area.end_y(),
        least + rows_from(heights@, 0) <= area.height && area.y + area.height <= 65535 ==> {
            &&& r@[0].y == area.y
            &&& r@[0].height == area.height - rows_from(heights@, 0)
            &&& forall|i: int|
                0 < i < r@.len() ==> (#[trigger] r@[i]).height == heights@[i - 1] && r@[i].y == area.y + area.height
                    - rows_from(heights@, i - 1)
        },
{
    let mut parts = vec![Constraint::Min(least)];
    parts.extend(heights.iter().map(|h| Constraint::Length(*h)));
    let whole = Rect { x: area.x, y: area.y, width: area.width, height: area.height };
    let split = Layout::default().direction(Direction::Vertical).constraints(parts).split(whole);
    split.iter().map(|r| Area { x: r.x, y: r.y, width: r.width, height: r.height }).collect()
}

} // verus!
