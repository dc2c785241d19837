use vstd::prelude::*;
use crate::cursor::CursorTracker;
use crate::margin::Margin;
use crate::padding::Padding;
use crate::position::Position;
use crate::size::Size;

verus! {

/// Which insets participate when the bounds of a component are derived
/// from its position and size.
#[derive(Debug, Default, Clone, Copy, PartialEq, Eq, Hash, Structural)]
pub enum BoundarySizingMode {
    /// Ignore margin and padding entirely.
    ContentBox,
    /// Subtract only the padding.
    #[default]
    BorderBox,
    /// Subtract margin and padding combined on each side.
    MarginBox,
}

/// The rectangle a component occupies, as four corner positions in
/// clockwise order:
///
/// ```text
///   p0-------------p1
///   |               |
///   |               |
///   p3-------------p2
/// ```
///
/// Derived data: never constructed independently of the calculator.
#[derive(Debug, Clone, Copy, PartialEq, Eq, Hash, Structural)]
pub struct Boundaries {
    pub p0: Position,
    pub p1: Position,
    pub p2: Position,
    pub p3: Position,
}

/// An exact coordinate value clamped into the `u16` range. Coordinates are
/// non-negative bounded integers, so an inset total exceeding the
/// corresponding dimension clamps to zero (a degenerate rectangle) rather
/// than wrapping around or failing.
pub open spec fn sat16(v: int) -> u16 {
    if v < 0 {
        0u16
    } else if v > 0xffff {
        0xffffu16
    } else {
        v as u16
    }
}

/// The left inset that participates under `mode`.
pub open spec fn inset_left(margin: Margin, padding: Padding, mode: BoundarySizingMode) -> int {
    match mode {
        BoundarySizingMode::ContentBox => 0,
        BoundarySizingMode::BorderBox => padding.left as int,
        BoundarySizingMode::MarginBox => margin.left + padding.left,
    }
}

/// The top inset that participates under `mode`.
pub open spec fn inset_top(margin: Margin, padding: Padding, mode: BoundarySizingMode) -> int {
    match mode {
        BoundarySizingMode::ContentBox => 0,
        BoundarySizingMode::BorderBox => padding.top as int,
        BoundarySizingMode::MarginBox => margin.top + padding.top,
    }
}

/// The right inset that participates under `mode`.
pub open spec fn inset_right(margin: Margin, padding: Padding, mode: BoundarySizingMode) -> int {
    match mode {
        BoundarySizingMode::ContentBox => 0,
        BoundarySizingMode::BorderBox => padding.right as int,
        BoundarySizingMode::MarginBox => margin.right + padding.right,
    }
}

/// The bottom inset that participates under `mode`.
pub open spec fn inset_bottom(margin: Margin, padding: Padding, mode: BoundarySizingMode) -> int {
    match mode {
        BoundarySizingMode::ContentBox => 0,
        BoundarySizingMode::BorderBox => padding.bottom as int,
        BoundarySizingMode::MarginBox => margin.bottom + padding.bottom,
    }
}

/// The bounds of a component under the given sizing mode: the top edge sits
/// at `y` plus the participating top inset, the left edge at `x` plus the
/// participating left inset, the right edge at `x + width` minus the
/// participating right inset, and the bottom edge at `y + height` minus the
/// participating bottom inset, every coordinate clamped into the `u16` range.
pub open spec fn boundaries_for(
    position: Position,
    size: Size,
    margin: Margin,
    padding: Padding,
    mode: BoundarySizingMode,
) -> Boundaries {
    let left = sat16(position.x + inset_left(margin, padding, mode));
    let top = sat16(position.y + inset_top(margin, padding, mode));
    let right = sat16(position.x + size.width - inset_right(margin, padding, mode));
    let bottom = sat16(position.y + size.height - inset_bottom(margin, padding, mode));
    Boundaries {
        p0: Position { x: left, y: top },
        p1: Position { x: right, y: top },
        p2: Position { x: right, y: bottom },
        p3: Position { x: left, y: bottom },
    }
}

/// `sat16(a + b - c)` computed on machine integers.
fn sat_coord(a: u32, b: u32, c: u32) -> (r: u16)
    requires
        a <= 0xffff,
        b <= 0x1fffe,
        c <= 0x1fffe,
    ensures
        r == sat16(a + b - c),
{
    let sum = a + b;
    let v = if sum > c {
        sum - c
    } else {
        0
    };
    if v > 0xffff {
        0xffffu16
    } else {
        v as u16
    }
}

/// The boundary calculator: a pure function from geometry and sizing mode
/// to the four clockwise corners.
pub fn calculate_boundaries(
    position: Position,
    size: Size,
    margin: Margin,
    padding: Padding,
    mode: BoundarySizingMode,
) -> (b: Boundaries)
    ensures
        b == boundaries_for(position, size, margin, padding, mode),
{
    let (il, it, ir, ib): (u32, u32, u32, u32) = match mode {
        BoundarySizingMode::ContentBox => (0, 0, 0, 0),
        BoundarySizingMode::BorderBox => (
            padding.left as u32,
            padding.top as u32,
            padding.right as u32,
            padding.bottom as u32,
        ),
        BoundarySizingMode::MarginBox => (
            margin.left as u32 + padding.left as u32,
            margin.top as u32 + padding.top as u32,
            margin.right as u32 + padding.right as u32,
            margin.bottom as u32 + padding.bottom as u32,
        ),
    };
    let left = sat_coord(position.x as u32, il, 0);
    let top = sat_coord(position.y as u32, it, 0);
    let right = sat_coord(position.x as u32, size.width as u32, ir);
    let bottom = sat_coord(position.y as u32, size.height as u32, ib);
    Boundaries {
        p0: Position { x: left, y: top },
        p1: Position { x: right, y: top },
        p2: Position { x: right, y: bottom },
        p3: Position { x: left, y: bottom },
    }
}

impl Boundaries {
    pub fn new(p0: Position, p1: Position, p2: Position, p3: Position) -> (b: Boundaries)
        ensures
            b == (Boundaries { p0, p1, p2, p3 }),
    {
        Boundaries { p0, p1, p2, p3 }
    }

    /// Whether the tracked cursor lies inside this rectangle, edges included.
    pub fn inside_boundary(&self, cursor: CursorTracker) -> (r: bool)
        ensures
            r == (self.p0.x <= cursor.cursor_position.x <= self.p2.x
                && self.p0.y <= cursor.cursor_position.y <= self.p2.y),
    {
        let cursor_pos = cursor.current_position();
        cursor_pos.x() >= self.p0.x && cursor_pos.x() <= self.p2.x && cursor_pos.y() >= self.p0.y
            && cursor_pos.y() <= self.p2.y
    }
}

/// Under `BorderBox` with zero margin, the top-left corner sits at
/// `(x + padding.left, y + padding.top)` and the bottom-right corner at
/// `(x + width - padding.right, y + height - padding.bottom)`, whenever
/// those quantities lie in the coordinate range.
pub proof fn lemma_border_box_corners(position: Position, size: Size, margin: Margin, padding: Padding)
    requires
        margin == (Margin { top: 0, right: 0, bottom: 0, left: 0 }),
        position.x + padding.left <= 0xffff,
        position.y + padding.top <= 0xffff,
        0 <= position.x + size.width - padding.right <= 0xffff,
        0 <= position.y + size.height - padding.bottom <= 0xffff,
    ensures
        boundaries_for(position, size, margin, padding, BoundarySizingMode::BorderBox).p0
            == (Position { x: (position.x + padding.left) as u16, y: (position.y + padding.top) as u16 }),
        boundaries_for(position, size, margin, padding, BoundarySizingMode::BorderBox).p2
            == (Position {
                x: (position.x + size.width - padding.right) as u16,
                y: (position.y + size.height - padding.bottom) as u16,
            }),
{
}

/// Under `ContentBox` the bounds run from `(x, y)` to `(x + width, y + height)`
/// regardless of the margin and padding values, whenever those sums lie in
/// the coordinate range.
pub proof fn lemma_content_box_ignores_insets(
    position: Position,
    size: Size,
    margin_a: Margin,
    padding_a: Padding,
    margin_b: Margin,
    padding_b: Padding,
)
    requires
        position.x + size.width <= 0xffff,
        position.y + size.height <= 0xffff,
    ensures
        boundaries_for(position, size, margin_a, padding_a, BoundarySizingMode::ContentBox)
            == (Boundaries {
                p0: Position { x: position.x, y: position.y },
                p1: Position { x: (position.x + size.width) as u16, y: position.y },
                p2: Position {
                    x: (position.x + size.width) as u16,
                    y: (position.y + size.height) as u16,
                },
                p3: Position { x: position.x, y: (position.y + size.height) as u16 },
            }),
        boundaries_for(position, size, margin_a, padding_a, BoundarySizingMode::ContentBox)
            == boundaries_for(position, size, margin_b, padding_b, BoundarySizingMode::ContentBox),
{
}

/// Under `MarginBox` every corner subtracts margin and padding combined on
/// its side: the top-left corner sits at `(x + margin.left + padding.left,
/// y + margin.top + padding.top)` and the bottom-right corner at
/// `(x + width - margin.right - padding.right, y + height - margin.bottom -
/// padding.bottom)`, whenever those quantities lie in the coordinate range.
pub proof fn lemma_margin_box_corners(position: Position, size: Size, margin: Margin, padding: Padding)
    requires
        position.x + margin.left + padding.left <= 0xffff,
        position.y + margin.top + padding.top <= 0xffff,
        0 <= position.x + size.width - margin.right - padding.right <= 0xffff,
        0 <= position.y + size.height - margin.bottom - padding.bottom <= 0xffff,
    ensures
        boundaries_for(position, size, margin, padding, BoundarySizingMode::MarginBox)
            == (Boundaries {
                p0: Position {
                    x: (position.x + margin.left + padding.left) as u16,
                    y: (position.y + margin.top + padding.top) as u16,
                },
                p1: Position {
                    x: (position.x + size.width - margin.right - padding.right) as u16,
                    y: (position.y + margin.top + padding.top) as u16,
                },
                p2: Position {
                    x: (position.x + size.width - margin.right - padding.right) as u16,
                    y: (position.y + size.height - margin.bottom - padding.bottom) as u16,
                },
                p3: Position {
                    x: (position.x + margin.left + padding.left) as u16,
                    y: (position.y + size.height - margin.bottom - padding.bottom) as u16,
                },
            }),
{
}

/// When the participating right inset exceeds `x + width`, the right-edge
/// coordinates clamp at zero instead of underflowing; likewise for the
/// bottom edge.
pub proof fn lemma_insets_clamp_to_zero(
    position: Position,
    size: Size,
    margin: Margin,
    padding: Padding,
    mode: BoundarySizingMode,
)
    ensures
        position.x + size.width < inset_right(margin, padding, mode) ==> {
            &&& boundaries_for(position, size, margin, padding, mode).p1.x == 0
            &&& boundaries_for(position, size, margin, padding, mode).p2.x == 0
        },
        position.y + size.height < inset_bottom(margin, padding, mode) ==> {
            &&& boundaries_for(position, size, margin, padding, mode).p2.y == 0
            &&& boundaries_for(position, size, margin, padding, mode).p3.y == 0
        },
{
}

} // verus!
