use vstd::prelude::*;

verus! {

/// Largest value an input dimension (a preferred size, a padding, a
/// spacing, a measured size, a fill weight or an absolute coordinate) may
/// have. It is an overflow guard: with it, every sum and product the layout
/// passes form fits in 64 bits, for up to `MAX_CHILDREN` children per node.
pub const INPUT_LIMIT: i64 = 0x10_0000;

/// Largest value a computed size may reach. Sums of child sizes saturate
/// here instead of overflowing; below it every size is exact.
pub const SIZE_CAP: i64 = 0x100_0000_0000;

/// Largest available size handed to the layout passes.
pub const SPACE_LIMIT: i64 = 0x400_0000_0000;

/// Lowest available size handed to the layout passes.
pub const SPACE_FLOOR: i64 = -0x4000_0000_0000_0000;

pub open spec fn sat(x: int) -> int {
    if x > SIZE_CAP as int { SIZE_CAP as int } else { x }
}

/// Adds two non-negative sizes, saturating at `SIZE_CAP`.
pub fn sat_add(a: i64, b: i64) -> (r: i64)
    requires
        0 <= a <= SIZE_CAP,
        0 <= b <= SIZE_CAP,
    ensures
        r == sat(a + b),
{
    let s = a + b;
    if s > SIZE_CAP { SIZE_CAP } else { s }
}

pub open spec fn max_int(a: int, b: int) -> int {
    if a >= b { a } else { b }
}

pub open spec fn min_int(a: int, b: int) -> int {
    if a <= b { a } else { b }
}

/// A resolved width and height.
#[derive(Clone, Copy, Debug, PartialEq, Eq, Structural)]
pub struct Size {
    pub width: i64,
    pub height: i64,
}

impl Size {
    pub fn new(width: i64, height: i64) -> (r: Size)
        ensures
            r.width == width,
            r.height == height,
    {
        Size { width, height }
    }

    pub open spec fn in_cap(self) -> bool {
        0 <= self.width <= SIZE_CAP && 0 <= self.height <= SIZE_CAP
    }

    pub open spec fn spec_with_padding(self, p: Padding) -> Size {
        Size {
            width: sat(self.width + p.h_padding()) as i64,
            height: sat(self.height + p.v_padding()) as i64,
        }
    }

    /// This size grown by the padding on each side, saturating at `SIZE_CAP`.
    pub fn with_padding(&self, p: &Padding) -> (r: Size)
        requires
            self.in_cap(),
            p.wf(),
        ensures
            r == self.spec_with_padding(*p),
            r.in_cap(),
    {
        let w = sat_add(self.width, p.left + p.right);
        let h = sat_add(self.height, p.top + p.bottom);
        Size { width: w, height: h }
    }

    pub open spec fn spec_without_padding(self, p: Padding) -> Size {
        Size {
            width: (self.width - p.h_padding()) as i64,
            height: (self.height - p.v_padding()) as i64,
        }
    }

    /// This size shrunk by the padding on each side; the result may be negative.
    pub fn without_padding(&self, p: &Padding) -> (r: Size)
        requires
            SPACE_FLOOR <= self.width <= SPACE_LIMIT,
            SPACE_FLOOR <= self.height <= SPACE_LIMIT,
            p.wf(),
        ensures
            r == self.spec_without_padding(*p),
    {
        Size { width: self.width - (p.left + p.right), height: self.height - (p.top + p.bottom) }
    }
}

/// A user-requested size; an unset dimension defers to the content.
#[derive(Clone, Copy, Debug, PartialEq, Eq, Structural)]
pub struct PreferredSize {
    pub width: Option<i64>,
    pub height: Option<i64>,
}

pub open spec fn dim_ok(d: Option<i64>) -> bool {
    match d {
        Some(v) => 0 <= v <= INPUT_LIMIT,
        None => true,
    }
}

/// One dimension of the floor merge: an unset preference takes the computed
/// value; a set one is a floor under it.
pub open spec fn merge_dim(preferred: Option<i64>, computed: int) -> int {
    match preferred {
        Some(p) => max_int(p as int, computed),
        None => computed,
    }
}

fn merge_one(preferred: Option<i64>, computed: i64) -> (r: i64)
    ensures
        r == merge_dim(preferred, computed as int),
{
    match preferred {
        Some(p) => if p >= computed { p } else { computed },
        None => computed,
    }
}

impl PreferredSize {
    pub fn empty() -> (r: PreferredSize)
        ensures
            r.width is None,
            r.height is None,
    {
        PreferredSize { width: None, height: None }
    }

    pub open spec fn wf(self) -> bool {
        dim_ok(self.width) && dim_ok(self.height)
    }

    pub open spec fn spec_replace_empty_dimensions_and_max(self, computed: Size) -> Size {
        Size {
            width: merge_dim(self.width, computed.width as int) as i64,
            height: merge_dim(self.height, computed.height as int) as i64,
        }
    }

    /// Resolves this preference against a computed content size: unset
    /// dimensions take the computed value, set ones are the larger of the two.
    pub fn replace_empty_dimensions_and_max(&self, computed: &Size) -> (r: Size)
        ensures
            r == self.spec_replace_empty_dimensions_and_max(*computed),
    {
        Size { width: merge_one(self.width, computed.width), height: merge_one(self.height, computed.height) }
    }
}

/// The user preference is a floor, never a cap: the merged size is at least
/// the computed size in each dimension, and equals a set preference that is
/// at least the computed value.
pub proof fn lemma_floor_merge(p: PreferredSize, c: Size)
    ensures
        p.spec_replace_empty_dimensions_and_max(c).width >= c.width,
        p.spec_replace_empty_dimensions_and_max(c).height >= c.height,
        p.width is Some && p.width->0 >= c.width ==> p.spec_replace_empty_dimensions_and_max(c).width == p.width->0,
        p.height is Some && p.height->0 >= c.height ==> p.spec_replace_empty_dimensions_and_max(c).height == p.height->0,
        p.width is None ==> p.spec_replace_empty_dimensions_and_max(c).width == c.width,
        p.height is None ==> p.spec_replace_empty_dimensions_and_max(c).height == c.height,
{
}

/// Insets on each edge.
#[derive(Clone, Copy, Debug, PartialEq, Eq, Structural)]
pub struct Padding {
    pub left: i64,
    pub right: i64,
    pub top: i64,
    pub bottom: i64,
}

impl Padding {
    pub open spec fn uniform_spec(v: i64) -> Padding {
        Padding { left: v, right: v, top: v, bottom: v }
    }

    #[verifier::when_used_as_spec(uniform_spec)]
    pub fn uniform(v: i64) -> (r: Padding)
        ensures
            r == Padding::uniform_spec(v),
    {
        Padding { left: v, right: v, top: v, bottom: v }
    }

    pub open spec fn wf(self) -> bool {
        0 <= self.left <= INPUT_LIMIT && 0 <= self.right <= INPUT_LIMIT
            && 0 <= self.top <= INPUT_LIMIT && 0 <= self.bottom <= INPUT_LIMIT
    }

    pub open spec fn h_padding(self) -> int {
        self.left + self.right
    }

    pub open spec fn v_padding(self) -> int {
        self.top + self.bottom
    }
}

/// Participation of a widget in the distribution of its parent's leftover space.
#[derive(Clone, Copy, Debug, PartialEq, Eq, Structural)]
pub enum Fill {
    Disabled,
    Enabled { weight: i64 },
}

impl Fill {
    pub open spec fn wf(self) -> bool {
        match self {
            Fill::Disabled => true,
            Fill::Enabled { weight } => 0 <= weight <= INPUT_LIMIT,
        }
    }

    pub open spec fn spec_weight(self) -> int {
        match self {
            Fill::Disabled => 0,
            Fill::Enabled { weight } => weight as int,
        }
    }

    pub fn is_enabled(&self) -> (r: bool)
        ensures
            r == (*self is Enabled),
    {
        match self {
            Fill::Disabled => false,
            Fill::Enabled { .. } => true,
        }
    }
}

/// A requested coordinate on one axis: absolute, or left to the parent's flow.
#[derive(Clone, Copy, Debug, PartialEq, Eq, Structural)]
pub enum Coordinate {
    Absolute(i64),
    Flow,
}

impl Coordinate {
    pub open spec fn wf(self) -> bool {
        match self {
            Coordinate::Absolute(v) => -INPUT_LIMIT <= v <= INPUT_LIMIT,
            Coordinate::Flow => true,
        }
    }
}

/// A requested placement, one coordinate per axis.
#[derive(Clone, Copy, Debug, PartialEq, Eq, Structural)]
pub struct Position {
    pub x: Coordinate,
    pub y: Coordinate,
}

impl Position {
    pub open spec fn wf(self) -> bool {
        self.x.wf() && self.y.wf()
    }
}

/// An offset or a point, relative to some origin.
#[derive(Clone, Copy, Debug, PartialEq, Eq, Structural)]
pub struct Point {
    pub x: i64,
    pub y: i64,
}

/// A rectangle relative to some origin.
#[derive(Clone, Copy, Debug, PartialEq, Eq, Structural)]
pub struct Rect {
    pub x: i64,
    pub y: i64,
    pub width: i64,
    pub height: i64,
}

impl Rect {
    pub open spec fn zero_spec() -> Rect {
        Rect { x: 0, y: 0, width: 0, height: 0 }
    }

    pub fn zero() -> (r: Rect)
        ensures
            r == Rect::zero_spec(),
    {
        Rect { x: 0, y: 0, width: 0, height: 0 }
    }
}

} // verus!
