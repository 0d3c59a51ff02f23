use vstd::prelude::*;
use crate::geometry::{
    Size, Fill, Coordinate, Position, Point, sat, sat_add, max_int, min_int, INPUT_LIMIT, SIZE_CAP,
    SPACE_LIMIT, SPACE_FLOOR,
};

verus! {

/// Largest number of children a container may hold.
pub const MAX_CHILDREN: usize = 0x10_0000;

/// What a container reads of one child during the size pass.
#[derive(Clone, Copy, Debug, PartialEq, Eq, Structural)]
pub struct ChildInfo {
    pub size: Size,
    pub position: Position,
    pub fill_width: Fill,
    pub fill_height: Fill,
}

impl ChildInfo {
    pub open spec fn wf(self) -> bool {
        self.size.in_cap() && self.position.wf() && self.fill_width.wf() && self.fill_height.wf()
    }
}

pub open spec fn all_in_cap(sizes: Seq<Size>) -> bool {
    forall|k: int| 0 <= k < sizes.len() ==> #[trigger] sizes[k].in_cap()
}

pub open spec fn all_wf(children: Seq<ChildInfo>) -> bool {
    forall|k: int| 0 <= k < children.len() ==> #[trigger] children[k].wf()
}

// ---------------------------------------------------------------------------
// Row (HBox) size

/// Saturated sum of the widths and maximum of the heights of `sizes`.
pub open spec fn row_fold(sizes: Seq<Size>) -> Size
    decreases sizes.len(),
{
    if sizes.len() == 0 {
        Size { width: 0, height: 0 }
    } else {
        let p = row_fold(sizes.drop_last());
        let s = sizes.last();
        Size { width: sat(p.width + s.width) as i64, height: max_int(p.height as int, s.height as int) as i64 }
    }
}

pub open spec fn spacing_total(spacing: int, n: int) -> int {
    spacing * max_int(n - 1, 0)
}

/// The content size of a row of children of the given sizes.
pub open spec fn row_content(sizes: Seq<Size>, spacing: i64) -> Size {
    let f = row_fold(sizes);
    Size { width: sat(f.width + spacing_total(spacing as int, sizes.len() as int)) as i64, height: f.height }
}

pub open spec fn sum_widths(sizes: Seq<Size>) -> int
    decreases sizes.len(),
{
    if sizes.len() == 0 { 0 } else { sum_widths(sizes.drop_last()) + sizes.last().width }
}

pub open spec fn max_heights(sizes: Seq<Size>) -> int
    decreases sizes.len(),
{
    if sizes.len() == 0 { 0 } else { max_int(max_heights(sizes.drop_last()), sizes.last().height as int) }
}

/// The content size of a row: widths summed with the spacing between
/// consecutive children, heights maximised.
pub fn row_content_size(sizes: &Vec<Size>, spacing: i64) -> (r: Size)
    requires
        all_in_cap(sizes@),
        0 <= spacing <= INPUT_LIMIT,
        sizes.len() <= MAX_CHILDREN,
    ensures
        r == row_content(sizes@, spacing),
        r.in_cap(),
{
    let mut acc = Size { width: 0, height: 0 };
    let mut k: usize = 0;
    while k < sizes.len()
        invariant
            k <= sizes.len(),
            all_in_cap(sizes@),
            acc == row_fold(sizes@.subrange(0, k as int)),
            acc.in_cap(),
        decreases sizes.len() - k,
    {
        let s = sizes[k];
        assert(sizes@.subrange(0, k + 1).drop_last() == sizes@.subrange(0, k as int));
        assert(sizes@[k as int].in_cap());
        acc = Size { width: sat_add(acc.width, s.width), height: if s.height > acc.height { s.height } else { acc.height } };
        k = k + 1;
    }
    assert(sizes@.subrange(0, sizes.len() as int) == sizes@);
    let n = sizes.len() as i64;
    let gaps: i64 = if n > 1 {
        proof {
            assert(0 <= spacing * (n - 1) <= INPUT_LIMIT * MAX_CHILDREN) by (nonlinear_arith)
                requires 0 <= spacing <= INPUT_LIMIT, 0 <= n - 1 <= MAX_CHILDREN;
        }
        spacing * (n - 1)
    } else {
        0
    };
    proof {
        let m = max_int(n - 1, 0);
        if n <= 1 {
            assert(m == 0);
            assert(spacing * m == 0) by (nonlinear_arith) requires m == 0;
        }
    }
    assert(gaps == spacing_total(spacing as int, sizes.len() as int));
    Size { width: sat_add(acc.width, gaps), height: acc.height }
}

proof fn lemma_row_fold(sizes: Seq<Size>)
    requires
        all_in_cap(sizes),
    ensures
        row_fold(sizes).width == sat(sum_widths(sizes)),
        row_fold(sizes).height == max_heights(sizes),
        sum_widths(sizes) >= 0,
        row_fold(sizes).in_cap(),
    decreases sizes.len(),
{
    if sizes.len() > 0 {
        let d = sizes.drop_last();
        assert forall|k: int| 0 <= k < d.len() implies #[trigger] d[k].in_cap() by {
            assert(d[k] == sizes[k]);
        }
        assert(sizes.last() == sizes[sizes.len() - 1]);
        assert(sizes[sizes.len() - 1].in_cap());
        lemma_row_fold(d);
    }
}

/// The width of a row is the sum of its children's widths plus the spacing
/// between consecutive children, and its height the largest child height,
/// as long as that sum stays within `SIZE_CAP`.
pub proof fn lemma_row_width_law(sizes: Seq<Size>, spacing: i64)
    requires
        all_in_cap(sizes),
        0 <= spacing <= INPUT_LIMIT,
    ensures
        sum_widths(sizes) + spacing_total(spacing as int, sizes.len() as int) <= SIZE_CAP ==>
            row_content(sizes, spacing).width == sum_widths(sizes) + spacing_total(spacing as int, sizes.len() as int),
        row_content(sizes, spacing).height == max_heights(sizes),
{
    lemma_row_fold(sizes);
    let n = sizes.len() as int;
    assert(spacing_total(spacing as int, n) >= 0) by (nonlinear_arith)
        requires spacing >= 0, max_int(n - 1, 0) >= 0, spacing_total(spacing as int, n) == spacing * max_int(n - 1, 0);
}

// ---------------------------------------------------------------------------
// Pane size

/// Along one axis: the bounding interval of the absolutely placed children
/// (`has` once there is one) and the largest extent of the flowing or
/// filling ones.
#[derive(Clone, Copy, Debug, PartialEq, Eq, Structural)]
pub struct AxisBounds {
    pub has: bool,
    pub lo: i64,
    pub hi: i64,
    pub flow: i64,
}

impl AxisBounds {
    pub open spec fn wf(self) -> bool {
        -INPUT_LIMIT <= self.lo <= INPUT_LIMIT && -INPUT_LIMIT <= self.hi <= INPUT_LIMIT + SIZE_CAP
            && 0 <= self.flow <= SIZE_CAP
    }
}

pub open spec fn axis_coord(c: ChildInfo, horizontal: bool) -> Coordinate {
    if horizontal { c.position.x } else { c.position.y }
}

pub open spec fn axis_fill(c: ChildInfo, horizontal: bool) -> Fill {
    if horizontal { c.fill_width } else { c.fill_height }
}

pub open spec fn axis_extent(c: ChildInfo, horizontal: bool) -> i64 {
    if horizontal { c.size.width } else { c.size.height }
}

/// Adds one child to the bounds of one axis: an absolute coordinate of a
/// child that does not fill the axis widens the bounding interval; anything
/// else counts toward the flow maximum.
pub open spec fn axis_step(a: AxisBounds, coord: Coordinate, fill: Fill, extent: i64) -> AxisBounds {
    match coord {
        Coordinate::Absolute(v) if fill is Disabled => if a.has {
            AxisBounds {
                has: true,
                lo: min_int(a.lo as int, v as int) as i64,
                hi: max_int(a.hi as int, v + extent) as i64,
                flow: a.flow,
            }
        } else {
            AxisBounds { has: true, lo: v, hi: (v + extent) as i64, flow: a.flow }
        },
        _ => AxisBounds { flow: max_int(a.flow as int, extent as int) as i64, ..a },
    }
}

pub open spec fn axis_fold(children: Seq<ChildInfo>, horizontal: bool) -> AxisBounds
    decreases children.len(),
{
    if children.len() == 0 {
        AxisBounds { has: false, lo: 0, hi: 0, flow: 0 }
    } else {
        let c = children.last();
        axis_step(axis_fold(children.drop_last(), horizontal), axis_coord(c, horizontal), axis_fill(c, horizontal), axis_extent(c, horizontal))
    }
}

/// The content extent of a pane along one axis: the larger of the bounding
/// interval of absolute children and the largest flowing child.
pub open spec fn axis_size(a: AxisBounds) -> int {
    sat(max_int(a.hi - a.lo, a.flow as int))
}

pub open spec fn pane_content(children: Seq<ChildInfo>) -> Size {
    Size { width: axis_size(axis_fold(children, true)) as i64, height: axis_size(axis_fold(children, false)) as i64 }
}

fn axis_step_exec(a: AxisBounds, coord: Coordinate, fill: Fill, extent: i64) -> (r: AxisBounds)
    requires
        a.wf(),
        coord.wf(),
        0 <= extent <= SIZE_CAP,
    ensures
        r == axis_step(a, coord, fill, extent),
        r.wf(),
{
    match coord {
        Coordinate::Absolute(v) => {
            if fill.is_enabled() {
                AxisBounds { flow: if extent > a.flow { extent } else { a.flow }, ..a }
            } else if a.has {
                let e = v + extent;
                AxisBounds { has: true, lo: if v < a.lo { v } else { a.lo }, hi: if e > a.hi { e } else { a.hi }, flow: a.flow }
            } else {
                AxisBounds { has: true, lo: v, hi: v + extent, flow: a.flow }
            }
        },
        Coordinate::Flow => AxisBounds { flow: if extent > a.flow { extent } else { a.flow }, ..a },
    }
}

fn axis_size_exec(a: AxisBounds) -> (r: i64)
    requires
        a.wf(),
    ensures
        r == axis_size(a),
        0 <= r <= SIZE_CAP,
{
    let span = a.hi - a.lo;
    let m = if span >= a.flow { span } else { a.flow };
    if m > SIZE_CAP { SIZE_CAP } else { m }
}

/// The content size of a pane: per axis, the larger of the bounding box of
/// its absolutely placed children and the largest of its other children.
pub fn pane_content_size(children: &Vec<ChildInfo>) -> (r: Size)
    requires
        all_wf(children@),
    ensures
        r == pane_content(children@),
        r.in_cap(),
{
    let mut ax = AxisBounds { has: false, lo: 0, hi: 0, flow: 0 };
    let mut ay = AxisBounds { has: false, lo: 0, hi: 0, flow: 0 };
    let mut k: usize = 0;
    while k < children.len()
        invariant
            k <= children.len(),
            all_wf(children@),
            ax == axis_fold(children@.subrange(0, k as int), true),
            ay == axis_fold(children@.subrange(0, k as int), false),
            ax.wf(),
            ay.wf(),
        decreases children.len() - k,
    {
        let c = children[k];
        assert(children@.subrange(0, k + 1).drop_last() == children@.subrange(0, k as int));
        assert(children@[k as int].wf());
        ax = axis_step_exec(ax, c.position.x, c.fill_width, c.size.width);
        ay = axis_step_exec(ay, c.position.y, c.fill_height, c.size.height);
        k = k + 1;
    }
    assert(children@.subrange(0, children.len() as int) == children@);
    Size { width: axis_size_exec(ax), height: axis_size_exec(ay) }
}

// ---------------------------------------------------------------------------
// Row (HBox) space distribution

/// Sum of the widths of the children that do not fill.
pub open spec fn fixed_width_sum(children: Seq<ChildInfo>) -> int
    decreases children.len(),
{
    if children.len() == 0 {
        0
    } else {
        fixed_width_sum(children.drop_last()) + if children.last().fill_width is Disabled {
            children.last().size.width as int
        } else {
            0
        }
    }
}

/// Sum of the fill weights of the children that fill.
pub open spec fn weight_sum(children: Seq<ChildInfo>) -> int
    decreases children.len(),
{
    if children.len() == 0 { 0 } else { weight_sum(children.drop_last()) + children.last().fill_width.spec_weight() }
}

/// `k * r / t`, rounded toward zero.
pub open spec fn share(k: int, r: int, t: int) -> int {
    if r >= 0 { (k * r) / t } else { -((k * -r) / t) }
}

/// The width left to the filling children of a row whose content width is `w`.
pub open spec fn leftover(children: Seq<ChildInfo>, spacing: i64, w: int) -> int {
    w - spacing_total(spacing as int, children.len() as int) - fixed_width_sum(children)
}

/// The width that child `k` of a row receives: its own width when it does
/// not fill; else its weight's share of the leftover width, the weights
/// summing to at least one.
pub open spec fn row_child_width(children: Seq<ChildInfo>, spacing: i64, w: int, k: int) -> int {
    match children[k].fill_width {
        Fill::Disabled => children[k].size.width as int,
        Fill::Enabled { weight } => share(weight as int, leftover(children, spacing, w), max_int(weight_sum(children), 1)),
    }
}

proof fn lemma_sums_bounded(children: Seq<ChildInfo>)
    requires
        all_wf(children),
    ensures
        0 <= fixed_width_sum(children) <= children.len() * SIZE_CAP,
        0 <= weight_sum(children) <= children.len() * INPUT_LIMIT,
    decreases children.len(),
{
    if children.len() > 0 {
        let d = children.drop_last();
        assert forall|k: int| 0 <= k < d.len() implies #[trigger] d[k].wf() by {
            assert(d[k] == children[k]);
        }
        assert(children[children.len() - 1].wf());
        lemma_sums_bounded(d);
    }
}

proof fn lemma_weight_le_sum(children: Seq<ChildInfo>, k: int)
    requires
        all_wf(children),
        0 <= k < children.len(),
    ensures
        children[k].fill_width.spec_weight() <= weight_sum(children),
    decreases children.len(),
{
    let d = children.drop_last();
    assert forall|j: int| 0 <= j < d.len() implies #[trigger] d[j].wf() by {
        assert(d[j] == children[j]);
    }
    assert(children[children.len() - 1].wf());
    lemma_sums_bounded(d);
    if k < children.len() - 1 {
        assert(d[k] == children[k]);
        lemma_weight_le_sum(d, k);
    }
}

fn share_exec(k: i64, r: i64, t: i64) -> (s: i64)
    requires
        0 <= k <= t,
        t >= 1,
        SPACE_FLOOR <= r <= SPACE_LIMIT,
    ensures
        s == share(k as int, r as int, t as int),
        SPACE_FLOOR <= s <= SPACE_LIMIT,
{
    let kk = k as i128;
    let tt = t as i128;
    if r >= 0 {
        let rr = r as i128;
        proof {
            assert(0 <= kk * rr <= tt * rr) by (nonlinear_arith) requires 0 <= kk <= tt, rr >= 0;
            assert(tt * rr <= 0x100000000000000000000000000000) by (nonlinear_arith)
                requires tt <= 0x7fff_ffff_ffff_ffff, 0 <= rr <= SPACE_LIMIT, tt >= 1;
            vstd::arithmetic::div_mod::lemma_div_is_ordered(kk * rr, tt * rr, tt as int);
            vstd::arithmetic::div_mod::lemma_div_multiples_vanish(rr as int, tt as int);
        }
        ((kk * rr) / tt) as i64
    } else {
        let rr = -(r as i128);
        proof {
            assert(0 <= kk * rr <= tt * rr) by (nonlinear_arith) requires 0 <= kk <= tt, rr >= 0;
            assert(tt * rr <= 0x7fff_ffff_ffff_ffff * -SPACE_FLOOR) by (nonlinear_arith)
                requires tt <= 0x7fff_ffff_ffff_ffff, 0 <= rr <= -SPACE_FLOOR, tt >= 1;
            vstd::arithmetic::div_mod::lemma_div_is_ordered(kk * rr, tt * rr, tt as int);
            vstd::arithmetic::div_mod::lemma_div_multiples_vanish(rr as int, tt as int);
        }
        (-((kk * rr) / tt)) as i64
    }
}

fn spacing_total_exec(spacing: i64, n: usize) -> (r: i64)
    requires
        0 <= spacing <= INPUT_LIMIT,
        n <= MAX_CHILDREN,
    ensures
        r == spacing_total(spacing as int, n as int),
        0 <= r <= SIZE_CAP,
{
    let m: i64 = if n > 1 { n as i64 - 1 } else { 0 };
    proof {
        assert(0 <= spacing * m <= INPUT_LIMIT * MAX_CHILDREN) by (nonlinear_arith)
            requires 0 <= spacing <= INPUT_LIMIT, 0 <= m <= MAX_CHILDREN;
    }
    spacing * m
}

/// The size each child of a row receives from a content area of size
/// `content`: the full content height, and the width of `row_child_width`.
pub fn row_allocations(children: &Vec<ChildInfo>, spacing: i64, content: Size) -> (r: Vec<Size>)
    requires
        all_wf(children@),
        0 <= spacing <= INPUT_LIMIT,
        children.len() <= MAX_CHILDREN,
        0 <= content.width <= SPACE_LIMIT,
        content.height <= SPACE_LIMIT,
    ensures
        r.len() == children.len(),
        forall|k: int| 0 <= k < r.len() ==> (#[trigger] r[k]).height == content.height
            && r[k].width == row_child_width(children@, spacing, content.width as int, k),
        forall|k: int| 0 <= k < r.len() ==> SPACE_FLOOR <= (#[trigger] r[k]).width <= SPACE_LIMIT,
{
    let mut fixed: i64 = 0;
    let mut weights: i64 = 0;
    let mut k: usize = 0;
    while k < children.len()
        invariant
            k <= children.len() <= MAX_CHILDREN,
            all_wf(children@),
            fixed == fixed_width_sum(children@.subrange(0, k as int)),
            weights == weight_sum(children@.subrange(0, k as int)),
            0 <= fixed <= k * SIZE_CAP,
            0 <= weights <= k * INPUT_LIMIT,
        decreases children.len() - k,
    {
        let c = children[k];
        assert(children@.subrange(0, k + 1).drop_last() == children@.subrange(0, k as int));
        assert(children@[k as int].wf());
        assert(k * SIZE_CAP <= MAX_CHILDREN * SIZE_CAP) by (nonlinear_arith) requires k <= MAX_CHILDREN;
        assert(k * INPUT_LIMIT <= MAX_CHILDREN * INPUT_LIMIT) by (nonlinear_arith) requires k <= MAX_CHILDREN;
        match c.fill_width {
            Fill::Disabled => fixed = fixed + c.size.width,
            Fill::Enabled { weight } => weights = weights + weight,
        }
        k = k + 1;
    }
    assert(children@.subrange(0, children.len() as int) == children@);
    assert(children.len() * SIZE_CAP <= MAX_CHILDREN * SIZE_CAP) by (nonlinear_arith) requires children.len() <= MAX_CHILDREN;
    let gaps = spacing_total_exec(spacing, children.len());
    let rest = content.width - gaps - fixed;
    let divisor: i64 = if weights > 1 { weights } else { 1 };
    let mut out: Vec<Size> = Vec::new();
    let mut j: usize = 0;
    while j < children.len()
        invariant
            j <= children.len(),
            all_wf(children@),
            out.len() == j,
            rest == leftover(children@, spacing, content.width as int),
            divisor == max_int(weight_sum(children@), 1),
            SPACE_FLOOR <= rest <= SPACE_LIMIT,
            forall|i: int| 0 <= i < j ==> (#[trigger] out[i]).height == content.height
                && out[i].width == row_child_width(children@, spacing, content.width as int, i),
            forall|i: int| 0 <= i < j ==> SPACE_FLOOR <= (#[trigger] out[i]).width <= SPACE_LIMIT,
        decreases children.len() - j,
    {
        let c = children[j];
        assert(children@[j as int].wf());
        let w = match c.fill_width {
            Fill::Disabled => c.size.width,
            Fill::Enabled { weight } => {
                proof {
                    lemma_weight_le_sum(children@, j as int);
                }
                share_exec(weight, rest, divisor)
            },
        };
        out.push(Size { width: w, height: content.height });
        j = j + 1;
    }
    out
}

/// Sum of the widths the first `k` children of a row receive, counting only
/// the children that fill.
pub open spec fn fill_width_sum(children: Seq<ChildInfo>, spacing: i64, w: int, k: int) -> int
    decreases k,
{
    if k <= 0 {
        0
    } else {
        fill_width_sum(children, spacing, w, k - 1) + if children[k - 1].fill_width is Enabled {
            row_child_width(children, spacing, w, k - 1)
        } else {
            0
        }
    }
}

/// Number of children among the first `k` that fill.
pub open spec fn fill_count(children: Seq<ChildInfo>, k: int) -> int
    decreases k,
{
    if k <= 0 { 0 } else { fill_count(children, k - 1) + if children[k - 1].fill_width is Enabled { 1int } else { 0 } }
}

proof fn lemma_weight_sum_prefix(children: Seq<ChildInfo>, k: int)
    requires
        0 <= k < children.len(),
    ensures
        weight_sum(children.subrange(0, k + 1)) == weight_sum(children.subrange(0, k)) + children[k].fill_width.spec_weight(),
{
    assert(children.subrange(0, k + 1).drop_last() == children.subrange(0, k));
}

proof fn lemma_fill_bounds(children: Seq<ChildInfo>, spacing: i64, w: int, k: int)
    requires
        all_wf(children),
        0 <= k <= children.len(),
        leftover(children, spacing, w) >= 0,
        weight_sum(children) >= 1,
    ensures
        ({
            let r = leftover(children, spacing, w);
            let t = weight_sum(children);
            let s = fill_width_sum(children, spacing, w, k);
            let wk = weight_sum(children.subrange(0, k));
            &&& t * s <= r * wk
            &&& t * s > r * wk - t * fill_count(children, k) || fill_count(children, k) == 0 && s == 0 && wk == 0
        }),
    decreases k,
{
    let r = leftover(children, spacing, w);
    let t = weight_sum(children);
    if k == 0 {
        assert(children.subrange(0, 0).len() == 0);
        assert(weight_sum(children.subrange(0, 0)) == 0);
    } else {
        lemma_fill_bounds(children, spacing, w, k - 1);
        lemma_weight_sum_prefix(children, k - 1);
        let c = children[k - 1];
        assert(c.wf());
        let s0 = fill_width_sum(children, spacing, w, k - 1);
        let w0 = weight_sum(children.subrange(0, k - 1));
        let e0 = fill_count(children, k - 1);
        if c.fill_width is Enabled {
            let kw = c.fill_width.spec_weight();
            assert(kw >= 0);
            assert(kw * r >= 0) by (nonlinear_arith) requires kw >= 0, r >= 0;
            let q = (kw * r) / t;
            vstd::arithmetic::div_mod::lemma_fundamental_div_mod(kw * r, t);
            vstd::arithmetic::div_mod::lemma_mod_pos_bound(kw * r, t);
            assert(row_child_width(children, spacing, w, k - 1) == q);
            assert(t * q <= kw * r);
            assert(t * q > kw * r - t);
            assert(t * (s0 + q) == t * s0 + t * q) by (nonlinear_arith);
            assert(r * (w0 + kw) == r * w0 + r * kw) by (nonlinear_arith);
            assert(t * (e0 + 1) == t * e0 + t) by (nonlinear_arith);
            assert(kw * r == r * kw) by (nonlinear_arith);
            if e0 == 0 && s0 == 0 && w0 == 0 {
                assert(t * s0 == 0) by (nonlinear_arith) requires s0 == 0;
                assert(r * w0 == 0) by (nonlinear_arith) requires w0 == 0;
                assert(t * e0 == 0) by (nonlinear_arith) requires e0 == 0;
            }
        } else {
            assert(c.fill_width.spec_weight() == 0);
        }
    }
}

/// When a row has room left for its filling children and their weights
/// sum to `t > 0`, the filling children together receive the leftover
/// width `r`, less at most one pixel per filling child lost to rounding;
/// each one receives `weight * r / t`.
pub proof fn lemma_fill_distribution_law(children: Seq<ChildInfo>, spacing: i64, w: int)
    requires
        all_wf(children),
        leftover(children, spacing, w) >= 0,
        weight_sum(children) >= 1,
    ensures
        forall|k: int| 0 <= k < children.len() && (#[trigger] children[k].fill_width) is Enabled ==>
            row_child_width(children, spacing, w, k)
                == (children[k].fill_width.spec_weight() * leftover(children, spacing, w)) / weight_sum(children),
        fill_width_sum(children, spacing, w, children.len() as int) <= leftover(children, spacing, w),
        fill_width_sum(children, spacing, w, children.len() as int)
            > leftover(children, spacing, w) - fill_count(children, children.len() as int),
{
    let n = children.len() as int;
    let r = leftover(children, spacing, w);
    let t = weight_sum(children);
    let s = fill_width_sum(children, spacing, w, n);
    let e = fill_count(children, n);
    lemma_fill_bounds(children, spacing, w, n);
    assert(children.subrange(0, n) == children);
    assert(t * s <= r * t);
    assert(s <= r) by (nonlinear_arith) requires t * s <= r * t, t >= 1;
    assert(s > r - e) by {
        assert(t * s > r * t - t * e);
        assert(t * s > t * (r - e)) by (nonlinear_arith) requires t * s > r * t - t * e;
        assert(s > r - e) by (nonlinear_arith) requires t * s > t * (r - e), t >= 1;
    }
}

// ---------------------------------------------------------------------------
// Positions

/// `(outer - inner) / 2`, rounded toward zero: the offset that centres an
/// extent `inner` within `outer`.
pub open spec fn centered(outer: int, inner: int) -> int {
    let d = outer - inner;
    if d >= 0 { d / 2 } else { -((-d) / 2) }
}

/// The x coordinate of child `k` of a row: the widths of the children
/// before it, each followed by the spacing.
pub open spec fn row_x(boxes: Seq<Size>, spacing: i64, k: int) -> int
    decreases k,
{
    if k <= 0 { 0 } else { row_x(boxes, spacing, k - 1) + boxes[k - 1].width + spacing }
}

pub open spec fn boxes_ok(boxes: Seq<Size>) -> bool {
    forall|k: int| 0 <= k < boxes.len() ==> 0 <= (#[trigger] boxes[k]).width <= SPACE_LIMIT
        && 0 <= boxes[k].height <= SPACE_LIMIT
}

/// Where each child of a row goes in a content area of height
/// `content_height`, given the boxes the children took: left to right in
/// order, vertically centred.
pub fn row_targets(boxes: &Vec<Size>, spacing: i64, content_height: i64) -> (r: Vec<Point>)
    requires
        boxes_ok(boxes@),
        boxes.len() <= MAX_CHILDREN,
        0 <= spacing <= INPUT_LIMIT,
        0 <= content_height <= SPACE_LIMIT,
    ensures
        r.len() == boxes.len(),
        forall|k: int| 0 <= k < r.len() ==> (#[trigger] r[k]).x == row_x(boxes@, spacing, k)
            && r[k].y == centered(content_height as int, boxes[k].height as int),
{
    let mut out: Vec<Point> = Vec::new();
    let mut x: i64 = 0;
    let mut k: usize = 0;
    while k < boxes.len()
        invariant
            k <= boxes.len() <= MAX_CHILDREN,
            boxes_ok(boxes@),
            0 <= spacing <= INPUT_LIMIT,
            0 <= content_height <= SPACE_LIMIT,
            out.len() == k,
            x == row_x(boxes@, spacing, k as int),
            0 <= x <= k * (SPACE_LIMIT + INPUT_LIMIT),
            forall|i: int| 0 <= i < k ==> (#[trigger] out[i]).x == row_x(boxes@, spacing, i)
                && out[i].y == centered(content_height as int, boxes[i].height as int),
        decreases boxes.len() - k,
    {
        let b = boxes[k];
        assert(boxes@[k as int] == b);
        assert(0 <= b.height <= SPACE_LIMIT && 0 <= b.width <= SPACE_LIMIT);
        let d = content_height - b.height;
        let y = if d >= 0 { d / 2 } else { -((-d) / 2) };
        out.push(Point { x, y });
        assert((k + 1) * (SPACE_LIMIT + INPUT_LIMIT) <= MAX_CHILDREN * (SPACE_LIMIT + INPUT_LIMIT)) by (nonlinear_arith)
            requires k + 1 <= MAX_CHILDREN;
        assert((k + 1) * (SPACE_LIMIT + INPUT_LIMIT) == k * (SPACE_LIMIT + INPUT_LIMIT) + (SPACE_LIMIT + INPUT_LIMIT)) by (nonlinear_arith);
        x = x + b.width + spacing;
        k = k + 1;
    }
    out
}

pub open spec fn default_coordinate(c: Coordinate) -> i64 {
    match c {
        Coordinate::Absolute(v) => v,
        Coordinate::Flow => 0,
    }
}

/// Where a child of a pane goes: its absolute coordinates as given, and the
/// origin on an axis it leaves to the flow.
pub fn default_target(position: &Position) -> (r: Point)
    ensures
        r.x == default_coordinate(position.x),
        r.y == default_coordinate(position.y),
{
    let x = match position.x {
        Coordinate::Absolute(v) => v,
        Coordinate::Flow => 0,
    };
    let y = match position.y {
        Coordinate::Absolute(v) => v,
        Coordinate::Flow => 0,
    };
    Point { x, y }
}

} // verus!
