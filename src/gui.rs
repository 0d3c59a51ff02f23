use vstd::prelude::*;
use crate::geometry::{
    Size, PreferredSize, Padding, Fill, Position, Rect, Point, INPUT_LIMIT, SIZE_CAP, SPACE_LIMIT, SPACE_FLOOR,
};
use crate::layout::{
    ChildInfo, all_wf, all_in_cap, row_content, pane_content, row_content_size, pane_content_size,
    row_allocations, row_child_width, row_targets, row_x, centered, boxes_ok, default_target,
    default_coordinate, MAX_CHILDREN,
};
use crate::widget::{Widget, Geometry, box_contains};
use crate::widget_state::{DirtyFlags, WidgetState};
use crate::mouse::MouseState;

verus! {

/// What the size of a widget depends on, besides its geometry inputs.
pub enum WidgetKind {
    Label(Size),
    Pane,
    HBox(i64),
}

/// The layout inputs of one node: everything the size pass reads.
pub struct NodeView {
    pub kind: WidgetKind,
    pub preferred_size: PreferredSize,
    pub padding: Padding,
    pub fill_width: Fill,
    pub fill_height: Fill,
    pub position: Position,
    pub children: Seq<usize>,
}

/// One slot of the widget arena.
pub struct Node {
    pub widget: Widget,
    pub parent: Option<usize>,
    pub children: Vec<usize>,
}

pub open spec fn kind_of(w: Widget) -> WidgetKind {
    match w {
        Widget::Label(p) => WidgetKind::Label(p.text_size),
        Widget::Pane(_) => WidgetKind::Pane,
        Widget::HBox(p) => WidgetKind::HBox(p.spacing),
    }
}

pub open spec fn node_view(n: Node) -> NodeView {
    let g = n.widget.geometry_spec();
    NodeView {
        kind: kind_of(n.widget),
        preferred_size: g.preferred_size,
        padding: g.padding,
        fill_width: g.fill_width,
        fill_height: g.fill_height,
        position: g.position,
        children: n.children@,
    }
}

/// What a parent reads of child `k` of node `i`, for the first `k` children.
pub open spec fn child_infos(v: Seq<NodeView>, i: int, k: int) -> Seq<ChildInfo>
    decreases v.len() - i, k,
{
    if k <= 0 || !(0 <= i < v.len()) || k > v[i].children.len() {
        Seq::empty()
    } else {
        let prev = child_infos(v, i, k - 1);
        let c = v[i].children[k - 1] as int;
        if i < c < v.len() {
            prev.push(ChildInfo {
                size: size_of(v, c),
                position: v[c].position,
                fill_width: v[c].fill_width,
                fill_height: v[c].fill_height,
            })
        } else {
            prev
        }
    }
}

pub open spec fn info_sizes(infos: Seq<ChildInfo>) -> Seq<Size> {
    infos.map_values(|c: ChildInfo| c.size)
}

/// The content size of node `i` from its children (or its measured text).
pub open spec fn content_of(v: Seq<NodeView>, i: int, infos: Seq<ChildInfo>) -> Size {
    match v[i].kind {
        WidgetKind::Label(s) => s,
        WidgetKind::Pane => pane_content(infos),
        WidgetKind::HBox(spacing) => row_content(info_sizes(infos), spacing),
    }
}

/// The resolved size of node `i`: its content size grown by its padding,
/// merged with its preferred size.
pub open spec fn size_of(v: Seq<NodeView>, i: int) -> Size
    decreases v.len() - i, v[i].children.len() + 1,
{
    if !(0 <= i < v.len()) {
        Size { width: 0, height: 0 }
    } else {
        let infos = child_infos(v, i, v[i].children.len() as int);
        v[i].preferred_size.spec_replace_empty_dimensions_and_max(
            content_of(v, i, infos).spec_with_padding(v[i].padding),
        )
    }
}

pub open spec fn view_wf(n: NodeView) -> bool {
    &&& n.preferred_size.wf()
    &&& n.padding.wf()
    &&& n.fill_width.wf()
    &&& n.fill_height.wf()
    &&& n.position.wf()
    &&& n.children.len() <= MAX_CHILDREN
    &&& match n.kind {
        WidgetKind::Label(s) => 0 <= s.width <= INPUT_LIMIT && 0 <= s.height <= INPUT_LIMIT,
        WidgetKind::Pane => true,
        WidgetKind::HBox(spacing) => 0 <= spacing <= INPUT_LIMIT,
    }
}

pub open spec fn layout_wf(g: Geometry) -> bool {
    &&& 0 <= g.widget_layout.width <= SPACE_LIMIT
    &&& 0 <= g.widget_layout.height <= SPACE_LIMIT
    &&& 0 <= g.content_layout.width <= SPACE_LIMIT
    &&& 0 <= g.content_layout.height <= SPACE_LIMIT
}

/// The widget tree, stored as an arena: node 0 is the root, every child
/// stands after its parent, and parent and child links agree.
pub struct Gui {
    pub nodes: Vec<Node>,
}

impl Gui {
    pub open spec fn view(&self) -> Seq<NodeView> {
        self.nodes@.map_values(|n: Node| node_view(n))
    }

    pub open spec fn geometry_at(&self, i: int) -> Geometry {
        self.nodes@[i].widget.geometry_spec()
    }

    /// Each child list is in increasing index order, so it names each child once.
    pub open spec fn children_sorted(&self) -> bool {
        forall|i: int, k1: int, k2: int| 0 <= i < self.nodes.len() && 0 <= k1 < k2 < self.nodes@[i].children.len() ==>
            #[trigger] self.nodes@[i].children@[k1] < #[trigger] self.nodes@[i].children@[k2]
    }

    pub open spec fn wf(&self) -> bool {
        &&& self.children_sorted()
        &&& self.nodes.len() >= 1
        &&& self.nodes.len() < usize::MAX
        &&& self.nodes@[0].parent is None
        &&& forall|i: int| 0 <= i < self.nodes.len() ==> {
            &&& view_wf(#[trigger] node_view(self.nodes@[i]))
            &&& layout_wf(self.nodes@[i].widget.geometry_spec())
            &&& self.nodes@[i].widget.tree_index_spec() == Some(i as usize)
            &&& (i > 0 ==> self.nodes@[i].parent is Some && self.nodes@[i].parent->0 < i)
            &&& forall|k: int| 0 <= k < self.nodes@[i].children.len() ==> {
                &&& i < #[trigger] self.nodes@[i].children@[k] < self.nodes.len()
                &&& self.nodes@[self.nodes@[i].children@[k] as int].parent == Some(i as usize)
            }
        }
    }

    /// The child information node `i` reads of its first `k` children.
    fn collect_child_infos(&self, i: usize) -> (r: (Vec<ChildInfo>, Vec<Size>))
        requires
            self.wf(),
            i < self.nodes.len(),
        ensures
            r.0@ == child_infos(self.view(), i as int, self.nodes@[i as int].children.len() as int),
            r.1@ == info_sizes(r.0@),
            all_wf(r.0@),
            all_in_cap(r.1@),
            r.0.len() == self.nodes@[i as int].children.len(),
        decreases self.nodes.len() - i, 0nat,
    {
        let ghost v = self.view();
        assert(view_wf(node_view(self.nodes@[i as int])));
        let n = self.nodes[i].children.len();
        let mut infos: Vec<ChildInfo> = Vec::new();
        let mut sizes: Vec<Size> = Vec::new();
        let mut k: usize = 0;
        while k < n
            invariant
                self.wf(),
                i < self.nodes.len(),
                v == self.view(),
                n == self.nodes@[i as int].children.len(),
                k <= n,
                infos@ == child_infos(v, i as int, k as int),
                sizes@ == info_sizes(infos@),
                all_wf(infos@),
                all_in_cap(sizes@),
                infos.len() == k,
            decreases n - k,
        {
            let c = self.nodes[i].children[k];
            assert(i < c < self.nodes.len());
            assert(v[i as int].children[k as int] == c);
            let sz = self.compute_size(c);
            let g = self.nodes[c].widget.geometry();
            assert(view_wf(node_view(self.nodes@[c as int])));
            let info = ChildInfo { size: sz, position: g.position, fill_width: g.fill_width, fill_height: g.fill_height };
            let ghost old_infos = infos@;
            infos.push(info);
            sizes.push(sz);
            assert(info_sizes(infos@) =~= info_sizes(old_infos).push(sz));
            assert forall|j: int| 0 <= j < infos@.len() implies #[trigger] infos@[j].wf() by {
                if j < old_infos.len() {
                    assert(old_infos[j].wf());
                }
            }
            assert forall|j: int| 0 <= j < sizes@.len() implies #[trigger] sizes@[j].in_cap() by {
                if j < old_infos.len() {
                    assert(old_infos[j].wf());
                    assert(sizes@[j] == infos@[j].size);
                } else {
                    assert(sizes@[j] == sz);
                }
            }
            k = k + 1;
        }
        (infos, sizes)
    }

    /// The resolved size of node `i`, computed bottom-up from its subtree.
    /// The tree is only read, so calling it again gives the same size and
    /// leaves every dirty flag as it was.
    pub fn compute_size(&self, i: usize) -> (r: Size)
        requires
            self.wf(),
            i < self.nodes.len(),
        ensures
            r == size_of(self.view(), i as int),
            r.in_cap(),
        decreases self.nodes.len() - i, 1nat,
    {
        let ghost v = self.view();
        assert(view_wf(node_view(self.nodes@[i as int])));
        let (infos, sizes) = self.collect_child_infos(i);
        let g = self.nodes[i].widget.geometry();
        let content = match &self.nodes[i].widget {
            Widget::Label(p) => p.text_size,
            Widget::Pane(_) => pane_content_size(&infos),
            Widget::HBox(p) => row_content_size(&sizes, p.spacing),
        };
        assert(content == content_of(v, i as int, infos@));
        let padded = content.with_padding(&g.padding);
        g.preferred_size.replace_empty_dimensions_and_max(&padded)
    }

    /// Replaces the geometry of node `i`, keeping everything else.
    fn replace_geometry(&mut self, i: usize, g: Geometry)
        requires
            i < old(self).nodes.len(),
        ensures
            final(self).nodes.len() == old(self).nodes.len(),
            final(self).geometry_at(i as int) == g,
            forall|j: int| 0 <= j < final(self).nodes.len() && j != i ==> #[trigger] final(self).nodes@[j] == old(self).nodes@[j],
            forall|j: int| 0 <= j < final(self).nodes.len() ==> {
                &&& (#[trigger] final(self).nodes@[j]).parent == old(self).nodes@[j].parent
                &&& final(self).nodes@[j].children == old(self).nodes@[j].children
                &&& kind_of(final(self).nodes@[j].widget) == kind_of(old(self).nodes@[j].widget)
                &&& final(self).nodes@[j].widget.tree_index_spec() == old(self).nodes@[j].widget.tree_index_spec()
            },
            same_inputs(old(self).geometry_at(i as int), g) ==> final(self).view() == old(self).view(),
            old(self).wf() && inputs_wf(g) && layout_wf(g) ==> final(self).wf(),
    {
        self.nodes[i].widget.set_geometry(g);
        proof {
            if same_inputs(old(self).geometry_at(i as int), g) {
                assert(self.view() =~= old(self).view());
            }
            if old(self).wf() && inputs_wf(g) && layout_wf(g) {
                assert forall|j: int| 0 <= j < self.nodes.len() implies {
                    &&& view_wf(#[trigger] node_view(self.nodes@[j]))
                    &&& layout_wf(self.nodes@[j].widget.geometry_spec())
                    &&& self.nodes@[j].widget.tree_index_spec() == Some(j as usize)
                    &&& (j > 0 ==> self.nodes@[j].parent is Some && self.nodes@[j].parent->0 < j)
                    &&& forall|k: int| 0 <= k < self.nodes@[j].children.len() ==> {
                        &&& j < #[trigger] self.nodes@[j].children@[k] < self.nodes.len()
                        &&& self.nodes@[self.nodes@[j].children@[k] as int].parent == Some(j as usize)
                    }
                } by {
                    assert(view_wf(node_view(old(self).nodes@[j])));
                    if j == i {
                        assert(view_wf(node_view(self.nodes@[j])));
                    } else {
                        assert(node_view(self.nodes@[j]) == node_view(old(self).nodes@[j]));
                    }
                    assert forall|k: int| 0 <= k < self.nodes@[j].children.len() implies {
                        &&& j < #[trigger] self.nodes@[j].children@[k] < self.nodes.len()
                        &&& self.nodes@[self.nodes@[j].children@[k] as int].parent == Some(j as usize)
                    } by {
                        assert(old(self).nodes@[j].children@[k] == self.nodes@[j].children@[k]);
                        let c = self.nodes@[j].children@[k] as int;
                        assert(self.nodes@[c].parent == old(self).nodes@[c].parent);
                    }
                }
            }
        }
    }

    /// The size child `k` of node `i` receives from a content area `inner`:
    /// in a row, its width from `row_child_width` and the full height;
    /// elsewhere, the whole content area.
    pub open spec fn child_allocation(&self, i: int, k: int, inner: Size) -> Size {
        let v = self.view();
        match kind_of(self.nodes@[i].widget) {
            WidgetKind::HBox(spacing) => Size {
                width: row_child_width(child_infos(v, i, v[i].children.len() as int), spacing, inner.width as int, k) as i64,
                height: inner.height,
            },
            _ => inner,
        }
    }

    /// What the content pass does to node `c` when handed `a`: nothing when
    /// `a` without its padding has a negative width or no height; else its
    /// box takes the size `a` and its content area the inside of the padding.
    pub open spec fn took_allocation(&self, before: &Gui, c: int, a: Size) -> bool {
        let pad = before.geometry_at(c).padding;
        let inner = a.spec_without_padding(pad);
        if inner.width < 0 || inner.height <= 0 {
            self.nodes@[c] == before.nodes@[c]
        } else {
            &&& self.geometry_at(c).content_layout
                == (Rect { x: pad.left, y: pad.top, width: inner.width, height: inner.height })
            &&& self.geometry_at(c).widget_layout.width == a.width
            &&& self.geometry_at(c).widget_layout.height == a.height
        }
    }

    /// Records that node `i` was given `avail` and hands each child, once and
    /// in order, its share of the content area; only `i` and nodes below it
    /// change. When the content area (`avail` without the padding) has a
    /// negative width or no height, nothing in the tree changes.
    #[verifier::rlimit(100)]
    #[verifier::spinoff_prover]
    pub fn update_content_size(&mut self, i: usize, avail: Size)
        requires
            old(self).wf(),
            i < old(self).nodes.len(),
            SPACE_FLOOR <= avail.width <= SPACE_LIMIT,
            SPACE_FLOOR <= avail.height <= SPACE_LIMIT,
        ensures
            final(self).wf(),
            final(self).view() == old(self).view(),
            final(self).nodes.len() == old(self).nodes.len(),
            forall|j: int| 0 <= j < final(self).nodes.len() ==> (#[trigger] final(self).nodes@[j]).parent == old(self).nodes@[j].parent,
            forall|j: int| 0 <= j < i ==> #[trigger] final(self).nodes@[j] == old(self).nodes@[j],
            forall|j: int| 0 <= j < final(self).nodes.len() && !old(self).is_ancestor(i as int, j) ==>
                #[trigger] final(self).nodes@[j] == old(self).nodes@[j],
            final(self).took_allocation(&*old(self), i as int, avail),
            ({
                let inner = avail.spec_without_padding(old(self).geometry_at(i as int).padding);
                !(inner.width < 0 || inner.height <= 0) ==> forall|k: int| 0 <= k < old(self).nodes@[i as int].children.len() ==>
                    final(self).took_allocation(&*old(self), #[trigger] old(self).nodes@[i as int].children@[k] as int,
                        old(self).child_allocation(i as int, k, inner))
            }),
        decreases old(self).nodes.len() - i,
    {
        let g = self.nodes[i].widget.geometry();
        proof {
            assert(view_wf(node_view(self.nodes@[i as int])));
        }
        let inner = avail.without_padding(&g.padding);
        if inner.width < 0 || inner.height <= 0 {
            return;
        }
        let mut ng = g;
        ng.widget_layout = Rect { x: g.widget_layout.x, y: g.widget_layout.y, width: avail.width, height: avail.height };
        ng.content_layout = Rect { x: g.padding.left, y: g.padding.top, width: inner.width, height: inner.height };
        let ghost s0 = *self;
        self.replace_geometry(i, ng);
        let ghost v0 = self.view();
        let ghost m0 = *self;
        let ghost mid = self.nodes@;
        proof {
            assert forall|j: int| 0 <= j < m0.nodes.len() implies (#[trigger] m0.nodes@[j]).parent == s0.nodes@[j].parent by {}
            m0.lemma_parents_agree(&s0);
        }
        let (infos, _sizes) = self.collect_child_infos(i);
        let n = self.nodes[i].children.len();
        let allocs: Vec<Size> = match &self.nodes[i].widget {
            Widget::HBox(p) => row_allocations(&infos, p.spacing, inner),
            _ => {
                let mut same: Vec<Size> = Vec::new();
                let mut k: usize = 0;
                while k < n
                    invariant
                        k <= n,
                        same.len() == k,
                        forall|j: int| 0 <= j < k ==> #[trigger] same@[j] == inner,
                    decreases n - k,
                {
                    same.push(inner);
                    k = k + 1;
                }
                same
            },
        };
        assert forall|m: int| 0 <= m < n implies #[trigger] allocs@[m] == s0.child_allocation(i as int, m, inner) by {
            assert(s0.view() == m0.view());
            assert(kind_of(m0.nodes@[i as int].widget) == kind_of(s0.nodes@[i as int].widget));
        }
        let mut k: usize = 0;
        while k < n
            invariant
                self.wf(),
                m0.wf(),
                self.view() == v0,
                self.nodes.len() == mid.len(),
                mid == m0.nodes@,
                mid.len() == old(self).nodes.len(),
                i < self.nodes.len(),
                forall|j: int| 0 <= j <= i ==> #[trigger] self.nodes@[j] == mid[j],
                forall|j: int| 0 <= j < self.nodes.len() ==> (#[trigger] self.nodes@[j]).parent == mid[j].parent,
                forall|j: int| 0 <= j < self.nodes.len() && !m0.is_ancestor(i as int, j) ==>
                    #[trigger] self.nodes@[j] == mid[j],
                forall|m: int| k <= m < n ==> #[trigger] self.nodes@[mid[i as int].children@[m] as int]
                    == mid[mid[i as int].children@[m] as int],
                forall|m: int| 0 <= m < k ==> self.took_allocation(&m0, #[trigger] mid[i as int].children@[m] as int, allocs@[m]),
                n == mid[i as int].children.len(),
                allocs.len() == n,
                forall|j: int| 0 <= j < n ==> SPACE_FLOOR <= (#[trigger] allocs@[j]).width <= SPACE_LIMIT
                    && SPACE_FLOOR <= allocs@[j].height <= SPACE_LIMIT,
                k <= n,
            decreases n - k,
        {
            assert(view_wf(node_view(self.nodes@[i as int])));
            let c = self.nodes[i].children[k];
            assert(i < self.nodes@[i as int].children@[k as int] < self.nodes.len());
            assert(allocs@[k as int].width <= SPACE_LIMIT);
            let a = allocs[k];
            let ghost before = *self;
            proof {
                assert forall|j: int| 0 <= j < before.nodes.len() implies (#[trigger] before.nodes@[j]).parent == m0.nodes@[j].parent by {}
                before.lemma_parents_agree(&m0);
                assert(before.nodes@[c as int] == mid[c as int]);
                m0.lemma_child_is_descendant(i as int, c as int);
            }
            self.update_content_size(c, a);
            proof {
                assert forall|j: int| 0 <= j < self.nodes.len() && !m0.is_ancestor(i as int, j) implies
                    #[trigger] self.nodes@[j] == mid[j] by {
                    m0.lemma_descendant_of_child(i as int, c as int, j);
                }
                assert forall|j: int| 0 <= j <= i implies #[trigger] self.nodes@[j] == mid[j] by {
                    if m0.is_ancestor(c as int, j) {
                        m0.lemma_ancestor_le(c as int, j);
                    }
                }
                assert forall|m: int| k < m < n implies #[trigger] self.nodes@[mid[i as int].children@[m] as int]
                    == mid[mid[i as int].children@[m] as int] by {
                    let d = mid[i as int].children@[m] as int;
                    m0.lemma_sibling_not_descendant(i as int, c as int, d, k as int, m);
                }
                assert forall|m: int| 0 <= m <= k implies self.took_allocation(&m0, #[trigger] mid[i as int].children@[m] as int, allocs@[m]) by {
                    let d = mid[i as int].children@[m] as int;
                    if m < k {
                        m0.lemma_sibling_not_descendant(i as int, c as int, d, k as int, m);
                        assert(self.nodes@[d] == before.nodes@[d]);
                    }
                }
            }
            k = k + 1;
        }
        proof {
            assert forall|j: int| 0 <= j < self.nodes.len() && !s0.is_ancestor(i as int, j) implies
                #[trigger] self.nodes@[j] == s0.nodes@[j] by {
                assert(j != i);
                assert(mid[j] == s0.nodes@[j]);
            }
            assert forall|m: int| 0 <= m < n implies self.took_allocation(&s0, #[trigger] s0.nodes@[i as int].children@[m] as int,
                s0.child_allocation(i as int, m, inner)) by {
                assert(self.took_allocation(&m0, mid[i as int].children@[m] as int, allocs@[m]));
                let d = mid[i as int].children@[m] as int;
                assert(view_wf(node_view(m0.nodes@[i as int])));
                assert(i < m0.nodes@[i as int].children@[m] < m0.nodes.len());
                assert(m0.nodes@[d] == s0.nodes@[d]);
            }
            assert(self.nodes@[i as int] == mid[i as int]);
        }
    }

    /// The boxes the children of node `i` have taken, in child order.
    pub open spec fn child_boxes(&self, i: int) -> Seq<Size> {
        self.nodes@[i].children@.map_values(|c: usize| Size {
            width: self.geometry_at(c as int).widget_layout.width,
            height: self.geometry_at(c as int).widget_layout.height,
        })
    }

    /// Where child `k` of node `i` goes: in a row, after the boxes of the
    /// children before it and vertically centred; elsewhere, at its own
    /// requested coordinates.
    pub open spec fn child_target(&self, i: int, k: int) -> Point {
        let c = self.nodes@[i].children@[k] as int;
        match kind_of(self.nodes@[i].widget) {
            WidgetKind::HBox(spacing) => Point {
                x: row_x(self.child_boxes(i), spacing, k) as i64,
                y: centered(self.geometry_at(i).content_layout.height as int, self.child_boxes(i)[k].height as int) as i64,
            },
            _ => Point {
                x: default_coordinate(self.geometry_at(c).position.x),
                y: default_coordinate(self.geometry_at(c).position.y),
            },
        }
    }

    /// Only the x and y of widget boxes differ between the two trees.
    pub open spec fn moved_only(&self, other: &Gui) -> bool {
        &&& self.nodes.len() == other.nodes.len()
        &&& forall|j: int| 0 <= j < self.nodes.len() ==> {
            &&& (#[trigger] self.nodes@[j]).parent == other.nodes@[j].parent
            &&& self.geometry_at(j) == (Geometry {
                widget_layout: Rect {
                    x: self.geometry_at(j).widget_layout.x,
                    y: self.geometry_at(j).widget_layout.y,
                    ..other.geometry_at(j).widget_layout
                },
                ..other.geometry_at(j)
            })
        }
    }

    /// Places the children of node `i` in its content area, then each
    /// child's own children, down the subtree. Only the x and y of the
    /// boxes of nodes strictly below `i` change.
    #[verifier::rlimit(100)]
    #[verifier::spinoff_prover]
    pub fn update_child_positions(&mut self, i: usize)
        requires
            old(self).wf(),
            i < old(self).nodes.len(),
        ensures
            final(self).wf(),
            final(self).view() == old(self).view(),
            final(self).moved_only(&*old(self)),
            forall|j: int| 0 <= j < final(self).nodes.len() && (j == i || !old(self).is_ancestor(i as int, j)) ==>
                #[trigger] final(self).nodes@[j] == old(self).nodes@[j],
            forall|k: int| 0 <= k < old(self).nodes@[i as int].children.len() ==> {
                &&& (#[trigger] final(self).geometry_at(old(self).nodes@[i as int].children@[k] as int)).widget_layout.x
                    == old(self).child_target(i as int, k).x
                &&& final(self).geometry_at(old(self).nodes@[i as int].children@[k] as int).widget_layout.y
                    == old(self).child_target(i as int, k).y
            },
        decreases old(self).nodes.len() - i,
    {
        let g = self.nodes[i].widget.geometry();
        let n = self.nodes[i].children.len();
        let ghost s0 = *self;
        proof {
            assert(view_wf(node_view(self.nodes@[i as int])));
        }
        let mut boxes: Vec<Size> = Vec::new();
        let mut positions: Vec<Position> = Vec::new();
        let mut k: usize = 0;
        while k < n
            invariant
                self.wf(),
                *self == s0,
                i < self.nodes.len(),
                n == self.nodes@[i as int].children.len(),
                k <= n,
                boxes.len() == k,
                positions.len() == k,
                boxes_ok(boxes@),
                boxes@ == self.child_boxes(i as int).subrange(0, k as int),
                forall|m: int| 0 <= m < k ==> #[trigger] positions@[m]
                    == self.geometry_at(self.nodes@[i as int].children@[m] as int).position,
            decreases n - k,
        {
            assert(view_wf(node_view(self.nodes@[i as int])));
            let c = self.nodes[i].children[k];
            assert(i < self.nodes@[i as int].children@[k as int] < self.nodes.len());
            assert(view_wf(node_view(self.nodes@[c as int])));
            let cg = self.nodes[c].widget.geometry();
            proof {
                assert(layout_wf(self.nodes@[c as int].widget.geometry_spec()));
            }
            let ghost old_boxes = boxes@;
            boxes.push(Size { width: cg.widget_layout.width, height: cg.widget_layout.height });
            positions.push(cg.position);
            assert(boxes@ =~= self.child_boxes(i as int).subrange(0, k + 1));
            assert forall|j: int| 0 <= j < boxes@.len() implies 0 <= (#[trigger] boxes@[j]).width <= SPACE_LIMIT
                && 0 <= boxes@[j].height <= SPACE_LIMIT by {
                if j < old_boxes.len() {
                    assert(boxes@[j] == old_boxes[j]);
                }
            }
            k = k + 1;
        }
        assert(boxes@ =~= self.child_boxes(i as int));
        let targets: Vec<Point> = match &self.nodes[i].widget {
            Widget::HBox(p) => row_targets(&boxes, p.spacing, g.content_layout.height),
            _ => {
                let mut t: Vec<Point> = Vec::new();
                let mut j: usize = 0;
                while j < n
                    invariant
                        j <= n,
                        positions.len() == n,
                        t.len() == j,
                        forall|m: int| 0 <= m < j ==> (#[trigger] t@[m]).x == default_coordinate(positions@[m].x)
                            && t@[m].y == default_coordinate(positions@[m].y),
                    decreases n - j,
                {
                    t.push(default_target(&positions[j]));
                    j = j + 1;
                }
                t
            },
        };
        assert(targets.len() == n);
        assert forall|m: int| 0 <= m < n implies #[trigger] targets@[m] == s0.child_target(i as int, m) by {
            if kind_of(s0.nodes@[i as int].widget) is HBox {
            } else {
                assert(targets@[m].x == default_coordinate(positions@[m].x));
            }
        }
        let mut k: usize = 0;
        while k < n
            invariant
                self.wf(),
                s0.wf(),
                self.view() == s0.view(),
                self.moved_only(&s0),
                s0.nodes.len() == old(self).nodes.len(),
                i < self.nodes.len(),
                n == s0.nodes@[i as int].children.len(),
                targets.len() == n,
                forall|m: int| 0 <= m < n ==> #[trigger] targets@[m] == s0.child_target(i as int, m),
                k <= n,
                forall|j: int| 0 <= j < self.nodes.len() && (j == i || !s0.is_ancestor(i as int, j)) ==>
                    #[trigger] self.nodes@[j] == s0.nodes@[j],
                forall|m: int| k <= m < n ==> #[trigger] self.nodes@[s0.nodes@[i as int].children@[m] as int]
                    == s0.nodes@[s0.nodes@[i as int].children@[m] as int],
                forall|m: int| 0 <= m < k ==> {
                    &&& (#[trigger] self.geometry_at(s0.nodes@[i as int].children@[m] as int)).widget_layout.x
                        == s0.child_target(i as int, m).x
                    &&& self.geometry_at(s0.nodes@[i as int].children@[m] as int).widget_layout.y
                        == s0.child_target(i as int, m).y
                },
            decreases n - k,
        {
            assert(view_wf(node_view(s0.nodes@[i as int])));
            assert(self.nodes@[i as int] == s0.nodes@[i as int]);
            let c = self.nodes[i].children[k];
            assert(i < s0.nodes@[i as int].children@[k as int] < self.nodes.len());
            assert(view_wf(node_view(self.nodes@[c as int])));
            let mut cg = self.nodes[c].widget.geometry();
            proof {
                assert(layout_wf(self.nodes@[c as int].widget.geometry_spec()));
            }
            let t = targets[k];
            cg.widget_layout = Rect { x: t.x, y: t.y, width: cg.widget_layout.width, height: cg.widget_layout.height };
            let ghost before = *self;
            self.replace_geometry(c, cg);
            let ghost mid = *self;
            proof {
                s0.lemma_child_is_descendant(i as int, c as int);
                assert(before.moved_only(&s0));
                assert forall|j: int| 0 <= j < mid.nodes.len() implies (#[trigger] mid.nodes@[j]).parent == s0.nodes@[j].parent by {
                    assert(before.nodes@[j].parent == s0.nodes@[j].parent);
                    assert(mid.nodes@[j].parent == before.nodes@[j].parent);
                }
                mid.lemma_parents_agree(&s0);
            }
            self.update_child_positions(c);
            proof {
                assert forall|j: int| 0 <= j < self.nodes.len() implies (#[trigger] self.nodes@[j]).parent == mid.nodes@[j].parent by {
                    assert(self.nodes@[j] == self.nodes@[j]);
                }
                self.lemma_parents_agree(&mid);
                assert forall|j: int| 0 <= j < self.nodes.len() && (j == i || !s0.is_ancestor(i as int, j)) implies
                    #[trigger] self.nodes@[j] == s0.nodes@[j] by {
                    s0.lemma_descendant_of_child(i as int, c as int, j);
                    if s0.is_ancestor(c as int, j) {
                        s0.lemma_ancestor_le(c as int, j);
                    }
                    assert(!mid.is_ancestor(c as int, j));
                    assert(j != c);
                    assert(mid.nodes@[j] == before.nodes@[j]);
                }
                assert forall|m: int| k < m < n implies #[trigger] self.nodes@[s0.nodes@[i as int].children@[m] as int]
                    == s0.nodes@[s0.nodes@[i as int].children@[m] as int] by {
                    let d = s0.nodes@[i as int].children@[m] as int;
                    s0.lemma_sibling_not_descendant(i as int, c as int, d, k as int, m);
                    assert(mid.nodes@[d] == before.nodes@[d]);
                }
                assert forall|m: int| 0 <= m <= k implies {
                    &&& (#[trigger] self.geometry_at(s0.nodes@[i as int].children@[m] as int)).widget_layout.x
                        == s0.child_target(i as int, m).x
                    &&& self.geometry_at(s0.nodes@[i as int].children@[m] as int).widget_layout.y
                        == s0.child_target(i as int, m).y
                } by {
                    let d = s0.nodes@[i as int].children@[m] as int;
                    if m < k {
                        s0.lemma_sibling_not_descendant(i as int, c as int, d, k as int, m);
                        assert(mid.nodes@[d] == before.nodes@[d]);
                    } else {
                        assert(self.nodes@[c as int] == mid.nodes@[c as int]);
                    }
                }
                assert forall|j: int| 0 <= j < self.nodes.len() implies {
                    &&& (#[trigger] self.nodes@[j]).parent == s0.nodes@[j].parent
                    &&& self.geometry_at(j) == (Geometry {
                        widget_layout: Rect {
                            x: self.geometry_at(j).widget_layout.x,
                            y: self.geometry_at(j).widget_layout.y,
                            ..s0.geometry_at(j).widget_layout
                        },
                        ..s0.geometry_at(j)
                    })
                } by {
                    assert(mid.nodes@[j] == mid.nodes@[j]);
                    assert(before.nodes@[j] == before.nodes@[j]);
                    assert(mid.geometry_at(j) == mid.geometry_at(j));
                    if j != c {
                        assert(mid.nodes@[j] == before.nodes@[j]);
                    }
                }
            }
            k = k + 1;
        }
    }

    proof fn lemma_child_is_descendant(&self, i: int, c: int)
        requires
            0 <= i < c < self.nodes.len(),
            self.nodes@[c].parent == Some(i as usize),
        ensures
            self.is_ancestor(i, c),
    {
        assert(self.is_ancestor(i, i));
    }

    /// A descendant of a child of `i` is a descendant of `i`.
    proof fn lemma_descendant_of_child(&self, i: int, c: int, j: int)
        requires
            0 <= i < c < self.nodes.len(),
            self.nodes@[c].parent == Some(i as usize),
        ensures
            self.is_ancestor(c, j) ==> self.is_ancestor(i, j),
        decreases j,
    {
        if self.is_ancestor(c, j) {
            if c == j {
                self.lemma_child_is_descendant(i, c);
            } else {
                self.lemma_descendant_of_child(i, c, self.nodes@[j].parent->0 as int);
            }
        }
    }

    /// A child of `i` is not below another child of `i`.
    proof fn lemma_sibling_not_descendant(&self, i: int, c: int, d: int, kc: int, kd: int)
        requires
            self.wf(),
            0 <= i < self.nodes.len(),
            0 <= kc < self.nodes@[i].children.len(),
            0 <= kd < self.nodes@[i].children.len(),
            kc != kd,
            c == self.nodes@[i].children@[kc],
            d == self.nodes@[i].children@[kd],
        ensures
            !self.is_ancestor(c, d),
    {
        assert(view_wf(node_view(self.nodes@[i])));
        assert(i < self.nodes@[i].children@[kc] < self.nodes.len());
        assert(i < self.nodes@[i].children@[kd] < self.nodes.len());
        if kc < kd {
            assert(self.nodes@[i].children@[kc] < self.nodes@[i].children@[kd]);
        } else {
            assert(self.nodes@[i].children@[kd] < self.nodes@[i].children@[kc]);
        }
        if self.is_ancestor(c, d) && c != d {
            self.lemma_ancestor_le(c, i);
        }
    }

    /// Runs the layout passes from the root on a viewport of size `avail`:
    /// the root gets the whole viewport, its content area goes to its
    /// children, and every child is placed.
    #[verifier::rlimit(100)]
    pub fn layout(&mut self, avail: Size)
        requires
            old(self).wf(),
            0 <= avail.width <= SPACE_LIMIT,
            0 <= avail.height <= SPACE_LIMIT,
        ensures
            final(self).wf(),
            final(self).view() == old(self).view(),
            ({
                let pad = old(self).geometry_at(0).padding;
                let inner = avail.spec_without_padding(pad);
                !(inner.width < 0 || inner.height <= 0) ==> {
                    &&& final(self).geometry_at(0).content_layout
                        == (Rect { x: pad.left, y: pad.top, width: inner.width, height: inner.height })
                    &&& final(self).geometry_at(0).widget_layout.width == avail.width
                    &&& final(self).geometry_at(0).widget_layout.height == avail.height
                    &&& forall|k: int| 0 <= k < old(self).nodes@[0].children.len() ==> {
                        let c = #[trigger] old(self).nodes@[0].children@[k] as int;
                        let a = old(self).child_allocation(0, k, inner);
                        let cp = old(self).geometry_at(c).padding;
                        let ci = a.spec_without_padding(cp);
                        !(ci.width < 0 || ci.height <= 0) ==> {
                            &&& final(self).geometry_at(c).widget_layout.width == a.width
                            &&& final(self).geometry_at(c).widget_layout.height == a.height
                            &&& final(self).geometry_at(c).content_layout
                                == (Rect { x: cp.left, y: cp.top, width: ci.width, height: ci.height })
                        }
                    }
                }
            }),
            forall|k: int| 0 <= k < final(self).nodes@[0].children.len() ==> {
                &&& (#[trigger] final(self).geometry_at(final(self).nodes@[0].children@[k] as int)).widget_layout.x
                    == final(self).child_target(0, k).x
                &&& final(self).geometry_at(final(self).nodes@[0].children@[k] as int).widget_layout.y
                    == final(self).child_target(0, k).y
            },
    {
        self.update_content_size(0, avail);
        let ghost m1 = *self;
        self.update_child_positions(0);
        proof {
            let n = m1.nodes@[0].children.len();
            assert(self.nodes@[0] == m1.nodes@[0]);
            assert forall|j: int| 0 <= j < self.nodes.len() implies
                #[trigger] self.geometry_at(j).content_layout == m1.geometry_at(j).content_layout
                && self.geometry_at(j).widget_layout.width == m1.geometry_at(j).widget_layout.width
                && self.geometry_at(j).widget_layout.height == m1.geometry_at(j).widget_layout.height
                && self.geometry_at(j).position == m1.geometry_at(j).position by {
                assert(self.nodes@[j] == self.nodes@[j]);
            }
            assert(view_wf(node_view(m1.nodes@[0])));
            assert forall|k: int| 0 <= k < n implies 0 <= #[trigger] m1.nodes@[0].children@[k] < m1.nodes.len() by {
                assert(0 < m1.nodes@[0].children@[k] < m1.nodes.len());
            }
            assert forall|k: int| 0 <= k < n implies #[trigger] self.child_boxes(0)[k] == m1.child_boxes(0)[k] by {
                let c = m1.nodes@[0].children@[k] as int;
                assert(0 <= c < m1.nodes.len());
                assert(self.geometry_at(c).widget_layout.width == m1.geometry_at(c).widget_layout.width);
            }
            assert(self.child_boxes(0) =~= m1.child_boxes(0));
            assert(kind_of(self.nodes@[0].widget) == kind_of(m1.nodes@[0].widget));
            assert forall|k: int| 0 <= k < n implies #[trigger] self.child_target(0, k) == m1.child_target(0, k) by {
                let c = self.nodes@[0].children@[k] as int;
                assert(0 <= m1.nodes@[0].children@[k] < m1.nodes.len());
                assert(self.geometry_at(c).position == m1.geometry_at(c).position);
            }
        }
    }

    /// `a` is `j` or one of its ancestors.
    pub open spec fn is_ancestor(&self, a: int, j: int) -> bool
        decreases j,
    {
        if a == j {
            true
        } else if 0 < j < self.nodes.len() && self.nodes@[j].parent is Some && self.nodes@[j].parent->0 < j {
            self.is_ancestor(a, self.nodes@[j].parent->0 as int)
        } else {
            false
        }
    }

    /// The root is an ancestor of every node.
    pub proof fn lemma_root_is_ancestor(&self, j: int)
        requires
            self.wf(),
            0 <= j < self.nodes.len(),
        ensures
            self.is_ancestor(0, j),
        decreases j,
    {
        if j > 0 {
            assert(view_wf(node_view(self.nodes@[j])));
            self.lemma_root_is_ancestor(self.nodes@[j].parent->0 as int);
        }
    }

    proof fn lemma_ancestor_le(&self, a: int, j: int)
        requires
            self.is_ancestor(a, j),
        ensures
            a <= j,
        decreases j,
    {
        if a != j {
            self.lemma_ancestor_le(a, self.nodes@[j].parent->0 as int);
        }
    }

    proof fn lemma_same_parents_same_ancestors(&self, other: &Gui, a: int, j: int)
        requires
            self.nodes.len() == other.nodes.len(),
            forall|m: int| 0 <= m < self.nodes.len() ==> (#[trigger] self.nodes@[m]).parent == other.nodes@[m].parent,
        ensures
            self.is_ancestor(a, j) == other.is_ancestor(a, j),
        decreases j,
    {
        if a != j && 0 < j < self.nodes.len() {
            assert(self.nodes@[j].parent == other.nodes@[j].parent);
            if self.nodes@[j].parent is Some && self.nodes@[j].parent->0 < j {
                self.lemma_same_parents_same_ancestors(other, a, self.nodes@[j].parent->0 as int);
            }
        }
    }

    /// Marks the preferred size of node `i` and of each of its ancestors as
    /// stale; every other node keeps its flags.
    pub fn invalidate_preferred_size(&mut self, i: usize)
        requires
            old(self).wf(),
            i < old(self).nodes.len(),
        ensures
            final(self).wf(),
            final(self).view() == old(self).view(),
            final(self).nodes.len() == old(self).nodes.len(),
            forall|j: int| 0 <= j < final(self).nodes.len() ==> {
                &&& (#[trigger] final(self).nodes@[j]).parent == old(self).nodes@[j].parent
                &&& final(self).nodes@[j].children == old(self).nodes@[j].children
                &&& kind_of(final(self).nodes@[j].widget) == kind_of(old(self).nodes@[j].widget)
            },
            forall|j: int| 0 <= j < final(self).nodes.len() ==> {
                &&& (#[trigger] final(self).geometry_at(j)).state.preferred_size == (old(self).is_ancestor(j, i as int)
                    || old(self).geometry_at(j).state.preferred_size)
                &&& final(self).geometry_at(j) == (Geometry {
                    state: final(self).geometry_at(j).state,
                    ..old(self).geometry_at(j)
                })
                &&& !old(self).is_ancestor(j, i as int) ==> final(self).geometry_at(j) == old(self).geometry_at(j)
                &&& final(self).geometry_at(j).state.content_size == old(self).geometry_at(j).state.content_size
                &&& final(self).geometry_at(j).state.position == old(self).geometry_at(j).state.position
                &&& final(self).geometry_at(j).state.style == old(self).geometry_at(j).state.style
            },
        decreases i,
    {
        let mut g = self.nodes[i].widget.geometry();
        let ghost g0 = g;
        g.state.mark_dirty(DirtyFlags::PreferredSize);
        proof {
            assert(g.state.is_dirty(DirtyFlags::ContentSize) == g0.state.is_dirty(DirtyFlags::ContentSize));
            assert(g.state.is_dirty(DirtyFlags::Position) == g0.state.is_dirty(DirtyFlags::Position));
            assert(g.state.is_dirty(DirtyFlags::Style) == g0.state.is_dirty(DirtyFlags::Style));
            assert(g.state.is_dirty(DirtyFlags::PreferredSize));
            assert(view_wf(node_view(self.nodes@[i as int])));
            assert(layout_wf(self.nodes@[i as int].widget.geometry_spec()));
        }
        let ghost start = *self;
        self.replace_geometry(i, g);
        let ghost mid = *self;
        match self.nodes[i].parent {
            Some(p) => {
                proof {
                    assert(i > 0) by {
                        assert(start.nodes@[0].parent is None);
                    }
                    assert(view_wf(node_view(start.nodes@[i as int])));
                }
                self.invalidate_preferred_size(p);
                proof {
                    assert forall|m: int| 0 <= m < mid.nodes.len() implies (#[trigger] mid.nodes@[m]).parent == start.nodes@[m].parent by {}
                    assert forall|j: int| 0 <= j < self.nodes.len() implies {
                        &&& (#[trigger] self.geometry_at(j)).state.preferred_size == (start.is_ancestor(j, i as int)
                            || start.geometry_at(j).state.preferred_size)
                        &&& self.geometry_at(j) == (Geometry { state: self.geometry_at(j).state, ..start.geometry_at(j) })
                        &&& !start.is_ancestor(j, i as int) ==> self.geometry_at(j) == start.geometry_at(j)
                        &&& self.geometry_at(j).state.content_size == start.geometry_at(j).state.content_size
                        &&& self.geometry_at(j).state.position == start.geometry_at(j).state.position
                        &&& self.geometry_at(j).state.style == start.geometry_at(j).state.style
                    } by {
                        mid.lemma_same_parents_same_ancestors(&start, j, p as int);
                        assert(self.geometry_at(j) == self.geometry_at(j));
                        assert(mid.geometry_at(j) == mid.geometry_at(j));
                        if j != i {
                            assert(mid.nodes@[j] == start.nodes@[j]);
                        }
                    }
                }
            },
            None => {
                proof {
                    assert forall|j: int| 0 <= j < self.nodes.len() implies {
                        &&& (#[trigger] self.geometry_at(j)).state.preferred_size == (start.is_ancestor(j, i as int)
                            || start.geometry_at(j).state.preferred_size)
                        &&& self.geometry_at(j) == (Geometry { state: self.geometry_at(j).state, ..start.geometry_at(j) })
                        &&& !start.is_ancestor(j, i as int) ==> self.geometry_at(j) == start.geometry_at(j)
                        &&& self.geometry_at(j).state.content_size == start.geometry_at(j).state.content_size
                        &&& self.geometry_at(j).state.position == start.geometry_at(j).state.position
                        &&& self.geometry_at(j).state.style == start.geometry_at(j).state.style
                    } by {
                        if j != i {
                            assert(self.nodes@[j] == start.nodes@[j]);
                        }
                    }
                }
            },
        }
    }

    /// Replaces the layout inputs of node `i` with those of `g`, then marks
    /// the preferred size of `i` and of its ancestors as stale.
    fn change_inputs(&mut self, i: usize, g: Geometry)
        requires
            old(self).wf(),
            i < old(self).nodes.len(),
            inputs_wf(g),
            g == (Geometry {
                preferred_size: g.preferred_size,
                padding: g.padding,
                fill_width: g.fill_width,
                fill_height: g.fill_height,
                position: g.position,
                ..old(self).geometry_at(i as int)
            }),
        ensures
            final(self).wf(),
            final(self).nodes.len() == old(self).nodes.len(),
            same_inputs(final(self).geometry_at(i as int), g),
            forall|j: int| 0 <= j < final(self).nodes.len() ==> {
                &&& (#[trigger] final(self).nodes@[j]).parent == old(self).nodes@[j].parent
                &&& final(self).nodes@[j].children == old(self).nodes@[j].children
                &&& kind_of(final(self).nodes@[j].widget) == kind_of(old(self).nodes@[j].widget)
            },
            forall|j: int| 0 <= j < final(self).nodes.len() ==> {
                &&& (#[trigger] final(self).geometry_at(j)).state.preferred_size == (old(self).is_ancestor(j, i as int)
                    || old(self).geometry_at(j).state.preferred_size)
                &&& !old(self).is_ancestor(j, i as int) ==> final(self).geometry_at(j) == old(self).geometry_at(j)
                &&& j != i ==> same_inputs(final(self).geometry_at(j), old(self).geometry_at(j))
                &&& final(self).geometry_at(j).state.content_size == old(self).geometry_at(j).state.content_size
                &&& final(self).geometry_at(j).state.position == old(self).geometry_at(j).state.position
                &&& final(self).geometry_at(j).state.style == old(self).geometry_at(j).state.style
            },
    {
        proof {
            assert(layout_wf(self.nodes@[i as int].widget.geometry_spec()));
            assert(view_wf(node_view(self.nodes@[i as int])));
        }
        self.replace_geometry(i, g);
        let ghost mid = *self;
        proof {
            mid.lemma_parents_agree(&*old(self));
        }
        self.invalidate_preferred_size(i);
        proof {
            assert forall|j: int| 0 <= j < self.nodes.len() implies {
                &&& (#[trigger] self.geometry_at(j)).state.preferred_size == (old(self).is_ancestor(j, i as int)
                    || old(self).geometry_at(j).state.preferred_size)
                &&& !old(self).is_ancestor(j, i as int) ==> self.geometry_at(j) == old(self).geometry_at(j)
                &&& j != i ==> same_inputs(self.geometry_at(j), old(self).geometry_at(j))
                &&& self.geometry_at(j).state.content_size == old(self).geometry_at(j).state.content_size
                &&& self.geometry_at(j).state.position == old(self).geometry_at(j).state.position
                &&& self.geometry_at(j).state.style == old(self).geometry_at(j).state.style
            } by {
                mid.lemma_same_parents_same_ancestors(&*old(self), j, i as int);
                if j != i {
                    assert(mid.nodes@[j] == old(self).nodes@[j]);
                }
            }
        }
    }

    proof fn lemma_parents_agree(&self, other: &Gui)
        requires
            self.nodes.len() == other.nodes.len(),
            forall|j: int| 0 <= j < self.nodes.len() ==> (#[trigger] self.nodes@[j]).parent == other.nodes@[j].parent,
        ensures
            forall|a: int, j: int| self.is_ancestor(a, j) == other.is_ancestor(a, j),
    {
        assert forall|a: int, j: int| self.is_ancestor(a, j) == other.is_ancestor(a, j) by {
            self.lemma_same_parents_same_ancestors(other, a, j);
        }
    }

    /// Node `j` took the mouse snapshot with its box at `origin`: a clickable
    /// or focusable widget is hovered exactly when the mouse is inside its
    /// box and armed when also the left button is down; any other keeps its
    /// state.
    pub open spec fn acted(&self, before: &Gui, j: int, origin: Point, mouse_position: Point, mouse_state: MouseState) -> bool {
        let g = before.geometry_at(j);
        let m = before.nodes@[j].widget.model_spec();
        let f = self.nodes@[j].widget.model_spec();
        let inside = box_contains(origin, g.widget_layout.width as int, g.widget_layout.height as int, mouse_position);
        if m.clickable || m.focusable {
            f.hoovered == inside && f.armed == (inside && mouse_state.left.down)
        } else {
            f.hoovered == m.hoovered && f.armed == m.armed
        }
    }

    /// Where node `i` is drawn when its parent's content area starts at `offset`.
    pub open spec fn node_origin(&self, i: int, offset: Point) -> Point {
        Point {
            x: clamp_i64(offset.x + self.geometry_at(i).widget_layout.x) as i64,
            y: clamp_i64(offset.y + self.geometry_at(i).widget_layout.y) as i64,
        }
    }

    /// Where the content area of node `i` starts when `i` is drawn at `origin`.
    pub open spec fn content_origin(&self, i: int, origin: Point) -> Point {
        Point {
            x: clamp_i64(origin.x + self.geometry_at(i).content_layout.x) as i64,
            y: clamp_i64(origin.y + self.geometry_at(i).content_layout.y) as i64,
        }
    }

    /// The draw order of the subtree of `i`, in pre-order: each node with the
    /// point it is drawn at.
    pub open spec fn draw_spec(&self, i: int, offset: Point) -> Seq<(usize, Point)>
        decreases self.nodes.len() - i, self.nodes@[i].children.len() + 1,
    {
        if !(0 <= i < self.nodes.len()) {
            Seq::empty()
        } else {
            let o = self.node_origin(i, offset);
            seq![(i as usize, o)] + self.draw_children(i, self.content_origin(i, o), self.nodes@[i].children.len() as int)
        }
    }

    /// The draw order of the subtrees of the first `k` children of `i`.
    pub open spec fn draw_children(&self, i: int, inner: Point, k: int) -> Seq<(usize, Point)>
        decreases self.nodes.len() - i, k,
    {
        if k <= 0 || !(0 <= i < self.nodes.len()) || k > self.nodes@[i].children.len() {
            Seq::empty()
        } else {
            let c = self.nodes@[i].children@[k - 1] as int;
            if i < c < self.nodes.len() {
                self.draw_children(i, inner, k - 1) + self.draw_spec(c, inner)
            } else {
                self.draw_children(i, inner, k - 1)
            }
        }
    }

    /// The nodes of the subtree of `i` in draw order, each with the point it
    /// is drawn at: a node's children start at its own point plus the origin
    /// of its content area.
    pub fn draw_origins(&self, i: usize, offset: Point) -> (r: Vec<(usize, Point)>)
        requires
            self.wf(),
            i < self.nodes.len(),
        ensures
            r@ == self.draw_spec(i as int, offset),
        decreases self.nodes.len() - i,
    {
        let g = self.nodes[i].widget.geometry();
        let o = Point { x: clamped_add(offset.x, g.widget_layout.x), y: clamped_add(offset.y, g.widget_layout.y) };
        let inner = Point { x: clamped_add(o.x, g.content_layout.x), y: clamped_add(o.y, g.content_layout.y) };
        let mut out: Vec<(usize, Point)> = Vec::new();
        out.push((i, o));
        let n = self.nodes[i].children.len();
        let mut k: usize = 0;
        while k < n
            invariant
                self.wf(),
                i < self.nodes.len(),
                n == self.nodes@[i as int].children.len(),
                k <= n,
                out@ == seq![(i, o)] + self.draw_children(i as int, inner, k as int),
            decreases n - k,
        {
            assert(view_wf(node_view(self.nodes@[i as int])));
            let c = self.nodes[i].children[k];
            assert(i < self.nodes@[i as int].children@[k as int] < self.nodes.len());
            let sub = self.draw_origins(c, inner);
            let ghost before = out@;
            let mut j: usize = 0;
            while j < sub.len()
                invariant
                    j <= sub.len(),
                    out@ == before + sub@.subrange(0, j as int),
                decreases sub.len() - j,
            {
                out.push(sub[j]);
                assert(sub@.subrange(0, j + 1) == sub@.subrange(0, j as int).push(sub@[j as int]));
                j = j + 1;
            }
            assert(sub@.subrange(0, sub.len() as int) == sub@);
            assert(out@ =~= seq![(i, o)] + self.draw_children(i as int, inner, k + 1));
            k = k + 1;
        }
        out
    }

    /// The size of node `i`, through its cache: when its preferred size is
    /// not stale the cached size is returned and nothing changes; otherwise
    /// the size is computed, cached, and the flag cleared.
    pub fn get_computed_size(&mut self, i: usize) -> (r: Size)
        requires
            old(self).wf(),
            i < old(self).nodes.len(),
        ensures
            final(self).wf(),
            final(self).view() == old(self).view(),
            final(self).nodes.len() == old(self).nodes.len(),
            !old(self).geometry_at(i as int).state.preferred_size ==> {
                &&& r == old(self).geometry_at(i as int).computed_size
                &&& final(self).nodes@ == old(self).nodes@
            },
            old(self).geometry_at(i as int).state.preferred_size ==> {
                &&& r == size_of(old(self).view(), i as int)
                &&& final(self).geometry_at(i as int) == (Geometry {
                    computed_size: r,
                    state: WidgetState { preferred_size: false, ..old(self).geometry_at(i as int).state },
                    ..old(self).geometry_at(i as int)
                })
                &&& forall|j: int| 0 <= j < final(self).nodes.len() && j != i ==>
                    #[trigger] final(self).nodes@[j] == old(self).nodes@[j]
            },
    {
        let mut g = self.nodes[i].widget.geometry();
        let ghost g0 = g;
        if g.state.dirty_flag_clean(DirtyFlags::PreferredSize) {
            return g.computed_size;
        }
        proof {
            assert(g.state.is_dirty(DirtyFlags::ContentSize) == g0.state.is_dirty(DirtyFlags::ContentSize));
            assert(g.state.is_dirty(DirtyFlags::Position) == g0.state.is_dirty(DirtyFlags::Position));
            assert(g.state.is_dirty(DirtyFlags::Style) == g0.state.is_dirty(DirtyFlags::Style));
            assert(!g.state.is_dirty(DirtyFlags::PreferredSize));
            assert(view_wf(node_view(self.nodes@[i as int])));
            assert(layout_wf(self.nodes@[i as int].widget.geometry_spec()));
        }
        let r = self.compute_size(i);
        g.computed_size = r;
        self.replace_geometry(i, g);
        r
    }

    /// Sets the spacing of row `i`. A change marks the preferred size of `i`
    /// and of every ancestor as stale and touches no other node; the same
    /// spacing, or a node that is not a row, changes nothing. Returns whether
    /// it changed.
    pub fn set_spacing(&mut self, i: usize, spacing: i64) -> (changed: bool)
        requires
            old(self).wf(),
            i < old(self).nodes.len(),
            0 <= spacing <= INPUT_LIMIT,
        ensures
            final(self).wf(),
            final(self).nodes.len() == old(self).nodes.len(),
            changed == (kind_of(old(self).nodes@[i as int].widget) is HBox
                && kind_of(old(self).nodes@[i as int].widget)->HBox_0 != spacing),
            !changed ==> final(self).nodes@ == old(self).nodes@,
            changed ==> kind_of(final(self).nodes@[i as int].widget) == WidgetKind::HBox(spacing),
            changed ==> forall|j: int| 0 <= j < final(self).nodes.len() ==> {
                &&& (old(self).is_ancestor(j, i as int) ==> (#[trigger] final(self).geometry_at(j)).state.preferred_size)
                &&& (!old(self).is_ancestor(j, i as int) ==> final(self).geometry_at(j) == old(self).geometry_at(j))
                &&& (j != i ==> kind_of(final(self).nodes@[j].widget) == kind_of(old(self).nodes@[j].widget))
            },
    {
        let current: Option<i64> = match &self.nodes[i].widget {
            Widget::HBox(p) => Some(p.spacing),
            _ => None,
        };
        match current {
            Some(s) => {
                if s == spacing {
                    return false;
                }
            },
            None => {
                return false;
            },
        }
        let ghost start = *self;
        self.nodes[i].widget.set_row_spacing(spacing);
        proof {
            assert forall|j: int| 0 <= j < self.nodes.len() implies {
                &&& view_wf(#[trigger] node_view(self.nodes@[j]))
                &&& layout_wf(self.nodes@[j].widget.geometry_spec())
                &&& self.nodes@[j].widget.tree_index_spec() == Some(j as usize)
                &&& (j > 0 ==> self.nodes@[j].parent is Some && self.nodes@[j].parent->0 < j)
                &&& forall|k: int| 0 <= k < self.nodes@[j].children.len() ==> {
                    &&& j < #[trigger] self.nodes@[j].children@[k] < self.nodes.len()
                    &&& self.nodes@[self.nodes@[j].children@[k] as int].parent == Some(j as usize)
                }
            } by {
                assert(view_wf(node_view(start.nodes@[j])));
                assert forall|k: int| 0 <= k < self.nodes@[j].children.len() implies {
                    &&& j < #[trigger] self.nodes@[j].children@[k] < self.nodes.len()
                    &&& self.nodes@[self.nodes@[j].children@[k] as int].parent == Some(j as usize)
                } by {
                    assert(start.nodes@[j].children@[k] == self.nodes@[j].children@[k]);
                    let c = self.nodes@[j].children@[k] as int;
                    assert(self.nodes@[c].parent == start.nodes@[c].parent);
                }
            }
            assert(self.children_sorted()) by {
                assert forall|a: int, k1: int, k2: int| 0 <= a < self.nodes.len() && 0 <= k1 < k2 < self.nodes@[a].children.len() implies
                    #[trigger] self.nodes@[a].children@[k1] < #[trigger] self.nodes@[a].children@[k2] by {
                    assert(self.nodes@[a].children == start.nodes@[a].children);
                }
            }
        }
        let ghost mid = *self;
        self.invalidate_preferred_size(i);
        proof {
            assert forall|j: int| 0 <= j < mid.nodes.len() implies (#[trigger] mid.nodes@[j]).parent == start.nodes@[j].parent by {}
            mid.lemma_parents_agree(&start);
            assert forall|j: int| 0 <= j < self.nodes.len() implies {
                &&& (start.is_ancestor(j, i as int) ==> (#[trigger] self.geometry_at(j)).state.preferred_size)
                &&& (!start.is_ancestor(j, i as int) ==> self.geometry_at(j) == start.geometry_at(j))
                &&& (j != i ==> kind_of(self.nodes@[j].widget) == kind_of(start.nodes@[j].widget))
            } by {
                if j != i {
                    assert(mid.nodes@[j] == start.nodes@[j]);
                }
                assert(self.nodes@[j] == self.nodes@[j]);
            }
        }
        true
    }

    /// Sets the padding of node `i`. A change marks the preferred size of
    /// `i` and of every ancestor as stale and touches no other node; setting
    /// the same padding changes nothing. Returns whether it changed.
    pub fn set_padding(&mut self, i: usize, padding: Padding) -> (changed: bool)
        requires
            old(self).wf(),
            i < old(self).nodes.len(),
            padding.wf(),
        ensures
            final(self).wf(),
            final(self).nodes.len() == old(self).nodes.len(),
            final(self).geometry_at(i as int).padding == padding,
            changed == (old(self).geometry_at(i as int).padding != padding),
            !changed ==> final(self).nodes@ == old(self).nodes@,
            changed ==> forall|j: int| 0 <= j < final(self).nodes.len() ==> {
                &&& (old(self).is_ancestor(j, i as int) ==> (#[trigger] final(self).geometry_at(j)).state.preferred_size)
                &&& (!old(self).is_ancestor(j, i as int) ==> final(self).geometry_at(j) == old(self).geometry_at(j))
            },
    {
        let g = self.nodes[i].widget.geometry();
        if g.padding == padding {
            return false;
        }
        proof {
            assert(view_wf(node_view(self.nodes@[i as int])));
        }
        self.change_inputs(i, Geometry { padding, ..g });
        true
    }

    /// Sets the preferred size of node `i`, with the same invalidation as
    /// `set_padding`. Returns whether it changed.
    pub fn set_preferred_size(&mut self, i: usize, preferred: PreferredSize) -> (changed: bool)
        requires
            old(self).wf(),
            i < old(self).nodes.len(),
            preferred.wf(),
        ensures
            final(self).wf(),
            final(self).nodes.len() == old(self).nodes.len(),
            final(self).geometry_at(i as int).preferred_size == preferred,
            changed == (old(self).geometry_at(i as int).preferred_size != preferred),
            !changed ==> final(self).nodes@ == old(self).nodes@,
            changed ==> forall|j: int| 0 <= j < final(self).nodes.len() ==> {
                &&& (old(self).is_ancestor(j, i as int) ==> (#[trigger] final(self).geometry_at(j)).state.preferred_size)
                &&& (!old(self).is_ancestor(j, i as int) ==> final(self).geometry_at(j) == old(self).geometry_at(j))
            },
    {
        let g = self.nodes[i].widget.geometry();
        if g.preferred_size == preferred {
            return false;
        }
        proof {
            assert(view_wf(node_view(self.nodes@[i as int])));
        }
        self.change_inputs(i, Geometry { preferred_size: preferred, ..g });
        true
    }

    /// Sets how node `i` fills its parent's width, with the same
    /// invalidation as `set_padding`. Returns whether it changed.
    pub fn set_fill_width(&mut self, i: usize, fill: Fill) -> (changed: bool)
        requires
            old(self).wf(),
            i < old(self).nodes.len(),
            fill.wf(),
        ensures
            final(self).wf(),
            final(self).nodes.len() == old(self).nodes.len(),
            final(self).geometry_at(i as int).fill_width == fill,
            changed == (old(self).geometry_at(i as int).fill_width != fill),
            !changed ==> final(self).nodes@ == old(self).nodes@,
            changed ==> forall|j: int| 0 <= j < final(self).nodes.len() ==> {
                &&& (old(self).is_ancestor(j, i as int) ==> (#[trigger] final(self).geometry_at(j)).state.preferred_size)
                &&& (!old(self).is_ancestor(j, i as int) ==> final(self).geometry_at(j) == old(self).geometry_at(j))
            },
    {
        let g = self.nodes[i].widget.geometry();
        if g.fill_width == fill {
            return false;
        }
        proof {
            assert(view_wf(node_view(self.nodes@[i as int])));
        }
        self.change_inputs(i, Geometry { fill_width: fill, ..g });
        true
    }

    /// Sets how node `i` fills its parent's height, with the same
    /// invalidation as `set_padding`. Returns whether it changed.
    pub fn set_fill_height(&mut self, i: usize, fill: Fill) -> (changed: bool)
        requires
            old(self).wf(),
            i < old(self).nodes.len(),
            fill.wf(),
        ensures
            final(self).wf(),
            final(self).nodes.len() == old(self).nodes.len(),
            final(self).geometry_at(i as int).fill_height == fill,
            changed == (old(self).geometry_at(i as int).fill_height != fill),
            !changed ==> final(self).nodes@ == old(self).nodes@,
            changed ==> forall|j: int| 0 <= j < final(self).nodes.len() ==> {
                &&& (old(self).is_ancestor(j, i as int) ==> (#[trigger] final(self).geometry_at(j)).state.preferred_size)
                &&& (!old(self).is_ancestor(j, i as int) ==> final(self).geometry_at(j) == old(self).geometry_at(j))
            },
    {
        let g = self.nodes[i].widget.geometry();
        if g.fill_height == fill {
            return false;
        }
        proof {
            assert(view_wf(node_view(self.nodes@[i as int])));
        }
        self.change_inputs(i, Geometry { fill_height: fill, ..g });
        true
    }

    /// Sets the requested position of node `i`, with the same invalidation
    /// as `set_padding`. Returns whether it changed.
    pub fn set_position(&mut self, i: usize, position: Position) -> (changed: bool)
        requires
            old(self).wf(),
            i < old(self).nodes.len(),
            position.wf(),
        ensures
            final(self).wf(),
            final(self).nodes.len() == old(self).nodes.len(),
            final(self).geometry_at(i as int).position == position,
            changed == (old(self).geometry_at(i as int).position != position),
            !changed ==> final(self).nodes@ == old(self).nodes@,
            changed ==> forall|j: int| 0 <= j < final(self).nodes.len() ==> {
                &&& (old(self).is_ancestor(j, i as int) ==> (#[trigger] final(self).geometry_at(j)).state.preferred_size)
                &&& (!old(self).is_ancestor(j, i as int) ==> final(self).geometry_at(j) == old(self).geometry_at(j))
            },
    {
        let g = self.nodes[i].widget.geometry();
        if g.position == position {
            return false;
        }
        proof {
            assert(view_wf(node_view(self.nodes@[i as int])));
        }
        self.change_inputs(i, Geometry { position, ..g });
        true
    }

    /// Adds `widget` as the last child of `parent` and returns its index.
    /// The new node and the preferred size of `parent` and of its ancestors
    /// are marked stale.
    pub fn add_child(&mut self, parent: usize, widget: Widget) -> (r: usize)
        requires
            old(self).wf(),
            parent < old(self).nodes.len(),
            old(self).nodes.len() < usize::MAX - 1,
            old(self).nodes@[parent as int].children.len() < MAX_CHILDREN,
            widget_ok(widget),
        ensures
            final(self).wf(),
            r == old(self).nodes.len(),
            final(self).nodes.len() == old(self).nodes.len() + 1,
            final(self).nodes@[r as int].parent == Some(parent),
            final(self).nodes@[r as int].children@.len() == 0,
            final(self).nodes@[parent as int].children@ == old(self).nodes@[parent as int].children@.push(r),
            same_inputs(final(self).geometry_at(r as int), widget.geometry_spec()),
            kind_of(final(self).nodes@[r as int].widget) == kind_of(widget),
            forall|j: int| 0 <= j < old(self).nodes.len() && j != parent ==>
                (#[trigger] final(self).nodes@[j]).children == old(self).nodes@[j].children,
            forall|j: int| 0 <= j < old(self).nodes.len() ==> {
                &&& same_inputs(#[trigger] final(self).geometry_at(j), old(self).geometry_at(j))
                &&& kind_of(final(self).nodes@[j].widget) == kind_of(old(self).nodes@[j].widget)
                &&& final(self).nodes@[j].parent == old(self).nodes@[j].parent
                &&& (old(self).is_ancestor(j, parent as int) ==> final(self).geometry_at(j).state.preferred_size)
            },
    {
        let r = self.nodes.len();
        let mut w = widget;
        w.set_tree_index(r);
        let ghost start = *self;
        self.nodes.push(Node { widget: w, parent: Some(parent), children: Vec::new() });
        self.nodes[parent].children.push(r);
        proof {
            assert(view_wf(node_view(start.nodes@[parent as int])));
            assert forall|j: int| 0 <= j < self.nodes.len() implies {
                &&& view_wf(#[trigger] node_view(self.nodes@[j]))
                &&& layout_wf(self.nodes@[j].widget.geometry_spec())
                &&& self.nodes@[j].widget.tree_index_spec() == Some(j as usize)
                &&& (j > 0 ==> self.nodes@[j].parent is Some && self.nodes@[j].parent->0 < j)
                &&& forall|k: int| 0 <= k < self.nodes@[j].children.len() ==> {
                    &&& j < #[trigger] self.nodes@[j].children@[k] < self.nodes.len()
                    &&& self.nodes@[self.nodes@[j].children@[k] as int].parent == Some(j as usize)
                }
            } by {
                if j < r {
                    assert(view_wf(node_view(start.nodes@[j])));
                    assert forall|k: int| 0 <= k < self.nodes@[j].children.len() implies {
                        &&& j < #[trigger] self.nodes@[j].children@[k] < self.nodes.len()
                        &&& self.nodes@[self.nodes@[j].children@[k] as int].parent == Some(j as usize)
                    } by {
                        if j != parent || k < start.nodes@[j].children.len() {
                            assert(self.nodes@[j].children@[k] == start.nodes@[j].children@[k]);
                        }
                    }
                } else {
                    assert(self.nodes@[j].children@.len() == 0);
                }
            }
        }
        let ghost mid = *self;
        self.invalidate_preferred_size(parent);
        proof {
            assert forall|j: int| 0 <= j < start.nodes.len() implies
                mid.is_ancestor(j, parent as int) == start.is_ancestor(j, parent as int) by {
                mid.lemma_prefix_ancestors(&start, j, parent as int);
            }
            assert forall|j: int| 0 <= j < start.nodes.len() implies {
                &&& same_inputs(#[trigger] self.geometry_at(j), start.geometry_at(j))
                &&& kind_of(self.nodes@[j].widget) == kind_of(start.nodes@[j].widget)
                &&& self.nodes@[j].parent == start.nodes@[j].parent
                &&& (start.is_ancestor(j, parent as int) ==> self.geometry_at(j).state.preferred_size)
            } by {
                assert(node_view(self.nodes@[j]) == node_view(mid.nodes@[j])) by {
                    assert(self.view()[j] == mid.view()[j]);
                }
                assert(mid.nodes@[j].widget == start.nodes@[j].widget || j == parent);
                assert(self.nodes@[j].parent == mid.nodes@[j].parent);
            }
            assert forall|j: int| 0 <= j < start.nodes.len() && j != parent implies
                (#[trigger] self.nodes@[j]).children == start.nodes@[j].children by {
                assert(self.nodes@[j].children == mid.nodes@[j].children);
            }
            assert(self.nodes@[r as int].children == mid.nodes@[r as int].children);
            assert(self.nodes@[parent as int].children == mid.nodes@[parent as int].children);
            assert(node_view(self.nodes@[r as int]) == node_view(mid.nodes@[r as int])) by {
                assert(self.view()[r as int] == mid.view()[r as int]);
            }
        }
        r
    }

    proof fn lemma_prefix_ancestors(&self, prefix: &Gui, a: int, j: int)
        requires
            prefix.nodes.len() <= self.nodes.len(),
            0 <= j < prefix.nodes.len(),
            forall|m: int| 0 <= m < prefix.nodes.len() ==> (#[trigger] self.nodes@[m]).parent == prefix.nodes@[m].parent,
        ensures
            self.is_ancestor(a, j) == prefix.is_ancestor(a, j),
        decreases j,
    {
        assert(self.nodes@[j].parent == prefix.nodes@[j].parent);
        if a != j && 0 < j && self.nodes@[j].parent is Some && self.nodes@[j].parent->0 < j {
            self.lemma_prefix_ancestors(prefix, a, self.nodes@[j].parent->0 as int);
        }
    }

    /// Hands the mouse snapshot to node `i`, whose parent's content area
    /// starts at `offset`, then to every node of its subtree. Nothing is
    /// consumed: each node gets the dispatch.
    pub fn update_action(&mut self, i: usize, offset: Point, mouse_position: Point, mouse_state: &MouseState)
        requires
            old(self).wf(),
            i < old(self).nodes.len(),
        ensures
            final(self).wf(),
            final(self).view() == old(self).view(),
            final(self).nodes.len() == old(self).nodes.len(),
            forall|j: int| 0 <= j < final(self).nodes.len() ==> #[trigger] final(self).geometry_at(j) == old(self).geometry_at(j),
            forall|j: int| 0 <= j < final(self).nodes.len() ==> (#[trigger] final(self).nodes@[j]).parent == old(self).nodes@[j].parent,
            forall|j: int| 0 <= j < i ==> #[trigger] final(self).nodes@[j] == old(self).nodes@[j],
            forall|j: int| 0 <= j < final(self).nodes.len() && !old(self).is_ancestor(i as int, j) ==>
                #[trigger] final(self).nodes@[j] == old(self).nodes@[j],
            final(self).acted(&*old(self), i as int, old(self).node_origin(i as int, offset), mouse_position, *mouse_state),
            forall|k: int| 0 <= k < old(self).nodes@[i as int].children.len() ==> {
                let c = #[trigger] old(self).nodes@[i as int].children@[k] as int;
                let inner = old(self).content_origin(i as int, old(self).node_origin(i as int, offset));
                final(self).acted(&*old(self), c, old(self).node_origin(c, inner), mouse_position, *mouse_state)
            },
        decreases old(self).nodes.len() - i,
    {
        let g = self.nodes[i].widget.geometry();
        let origin = Point { x: clamped_add(offset.x, g.widget_layout.x), y: clamped_add(offset.y, g.widget_layout.y) };
        let ghost start = *self;
        self.nodes[i].widget.update_action(&origin, &mouse_position, mouse_state);
        proof {
            assert(self.view() =~= start.view());
            assert forall|j: int| 0 <= j < self.nodes.len() implies {
                &&& view_wf(#[trigger] node_view(self.nodes@[j]))
                &&& layout_wf(self.nodes@[j].widget.geometry_spec())
                &&& self.nodes@[j].widget.tree_index_spec() == Some(j as usize)
                &&& (j > 0 ==> self.nodes@[j].parent is Some && self.nodes@[j].parent->0 < j)
                &&& forall|k: int| 0 <= k < self.nodes@[j].children.len() ==> {
                    &&& j < #[trigger] self.nodes@[j].children@[k] < self.nodes.len()
                    &&& self.nodes@[self.nodes@[j].children@[k] as int].parent == Some(j as usize)
                }
            } by {
                assert(view_wf(node_view(start.nodes@[j])));
                assert(node_view(self.nodes@[j]) == node_view(start.nodes@[j]));
                assert forall|k: int| 0 <= k < self.nodes@[j].children.len() implies {
                    &&& j < #[trigger] self.nodes@[j].children@[k] < self.nodes.len()
                    &&& self.nodes@[self.nodes@[j].children@[k] as int].parent == Some(j as usize)
                } by {
                    assert(start.nodes@[j].children@[k] == self.nodes@[j].children@[k]);
                    let c = self.nodes@[j].children@[k] as int;
                    assert(self.nodes@[c].parent == start.nodes@[c].parent);
                }
            }
        }
        let inner = Point { x: clamped_add(origin.x, g.content_layout.x), y: clamped_add(origin.y, g.content_layout.y) };
        let n = self.nodes[i].children.len();
        let ghost v0 = self.view();
        let ghost mid = self.nodes@;
        let mut k: usize = 0;
        while k < n
            invariant
                self.wf(),
                self.view() == v0,
                v0 == old(self).view(),
                self.nodes.len() == mid.len(),
                mid.len() == old(self).nodes.len(),
                i < self.nodes.len(),
                forall|j: int| 0 <= j <= i ==> #[trigger] self.nodes@[j] == mid[j],
                forall|j: int| 0 <= j < i ==> #[trigger] mid[j] == old(self).nodes@[j],
                forall|j: int| 0 <= j < self.nodes.len() ==> #[trigger] self.geometry_at(j) == old(self).geometry_at(j),
                forall|j: int| 0 <= j < self.nodes.len() ==> (#[trigger] self.nodes@[j]).parent == old(self).nodes@[j].parent,
                forall|j: int| 0 <= j < self.nodes.len() && j != i ==> #[trigger] mid[j] == old(self).nodes@[j],
                forall|j: int| 0 <= j < self.nodes.len() && !old(self).is_ancestor(i as int, j) ==>
                    #[trigger] self.nodes@[j] == mid[j],
                forall|m: int| k <= m < n ==> #[trigger] self.nodes@[mid[i as int].children@[m] as int]
                    == mid[mid[i as int].children@[m] as int],
                forall|m: int| 0 <= m < k ==> self.acted(&*old(self), #[trigger] mid[i as int].children@[m] as int,
                    old(self).node_origin(mid[i as int].children@[m] as int, inner), mouse_position, *mouse_state),
                inner == old(self).content_origin(i as int, old(self).node_origin(i as int, offset)),
                old(self).wf(),
                n == mid[i as int].children.len(),
                mid[i as int].children == old(self).nodes@[i as int].children,
                k <= n,
            decreases n - k,
        {
            assert(view_wf(node_view(self.nodes@[i as int])));
            let c = self.nodes[i].children[k];
            assert(i < self.nodes@[i as int].children@[k as int] < self.nodes.len());
            let ghost before = *self;
            proof {
                assert forall|j: int| 0 <= j < before.nodes.len() implies (#[trigger] before.nodes@[j]).parent == old(self).nodes@[j].parent by {}
                before.lemma_parents_agree(&*old(self));
                old(self).lemma_child_is_descendant(i as int, c as int);
            }
            self.update_action(c, inner, mouse_position, mouse_state);
            proof {
                assert forall|j: int| 0 <= j < self.nodes.len() && !old(self).is_ancestor(i as int, j) implies
                    #[trigger] self.nodes@[j] == mid[j] by {
                    old(self).lemma_descendant_of_child(i as int, c as int, j);
                }
                assert forall|j: int| 0 <= j <= i implies #[trigger] self.nodes@[j] == mid[j] by {
                    if old(self).is_ancestor(c as int, j) {
                        old(self).lemma_ancestor_le(c as int, j);
                    }
                }
                assert forall|m: int| k < m < n implies #[trigger] self.nodes@[mid[i as int].children@[m] as int]
                    == mid[mid[i as int].children@[m] as int] by {
                    let d = mid[i as int].children@[m] as int;
                    old(self).lemma_sibling_not_descendant(i as int, c as int, d, k as int, m);
                }
                assert(before.nodes@[c as int] == old(self).nodes@[c as int]);
                assert forall|m: int| 0 <= m <= k implies self.acted(&*old(self), #[trigger] mid[i as int].children@[m] as int,
                    old(self).node_origin(mid[i as int].children@[m] as int, inner), mouse_position, *mouse_state) by {
                    let d = mid[i as int].children@[m] as int;
                    if m < k {
                        old(self).lemma_sibling_not_descendant(i as int, c as int, d, k as int, m);
                        assert(self.nodes@[d] == before.nodes@[d]);
                    }
                }
            }
            k = k + 1;
        }
        proof {
            assert forall|j: int| 0 <= j < self.nodes.len() && !old(self).is_ancestor(i as int, j) implies
                #[trigger] self.nodes@[j] == old(self).nodes@[j] by {
                assert(j != i);
            }
            assert(self.nodes@[i as int] == mid[i as int]);
        }
    }
}

pub open spec fn clamp_i64(x: int) -> int {
    if x > i64::MAX { i64::MAX as int } else if x < i64::MIN { i64::MIN as int } else { x }
}

/// `a + b`, held within the range of `i64`.
pub fn clamped_add(a: i64, b: i64) -> (r: i64)
    ensures
        r == clamp_i64(a + b),
{
    let s = a as i128 + b as i128;
    if s > i64::MAX as i128 {
        i64::MAX
    } else if s < i64::MIN as i128 {
        i64::MIN
    } else {
        s as i64
    }
}

/// A widget that may enter a tree: its inputs are within limits.
pub open spec fn widget_ok(w: Widget) -> bool {
    &&& inputs_wf(w.geometry_spec())
    &&& layout_wf(w.geometry_spec())
    &&& match kind_of(w) {
        WidgetKind::Label(s) => 0 <= s.width <= INPUT_LIMIT && 0 <= s.height <= INPUT_LIMIT,
        WidgetKind::Pane => true,
        WidgetKind::HBox(spacing) => 0 <= spacing <= INPUT_LIMIT,
    }
}

/// A tree holding `root` alone, at index 0.
pub fn create_gui(root: Widget) -> (r: Gui)
    requires
        widget_ok(root),
    ensures
        r.wf(),
        r.nodes.len() == 1,
        r.nodes@[0].children@.len() == 0,
        same_inputs(r.geometry_at(0), root.geometry_spec()),
        kind_of(r.nodes@[0].widget) == kind_of(root),
{
    let mut w = root;
    w.set_tree_index(0);
    let mut nodes: Vec<Node> = Vec::new();
    nodes.push(Node { widget: w, parent: None, children: Vec::new() });
    let r = Gui { nodes };
    proof {
        assert(view_wf(node_view(r.nodes@[0])));
    }
    r
}

pub open spec fn inputs_wf(g: Geometry) -> bool {
    g.preferred_size.wf() && g.padding.wf() && g.fill_width.wf() && g.fill_height.wf() && g.position.wf()
}

pub open spec fn same_inputs(a: Geometry, b: Geometry) -> bool {
    &&& a.preferred_size == b.preferred_size
    &&& a.padding == b.padding
    &&& a.fill_width == b.fill_width
    &&& a.fill_height == b.fill_height
    &&& a.position == b.position
}

} // verus!
