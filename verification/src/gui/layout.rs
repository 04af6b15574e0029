//! What the traversals of the node tree compute, as functions on the nodes.
//!
//! The nodes are a map from handles to nodes. A second map gives every node a
//! rank; a traversal goes from a node to a child only if the child resolves
//! and has a smaller rank, so every traversal ends. In a well-formed
//! interface every child that resolves has a smaller rank than its parent.

use crate::gui::draw::DrawCommandView;
use crate::gui::node::UINode;
use crate::gui::widget::AsWidget;
use crate::gui::widget::Widget;
use crate::gui::Draw;
use crate::gui::Layout;
use crate::gui::Update;
use crate::math::Rect;
use crate::math::Vec2;
use crate::pool::Handle;
use vstd::prelude::*;

verus! {

/// The live nodes of an interface.
pub type Nodes = Map<Handle<UINode>, UINode>;

/// A rank for every node.
pub type Ranks = Map<Handle<UINode>, nat>;

/// A traversal that stands on a node of rank `limit` goes down into `c`.
pub open spec fn descends(nodes: Nodes, rank: Ranks, limit: nat, c: Handle<UINode>) -> bool {
    nodes.contains_key(c) && rank[c] < limit
}

/// `b` is `a` with other results of layout in its widget, and nothing else
/// changed.
pub open spec fn node_same_but_layout(a: UINode, b: UINode) -> bool {
    b == a.spec_with_widget(b.spec_widget()) && a.spec_widget().same_but_layout(b.spec_widget())
}

/// `b` is `a` with other screen bounds in its widget, and nothing else
/// changed.
pub open spec fn node_same_but_bounds(a: UINode, b: UINode) -> bool {
    b == a.spec_with_widget(a.spec_widget().with_bounds(b.spec_widget().screen_bounds))
}

/// From `before` to `after` only results of layout changed: the same nodes
/// with the same configuration, links and variant data, and no cached
/// desired size became inconsistent.
pub open spec fn layout_step(before: Nodes, after: Nodes) -> bool {
    &&& after.dom() == before.dom()
    &&& forall|x: Handle<UINode>| #[trigger]
        before.contains_key(x) ==> {
            &&& node_same_but_layout(before[x], after[x])
            &&& before[x].spec_widget().cache_ok() ==> after[x].spec_widget().cache_ok()
        }
}

/// From `before` to `after` only screen bounds changed.
pub open spec fn bounds_step(before: Nodes, after: Nodes) -> bool {
    &&& after.dom() == before.dom()
    &&& forall|x: Handle<UINode>| #[trigger]
        before.contains_key(x) ==> node_same_but_bounds(before[x], after[x])
}

/// The node with the results of a measure pass recorded in it.
pub open spec fn node_with_measure(node: UINode, available: Vec2, desired: Vec2) -> UINode {
    node.spec_with_widget(node.spec_widget().with_measure(available, desired))
}

/// The node with the result of an arrange pass recorded in it.
pub open spec fn node_with_bounds(node: UINode, bounds: Rect) -> UINode {
    node.spec_with_widget(node.spec_widget().with_bounds(bounds))
}

/// The node with its cached desired size marked as out of date.
pub open spec fn node_with_dirty(node: UINode) -> UINode {
    node.spec_with_widget(node.spec_widget().with_dirty())
}

/// The node with another parent.
pub open spec fn node_with_parent(node: UINode, parent: Option<Handle<UINode>>) -> UINode {
    node.spec_with_widget(node.spec_widget().with_parent(parent))
}

/// The nodes after every one of them was advanced by `dt` milliseconds,
/// each exactly once.
pub open spec fn updated(nodes: Nodes, dt: u32) -> Nodes {
    nodes.map_values(|node: UINode| node.spec_updated(dt))
}

/// The nodes after a measure pass over the subtree of `h` with `available`
/// offered to `h`.
///
/// A node that does not resolve is skipped. A node whose cached desired size
/// is up to date for the same available size is left alone, with all below
/// it. A node that is not visible gets the desired size 0, and nothing below
/// it is measured. Any other node first has its children measured, in
/// order, against what its margin leaves of `available`, and records what
/// its own measure makes of their desired sizes, margin added.
pub open spec fn measured(nodes: Nodes, rank: Ranks, h: Handle<UINode>, available: Vec2) -> Nodes
    decreases rank[h], nodes[h].spec_widget().children@.len() + 1,
{
    if !nodes.contains_key(h) {
        nodes
    } else {
        let w = nodes[h].spec_widget();
        if !w.dirty && w.last_available == available {
            nodes
        } else if !w.visible {
            nodes.insert(h, node_with_measure(nodes[h], available, Vec2::spec_zero()))
        } else {
            let inner = w.inner_available(available);
            let after = measured_children(
                nodes,
                rank,
                rank[h],
                w.children@,
                inner,
                w.children@.len(),
            );
            let content = after[h].spec_measure_override(after, inner);
            let desired = after[h].spec_widget().outer_desired(content, available);
            after.insert(h, node_with_measure(after[h], available, desired))
        }
    }
}

/// The nodes after the first `n` of `children` were measured, in order, by
/// a traversal standing on a node of rank `limit`.
pub open spec fn measured_children(
    nodes: Nodes,
    rank: Ranks,
    limit: nat,
    children: Seq<Handle<UINode>>,
    available: Vec2,
    n: nat,
) -> Nodes
    decreases limit, n,
{
    if n == 0 || n > children.len() {
        nodes
    } else {
        let before = measured_children(nodes, rank, limit, children, available, (n - 1) as nat);
        let c = children[n - 1];
        if descends(before, rank, limit, c) {
            measured(before, rank, c, available)
        } else {
            before
        }
    }
}

/// Desired size of `h` after the measure pass: what the pass returns.
pub open spec fn measured_size(
    nodes: Nodes,
    rank: Ranks,
    h: Handle<UINode>,
    available: Vec2,
) -> Vec2 {
    let after = measured(nodes, rank, h, available);
    if after.contains_key(h) {
        after[h].spec_widget().desired_size
    } else {
        Vec2::spec_zero()
    }
}

/// Screen bounds of the visible node `h` when `final_rect` is given to it.
pub open spec fn arranged_bounds(nodes: Nodes, h: Handle<UINode>, final_rect: Rect) -> Rect {
    let place = nodes[h].spec_widget().placement(final_rect);
    let actual = nodes[h].spec_arrange_override(nodes, place.spec_size());
    Rect { x: place.x, y: place.y, w: actual.x, h: actual.y }
}

/// The nodes after an arrange pass over the subtree of `h` with
/// `final_rect`, in surface coordinates, given to `h`.
///
/// A node that does not resolve is skipped. A node that is not visible
/// collapses to the corner of `final_rect`, and nothing below it is
/// arranged. Any other node gets its screen bounds first; its children are
/// arranged after it, in order, each with those bounds as its final
/// rectangle.
pub open spec fn arranged(nodes: Nodes, rank: Ranks, h: Handle<UINode>, final_rect: Rect) -> Nodes
    decreases rank[h], nodes[h].spec_widget().children@.len() + 1,
{
    if !nodes.contains_key(h) {
        nodes
    } else {
        let w = nodes[h].spec_widget();
        if !w.visible {
            nodes.insert(h, node_with_bounds(nodes[h], Widget::collapsed(final_rect)))
        } else {
            let bounds = arranged_bounds(nodes, h, final_rect);
            let placed = nodes.insert(h, node_with_bounds(nodes[h], bounds));
            arranged_children(placed, rank, rank[h], w.children@, bounds, w.children@.len())
        }
    }
}

/// The nodes after the first `n` of `children` were arranged, in order,
/// each in `final_rect`.
pub open spec fn arranged_children(
    nodes: Nodes,
    rank: Ranks,
    limit: nat,
    children: Seq<Handle<UINode>>,
    final_rect: Rect,
    n: nat,
) -> Nodes
    decreases limit, n,
{
    if n == 0 || n > children.len() {
        nodes
    } else {
        let before = arranged_children(nodes, rank, limit, children, final_rect, (n - 1) as nat);
        let c = children[n - 1];
        if descends(before, rank, limit, c) {
            arranged(before, rank, c, final_rect)
        } else {
            before
        }
    }
}

/// The nodes after one layout: a measure pass over the whole tree under
/// `root` with `size` available, and an arrange pass over it afterwards with
/// the rectangle of that size at the origin.
pub open spec fn laid_out(nodes: Nodes, rank: Ranks, root: Handle<UINode>, size: Vec2) -> Nodes {
    arranged(measured(nodes, rank, root, size), rank, root, Rect::spec_from_size(size))
}

/// The nodes after `h` and every node on the chain of parents above it was
/// marked dirty. The chain is followed while the parent has a larger rank,
/// `height` at most.
pub open spec fn invalidated(nodes: Nodes, rank: Ranks, height: nat, h: Handle<UINode>) -> Nodes
    decreases height - rank[h],
{
    if !nodes.contains_key(h) {
        nodes
    } else {
        let marked = nodes.insert(h, node_with_dirty(nodes[h]));
        match nodes[h].spec_widget().parent {
            Some(p) => if rank[h] < rank[p] && rank[p] <= height {
                invalidated(marked, rank, height, p)
            } else {
                marked
            },
            None => marked,
        }
    }
}

/// The commands of the subtree of `h` in painting order: those of `h`
/// itself, followed by those of its children's subtrees, child by child in
/// the order of the child list. A node that does not resolve or is not
/// visible contributes nothing, and neither does anything below it.
pub open spec fn drawn(nodes: Nodes, rank: Ranks, h: Handle<UINode>) -> Seq<DrawCommandView>
    decreases rank[h], nodes[h].spec_widget().children@.len() + 1,
{
    if !nodes.contains_key(h) || !nodes[h].spec_widget().visible {
        Seq::empty()
    } else {
        let children = nodes[h].spec_widget().children@;
        nodes[h].spec_commands() + drawn_children(nodes, rank, rank[h], children, children.len())
    }
}

/// The commands of the subtrees of the first `n` of `children`, in order.
pub open spec fn drawn_children(
    nodes: Nodes,
    rank: Ranks,
    limit: nat,
    children: Seq<Handle<UINode>>,
    n: nat,
) -> Seq<DrawCommandView>
    decreases limit, n,
{
    if n == 0 || n > children.len() {
        Seq::empty()
    } else {
        let before = drawn_children(nodes, rank, limit, children, (n - 1) as nat);
        let c = children[n - 1];
        if descends(nodes, rank, limit, c) {
            before + drawn(nodes, rank, c)
        } else {
            before
        }
    }
}

/// `c` can be adopted: it resolves, and no node that resolves is its parent.
pub open spec fn free_to_adopt(nodes: Nodes, c: Handle<UINode>) -> bool {
    &&& nodes.contains_key(c)
    &&& match nodes[c].spec_widget().parent {
        Some(p) => !nodes.contains_key(p),
        None => true,
    }
}

/// The children a new node adopts, of the first `n` it names: those that
/// can be adopted, in order, each once.
pub open spec fn adopted_children(nodes: Nodes, children: Seq<Handle<UINode>>, n: nat) -> Seq<
    Handle<UINode>,
>
    decreases n,
{
    if n == 0 || n > children.len() {
        Seq::empty()
    } else {
        let rest = adopted_children(nodes, children, (n - 1) as nat);
        let c = children[n - 1];
        if free_to_adopt(nodes, c) && !rest.contains(c) {
            rest.push(c)
        } else {
            rest
        }
    }
}

/// `stored` is `given` as an interface takes it in: with `kept` as its
/// children, without a parent, and not measured yet.
pub open spec fn taken_in(given: UINode, stored: UINode, kept: Seq<Handle<UINode>>) -> bool {
    &&& stored.spec_widget().children@ == kept
    &&& stored == given.spec_with_widget(
        Widget {
            children: stored.spec_widget().children,
            parent: None,
            dirty: true,
            ..given.spec_widget()
        },
    )
}

/// Every node is the same in `a1` and `a2`, or is in each what it was in
/// `n1` and `n2`.
pub open spec fn agree_or_untouched(n1: Nodes, n2: Nodes, a1: Nodes, a2: Nodes) -> bool {
    forall|x: Handle<UINode>| #[trigger]
        n1.contains_key(x) ==> a1[x] == a2[x] || (a1[x] == n1[x] && a2[x] == n2[x])
}

/// Steps that change results of layout only compose.
pub proof fn lemma_layout_step_transitive(a: Nodes, b: Nodes, c: Nodes)
    requires
        layout_step(a, b),
        layout_step(b, c),
    ensures
        layout_step(a, c),
{
    assert forall|x: Handle<UINode>| #[trigger] a.contains_key(x) implies {
        &&& node_same_but_layout(a[x], c[x])
        &&& a[x].spec_widget().cache_ok() ==> c[x].spec_widget().cache_ok()
    } by {
        assert(b.contains_key(x));
    }
}

/// A measure pass changes results of layout only.
pub proof fn lemma_measured_is_layout_step(
    nodes: Nodes,
    rank: Ranks,
    h: Handle<UINode>,
    available: Vec2,
)
    ensures
        layout_step(nodes, measured(nodes, rank, h, available)),
    decreases rank[h], nodes[h].spec_widget().children@.len() + 1,
{
    let after = measured(nodes, rank, h, available);
    if nodes.contains_key(h) {
        let w = nodes[h].spec_widget();
        if w.dirty || w.last_available != available {
            if w.visible {
                lemma_measured_children_is_layout_step(
                    nodes,
                    rank,
                    rank[h],
                    w.children@,
                    w.inner_available(available),
                    w.children@.len(),
                );
            }
            assert(after.dom() =~= nodes.dom());
        }
    }
}

/// Measuring children changes results of layout only.
pub proof fn lemma_measured_children_is_layout_step(
    nodes: Nodes,
    rank: Ranks,
    limit: nat,
    children: Seq<Handle<UINode>>,
    available: Vec2,
    n: nat,
)
    ensures
        layout_step(nodes, measured_children(nodes, rank, limit, children, available, n)),
    decreases limit, n,
{
    if n != 0 && n <= children.len() {
        lemma_measured_children_is_layout_step(
            nodes,
            rank,
            limit,
            children,
            available,
            (n - 1) as nat,
        );
        let before = measured_children(nodes, rank, limit, children, available, (n - 1) as nat);
        let c = children[n - 1];
        if descends(before, rank, limit, c) {
            lemma_measured_is_layout_step(before, rank, c, available);
            lemma_layout_step_transitive(nodes, before, measured(before, rank, c, available));
        }
    }
}

/// What a measure pass returns respects the available size, provided the
/// cached desired size of the node did: it is never negative, never larger
/// than what is available, and 0 wherever nothing, or less, is available.
pub proof fn lemma_measured_size_within_available(
    nodes: Nodes,
    rank: Ranks,
    h: Handle<UINode>,
    available: Vec2,
)
    requires
        nodes.contains_key(h) ==> nodes[h].spec_widget().cache_ok(),
    ensures
        ({
            let size = measured_size(nodes, rank, h, available);
            &&& size == size.spec_bounded_by(available)
            &&& 0 <= size.x && 0 <= size.y
            &&& available.x <= 0 ==> size.x == 0
            &&& available.y <= 0 ==> size.y == 0
            &&& available.x > 0 ==> size.x <= available.x
            &&& available.y > 0 ==> size.y <= available.y
        }),
{
    if nodes.contains_key(h) {
        lemma_measured_is_layout_step(nodes, rank, h, available);
        lemma_measured_node_is_clean(nodes, rank, h, available);
        let after = measured(nodes, rank, h, available);
        assert(after[h].spec_widget().cache_ok());
    }
}

/// After a measure pass the cache of the measured node is up to date for the
/// available size of the pass.
pub proof fn lemma_measured_node_is_clean(
    nodes: Nodes,
    rank: Ranks,
    h: Handle<UINode>,
    available: Vec2,
)
    requires
        nodes.contains_key(h),
    ensures
        ({
            let w = measured(nodes, rank, h, available)[h].spec_widget();
            !w.dirty && w.last_available == available
        }),
{
    let w = nodes[h].spec_widget();
    if (w.dirty || w.last_available != available) && w.visible {
        lemma_measured_children_is_layout_step(
            nodes,
            rank,
            rank[h],
            w.children@,
            w.inner_available(available),
            w.children@.len(),
        );
    }
}

/// Measuring twice in a row with the same available size changes nothing
/// the second time.
pub proof fn lemma_measure_idempotent(nodes: Nodes, rank: Ranks, h: Handle<UINode>, available: Vec2)
    ensures
        measured(measured(nodes, rank, h, available), rank, h, available) == measured(
            nodes,
            rank,
            h,
            available,
        ),
{
    if nodes.contains_key(h) {
        lemma_measured_node_is_clean(nodes, rank, h, available);
        lemma_measured_is_layout_step(nodes, rank, h, available);
    }
}

/// Steps that change screen bounds only compose.
pub proof fn lemma_bounds_step_transitive(a: Nodes, b: Nodes, c: Nodes)
    requires
        bounds_step(a, b),
        bounds_step(b, c),
    ensures
        bounds_step(a, c),
{
    assert forall|x: Handle<UINode>| #[trigger] a.contains_key(x) implies node_same_but_bounds(
        a[x],
        c[x],
    ) by {
        assert(b.contains_key(x));
    }
}

/// Nodes that differ in screen bounds only, both reached from the same
/// nodes by changing bounds, differ from each other in bounds only.
proof fn lemma_bounds_step_between(n1: Nodes, n2: Nodes, m1: Nodes, m2: Nodes)
    requires
        bounds_step(n1, n2),
        bounds_step(n1, m1),
        bounds_step(n2, m2),
    ensures
        bounds_step(m1, m2),
{
    assert forall|x: Handle<UINode>| #[trigger] m1.contains_key(x) implies node_same_but_bounds(
        m1[x],
        m2[x],
    ) by {
        assert(n1.contains_key(x));
        assert(n2.contains_key(x));
    }
}

/// The arrange pass writes screen bounds and reads none: run on two sets of
/// nodes that differ in screen bounds only, it changes bounds only, and
/// every node it touches ends up the same in both.
pub proof fn lemma_arranged_reads_no_bounds(
    n1: Nodes,
    n2: Nodes,
    rank: Ranks,
    h: Handle<UINode>,
    final_rect: Rect,
)
    requires
        bounds_step(n1, n2),
    ensures
        bounds_step(n1, arranged(n1, rank, h, final_rect)),
        bounds_step(n2, arranged(n2, rank, h, final_rect)),
        agree_or_untouched(
            n1,
            n2,
            arranged(n1, rank, h, final_rect),
            arranged(n2, rank, h, final_rect),
        ),
    decreases rank[h], n1[h].spec_widget().children@.len() + 1,
{
    let a1 = arranged(n1, rank, h, final_rect);
    let a2 = arranged(n2, rank, h, final_rect);
    if n1.contains_key(h) {
        assert(n2.contains_key(h));
        let w = n1[h].spec_widget();
        if !w.visible {
            assert(a1.dom() =~= n1.dom());
            assert(a2.dom() =~= n2.dom());
        } else {
            let bounds = arranged_bounds(n1, h, final_rect);
            assert(bounds == arranged_bounds(n2, h, final_rect));
            let placed1 = n1.insert(h, node_with_bounds(n1[h], bounds));
            let placed2 = n2.insert(h, node_with_bounds(n2[h], bounds));
            assert(placed1.dom() =~= n1.dom());
            assert(placed2.dom() =~= n2.dom());
            assert(bounds_step(n1, placed1));
            assert(bounds_step(n2, placed2));
            lemma_bounds_step_between(n1, n2, placed1, placed2);
            lemma_arranged_children_read_no_bounds(
                placed1,
                placed2,
                rank,
                rank[h],
                w.children@,
                bounds,
                w.children@.len(),
            );
            lemma_bounds_step_transitive(n1, placed1, a1);
            lemma_bounds_step_transitive(n2, placed2, a2);
            assert forall|x: Handle<UINode>| #[trigger] n1.contains_key(x) implies a1[x] == a2[x]
                || (a1[x] == n1[x] && a2[x] == n2[x]) by {
                assert(placed1.contains_key(x));
            }
        }
    }
}

/// The same for the children of a node.
pub proof fn lemma_arranged_children_read_no_bounds(
    n1: Nodes,
    n2: Nodes,
    rank: Ranks,
    limit: nat,
    children: Seq<Handle<UINode>>,
    final_rect: Rect,
    n: nat,
)
    requires
        bounds_step(n1, n2),
    ensures
        bounds_step(n1, arranged_children(n1, rank, limit, children, final_rect, n)),
        bounds_step(n2, arranged_children(n2, rank, limit, children, final_rect, n)),
        agree_or_untouched(
            n1,
            n2,
            arranged_children(n1, rank, limit, children, final_rect, n),
            arranged_children(n2, rank, limit, children, final_rect, n),
        ),
    decreases limit, n,
{
    if n != 0 && n <= children.len() {
        lemma_arranged_children_read_no_bounds(
            n1,
            n2,
            rank,
            limit,
            children,
            final_rect,
            (n - 1) as nat,
        );
        let m1 = arranged_children(n1, rank, limit, children, final_rect, (n - 1) as nat);
        let m2 = arranged_children(n2, rank, limit, children, final_rect, (n - 1) as nat);
        let c = children[n - 1];
        assert(descends(m1, rank, limit, c) == descends(m2, rank, limit, c));
        if descends(m1, rank, limit, c) {
            lemma_bounds_step_between(n1, n2, m1, m2);
            lemma_arranged_reads_no_bounds(m1, m2, rank, c, final_rect);
            let a1 = arranged(m1, rank, c, final_rect);
            let a2 = arranged(m2, rank, c, final_rect);
            lemma_bounds_step_transitive(n1, m1, a1);
            lemma_bounds_step_transitive(n2, m2, a2);
            assert forall|x: Handle<UINode>| #[trigger] n1.contains_key(x) implies a1[x] == a2[x]
                || (a1[x] == n1[x] && a2[x] == n2[x]) by {
                assert(m1.contains_key(x));
            }
        }
    }
}

/// Arranging twice in a row with the same final rectangle changes nothing
/// the second time: the pass accumulates nothing.
pub proof fn lemma_arrange_idempotent(
    nodes: Nodes,
    rank: Ranks,
    h: Handle<UINode>,
    final_rect: Rect,
)
    ensures
        arranged(arranged(nodes, rank, h, final_rect), rank, h, final_rect) == arranged(
            nodes,
            rank,
            h,
            final_rect,
        ),
{
    let a1 = arranged(nodes, rank, h, final_rect);
    let a2 = arranged(a1, rank, h, final_rect);
    assert(bounds_step(nodes, nodes));
    lemma_arranged_reads_no_bounds(nodes, nodes, rank, h, final_rect);
    lemma_arranged_reads_no_bounds(nodes, a1, rank, h, final_rect);
    assert forall|x: Handle<UINode>| a1.contains_key(x) implies a1[x] == a2[x] by {
        assert(nodes.contains_key(x));
    }
    assert(a2 =~= a1);
}

/// Layout is idempotent: a measure pass and an arrange pass, run a second
/// time with the same root and the same size, leave every node, and so all
/// screen bounds, as the first run left them.
pub proof fn lemma_layout_idempotent(nodes: Nodes, rank: Ranks, root: Handle<UINode>, size: Vec2)
    ensures
        laid_out(laid_out(nodes, rank, root, size), rank, root, size) == laid_out(
            nodes,
            rank,
            root,
            size,
        ),
{
    let rect = Rect::spec_from_size(size);
    let m1 = measured(nodes, rank, root, size);
    let a1 = arranged(m1, rank, root, rect);
    assert(bounds_step(m1, m1));
    lemma_arranged_reads_no_bounds(m1, m1, rank, root, rect);
    if a1.contains_key(root) {
        lemma_measured_is_layout_step(nodes, rank, root, size);
        assert(m1.contains_key(root));
        assert(nodes.contains_key(root));
        lemma_measured_node_is_clean(nodes, rank, root, size);
    }
    assert(measured(a1, rank, root, size) == a1);
    lemma_arrange_idempotent(m1, rank, root, rect);
}

/// Painting order for a parent with two children: the commands of the
/// parent come first, those of the first child's subtree next, those of the
/// second child's subtree last.
pub proof fn lemma_parent_paints_before_children(
    nodes: Nodes,
    rank: Ranks,
    a: Handle<UINode>,
    b: Handle<UINode>,
    c: Handle<UINode>,
)
    requires
        nodes.contains_key(a),
        nodes[a].spec_widget().visible,
        nodes[a].spec_widget().children@ == seq![b, c],
        descends(nodes, rank, rank[a], b),
        descends(nodes, rank, rank[a], c),
    ensures
        drawn(nodes, rank, a) == nodes[a].spec_commands() + drawn(nodes, rank, b) + drawn(
            nodes,
            rank,
            c,
        ),
{
    let children = nodes[a].spec_widget().children@;
    let first = drawn(nodes, rank, b);
    let second = drawn(nodes, rank, c);
    assert(children.len() == 2 && children[0] == b && children[1] == c);
    assert(drawn_children(nodes, rank, rank[a], children, 0) == Seq::<DrawCommandView>::empty());
    assert(drawn_children(nodes, rank, rank[a], children, 1) =~= first);
    assert(drawn_children(nodes, rank, rank[a], children, 2) =~= first + second);
    assert(drawn(nodes, rank, a) =~= nodes[a].spec_commands() + first + second);
}

/// Painting order in general: the commands of each further child's subtree
/// go behind all commands of the children before it, and the commands of a
/// visible node go before all commands of its children.
pub proof fn lemma_children_paint_in_order(nodes: Nodes, rank: Ranks, h: Handle<UINode>, n: nat)
    requires
        nodes.contains_key(h),
        nodes[h].spec_widget().visible,
        n < nodes[h].spec_widget().children@.len(),
    ensures
        ({
            let children = nodes[h].spec_widget().children@;
            let c = children[n as int];
            let before = drawn_children(nodes, rank, rank[h], children, n);
            let with_c = drawn_children(nodes, rank, rank[h], children, n + 1);
            &&& before.is_prefix_of(with_c)
            &&& descends(nodes, rank, rank[h], c) ==> with_c == before + drawn(nodes, rank, c)
            &&& nodes[h].spec_commands().is_prefix_of(drawn(nodes, rank, h))
        }),
{
}

/// What a new node adopts: nodes that can be adopted, none twice; all it
/// names exactly when it drops none.
pub proof fn lemma_adopted_children(nodes: Nodes, children: Seq<Handle<UINode>>, n: nat)
    requires
        n <= children.len(),
    ensures
        ({
            let kept = adopted_children(nodes, children, n);
            &&& kept.len() <= n
            &&& kept.len() == n ==> kept == children.take(n as int)
            &&& forall|j: int| 0 <= j < kept.len() ==> free_to_adopt(nodes, #[trigger] kept[j])
            &&& forall|j: int, k: int| 0 <= j < k < kept.len() ==> kept[j] != kept[k]
        }),
    decreases n,
{
    if n != 0 {
        lemma_adopted_children(nodes, children, (n - 1) as nat);
        let rest = adopted_children(nodes, children, (n - 1) as nat);
        let kept = adopted_children(nodes, children, n);
        let c = children[n - 1];
        if free_to_adopt(nodes, c) && !rest.contains(c) {
            assert forall|j: int| 0 <= j < kept.len() implies free_to_adopt(
                nodes,
                #[trigger] kept[j],
            ) by {
                if j < rest.len() {
                    assert(kept[j] == rest[j]);
                }
            }
            assert forall|j: int, k: int| 0 <= j < k < kept.len() implies kept[j] != kept[k] by {
                assert(kept[j] == rest[j]);
                if k < rest.len() {
                    assert(kept[k] == rest[k]);
                } else {
                    assert(rest.contains(rest[j]));
                }
            }
            if kept.len() == n {
                assert(rest == children.take(n - 1));
                assert(kept =~= children.take(n as int));
            }
        }
    }
}

/// A new node adopts all the children it names if each of them can be
/// adopted and none is named twice; so it does when it names none.
pub proof fn lemma_adopts_all(nodes: Nodes, children: Seq<Handle<UINode>>, n: nat)
    requires
        n <= children.len(),
        forall|i: int| 0 <= i < n ==> free_to_adopt(nodes, #[trigger] children[i]),
        forall|i: int, j: int| 0 <= i < j < n ==> children[i] != children[j],
    ensures
        adopted_children(nodes, children, n) == children.take(n as int),
    decreases n,
{
    if n == 0 {
        assert(adopted_children(nodes, children, n) =~= children.take(n as int));
    } else {
        lemma_adopts_all(nodes, children, (n - 1) as nat);
        let rest = adopted_children(nodes, children, (n - 1) as nat);
        let c = children[n - 1];
        assert(!rest.contains(c)) by {
            if rest.contains(c) {
                let k = choose|k: int| 0 <= k < rest.len() && rest[k] == c;
                assert(children[k] == c);
            }
        }
        assert(rest.push(c) =~= children.take(n as int));
    }
}

/// Invalidating adds and removes no node.
pub proof fn lemma_invalidated_keeps_nodes(nodes: Nodes, rank: Ranks, height: nat, h: Handle<UINode>)
    ensures
        invalidated(nodes, rank, height, h).dom() == nodes.dom(),
{
    lemma_invalidated_marks_chain(nodes, rank, height, h);
}

/// Invalidation reaches up the chain of parents: the node it starts from is
/// dirty afterwards and so is its parent, if the chain goes on to it; no
/// node that was dirty becomes clean; and nothing but dirty flags changes.
/// Applied along the chain, this makes every node from the start up to the
/// root dirty, so that the next layout measures each of them again.
pub proof fn lemma_invalidated_marks_chain(
    nodes: Nodes,
    rank: Ranks,
    height: nat,
    h: Handle<UINode>,
)
    ensures
        ({
            let after = invalidated(nodes, rank, height, h);
            &&& layout_step(nodes, after)
            &&& forall|x: Handle<UINode>|
                nodes.contains_key(x) && nodes[x].spec_widget().dirty
                    ==> #[trigger] after[x].spec_widget().dirty
            &&& nodes.contains_key(h) ==> after[h].spec_widget().dirty
            &&& nodes.contains_key(h) ==> match nodes[h].spec_widget().parent {
                Some(p) => nodes.contains_key(p) && rank[h] < rank[p] && rank[p] <= height
                    ==> after[p].spec_widget().dirty,
                None => true,
            }
        }),
    decreases height - rank[h],
{
    if nodes.contains_key(h) {
        let marked = nodes.insert(h, node_with_dirty(nodes[h]));
        assert(marked.dom() =~= nodes.dom());
        assert(layout_step(nodes, marked));
        if let Some(p) = nodes[h].spec_widget().parent {
            if rank[h] < rank[p] && rank[p] <= height {
                lemma_invalidated_marks_chain(marked, rank, height, p);
                let after = invalidated(marked, rank, height, p);
                lemma_layout_step_transitive(nodes, marked, after);
                assert(marked[h].spec_widget().dirty);
                assert forall|x: Handle<UINode>|
                    nodes.contains_key(x) && nodes[x].spec_widget().dirty
                        implies #[trigger] after[x].spec_widget().dirty by {
                    assert(marked.contains_key(x) && marked[x].spec_widget().dirty);
                }
            }
        }
    }
}

} // verus!
