//! The interface itself: owner of all nodes and driver of every frame.

use crate::gui::Draw;
use crate::gui::draw::DrawingContext;
use crate::gui::draw::DrawingContextView;
use crate::gui::Layout;
use crate::gui::layout::arranged;
use crate::gui::layout::arranged_bounds;
use crate::gui::layout::arranged_children;
use crate::gui::layout::bounds_step;
use crate::gui::layout::descends;
use crate::gui::layout::drawn;
use crate::gui::layout::drawn_children;
use crate::gui::layout::invalidated;
use crate::gui::layout::laid_out;
use crate::gui::layout::layout_step;
use crate::gui::layout::lemma_arranged_children_read_no_bounds;
use crate::gui::layout::lemma_invalidated_keeps_nodes;
use crate::gui::layout::lemma_adopted_children;
use crate::gui::layout::lemma_measured_children_is_layout_step;
use crate::gui::layout::adopted_children;
use crate::gui::layout::free_to_adopt;
use crate::gui::layout::measured;
use crate::gui::layout::measured_children;
use crate::gui::layout::measured_size;
use crate::gui::layout::node_with_bounds;
use crate::gui::layout::node_with_dirty;
use crate::gui::layout::node_with_measure;
use crate::gui::layout::node_with_parent;
use crate::gui::layout::Nodes;
use crate::gui::layout::Ranks;
use crate::gui::layout::taken_in;
use crate::gui::layout::updated;
use crate::gui::node::UINode;
use crate::gui::Update;
use crate::gui::widget::AsWidget;
use crate::gui::widget::Widget;
use crate::math::Rect;
use crate::math::Vec2;
use crate::pool::Handle;
use crate::pool::Pool;
use vstd::prelude::*;

verus! {

/// A user interface: the nodes, the root of their tree, and the drawing
/// context the frame is drawn into.
pub struct UserInterface {
    nodes: Pool<UINode>,
    root: Option<Handle<UINode>>,
    needs_layout: bool,
    screen_size: Vec2,
    drawing_context: DrawingContext,
    /// For every node a number larger than that of each child that resolves.
    rank: Ghost<Map<Handle<UINode>, nat>>,
    /// A bound on the rank of every node.
    height: Ghost<nat>,
}

impl UserInterface {
    /// The live nodes by handle.
    pub closed spec fn nodes(&self) -> Nodes {
        self.nodes@
    }

    /// The rank of every node: larger than that of each of its children.
    pub closed spec fn ranks(&self) -> Ranks {
        self.rank@
    }

    /// A bound on all ranks.
    pub closed spec fn height(&self) -> nat {
        self.height@
    }

    /// Current generation of every slot of the node pool.
    pub closed spec fn stamps(&self) -> Seq<nat> {
        self.nodes.stamps()
    }

    /// Indices of the empty slots of the node pool that wait for reuse. The
    /// last one is taken first.
    pub closed spec fn free_slots(&self) -> Seq<nat> {
        self.nodes.free_slots()
    }

    /// The slot of `handle` has moved on to a later generation: whatever
    /// `handle` named has been removed, and `handle` resolves to nothing
    /// from now on.
    pub open spec fn expired(&self, handle: Handle<UINode>) -> bool {
        handle.spec_index() < self.stamps().len() && handle.spec_generation()
            < self.stamps()[handle.spec_index() as int]
    }

    pub closed spec fn spec_root(&self) -> Option<Handle<UINode>> {
        self.root
    }

    pub closed spec fn spec_needs_layout(&self) -> bool {
        self.needs_layout
    }

    pub closed spec fn spec_screen_size(&self) -> Vec2 {
        self.screen_size
    }

    /// State of the drawing context.
    pub closed spec fn context(&self) -> DrawingContextView {
        self.drawing_context@
    }

    /// Everything but the nodes themselves is as it was in `before`.
    pub open spec fn same_but_nodes(self, before: UserInterface) -> bool {
        &&& self.ranks() == before.ranks()
        &&& self.height() == before.height()
        &&& self.stamps() == before.stamps()
        &&& self.free_slots() == before.free_slots()
        &&& self.spec_root() == before.spec_root()
        &&& self.spec_needs_layout() == before.spec_needs_layout()
        &&& self.spec_screen_size() == before.spec_screen_size()
        &&& self.context() == before.context()
    }

    /// The slots of the node pool and the ranks are as they were in `before`:
    /// no node was added or removed.
    pub open spec fn same_pool(self, before: UserInterface) -> bool {
        &&& self.ranks() == before.ranks()
        &&& self.height() == before.height()
        &&& self.stamps() == before.stamps()
        &&& self.free_slots() == before.free_slots()
    }

    /// `self` is `before` with `node` added under `handle`: the node is
    /// stored with those of its children that could be adopted, without a
    /// parent and not measured yet, and is otherwise the node given; every
    /// adopted child has the new node as its parent, and all else is as it
    /// was. The handle names the free slot released last, in the generation
    /// that slot is in, or a new slot in generation 1; no node that was
    /// there shares that slot. The new node gets a rank above all others.
    pub open spec fn added(self, before: UserInterface, node: UINode, handle: Handle<UINode>) -> bool {
        let kept = adopted_children(
            before.nodes(),
            node.spec_widget().children@,
            node.spec_widget().children@.len(),
        );
        &&& !before.nodes().contains_key(handle)
        &&& !before.expired(handle)
        &&& handle.spec_index() == (if before.free_slots().len() > 0 {
            before.free_slots().last()
        } else {
            before.stamps().len()
        })
        &&& self.stamps() == (if before.free_slots().len() > 0 {
            before.stamps()
        } else {
            before.stamps().push(1)
        })
        &&& handle.spec_index() < self.stamps().len()
        &&& handle.spec_generation() == self.stamps()[handle.spec_index() as int]
        &&& forall|x: Handle<UINode>| #[trigger]
            before.nodes().contains_key(x) ==> x.spec_index() != handle.spec_index()
        &&& self.free_slots() == (if before.free_slots().len() > 0 {
            before.free_slots().drop_last()
        } else {
            before.free_slots()
        })
        &&& self.nodes().dom() == before.nodes().dom().insert(handle)
        &&& taken_in(node, self.nodes()[handle], kept)
        &&& kept.len() == node.spec_widget().children@.len() ==> self.nodes()[handle]
            == node.spec_with_widget(
            Widget { parent: None, dirty: true, ..node.spec_widget() },
        )
        &&& forall|x: Handle<UINode>| #[trigger]
            before.nodes().contains_key(x) ==> self.nodes()[x] == (if kept.contains(x) {
                node_with_parent(before.nodes()[x], Some(handle))
            } else {
                before.nodes()[x]
            })
        &&& self.ranks() == before.ranks().insert(handle, before.height() + 1)
        &&& self.height() == before.height() + 1
        &&& self.spec_needs_layout()
        &&& self.spec_root() == before.spec_root()
        &&& self.spec_screen_size() == before.spec_screen_size()
        &&& self.context() == before.context()
        &&& forall|x: Handle<UINode>| before.expired(x) ==> self.expired(x)
    }

    /// A link from `h` down to its child `c` is in order: the child has been
    /// removed, or resolves and has a smaller rank.
    spec fn link_down_ok(&self, h: Handle<UINode>, c: Handle<UINode>) -> bool {
        self.nodes.expired(c) || (self.nodes@.contains_key(c) && self.rank@[c] < self.rank@[h])
    }

    /// A link from `h` up to its parent `p` is in order: the parent has been
    /// removed, or resolves and has a larger rank.
    spec fn link_up_ok(&self, h: Handle<UINode>, p: Handle<UINode>) -> bool {
        self.nodes.expired(p) || (self.nodes@.contains_key(p) && self.rank@[h] < self.rank@[p])
    }

    /// The `i`-th child of `h`, if it resolves, has `h` as its parent.
    spec fn child_owned(&self, h: Handle<UINode>, i: int) -> bool {
        let c = self.nodes@[h].spec_widget().children@[i];
        self.nodes@.contains_key(c) ==> self.nodes@[c].spec_widget().parent == Some(h)
    }

    /// Well-formedness but for the back-references of children to parents.
    spec fn wf_links(&self) -> bool {
        &&& self.nodes.wf()
        &&& forall|h: Handle<UINode>| #[trigger]
            self.nodes@.contains_key(h) ==> {
                &&& self.rank@[h] <= self.height@
                &&& self.nodes@[h].spec_widget().cache_ok()
                &&& match self.nodes@[h].spec_widget().parent {
                    Some(p) => self.link_up_ok(h, p),
                    None => true,
                }
            }
        &&& forall|h: Handle<UINode>, i: int|
            #![trigger self.nodes@[h].spec_widget().children@[i]]
            self.nodes@.contains_key(h) && 0 <= i < self.nodes@[h].spec_widget().children@.len()
                ==> self.link_down_ok(h, self.nodes@[h].spec_widget().children@[i])
        &&& forall|h: Handle<UINode>, i: int, j: int|
            #![trigger self.nodes@[h].spec_widget().children@[i], self.nodes@[h].spec_widget().children@[j]]
            self.nodes@.contains_key(h) && 0 <= i < j < self.nodes@[h].spec_widget().children@.len()
                ==> self.nodes@[h].spec_widget().children@[i]
                != self.nodes@[h].spec_widget().children@[j]
    }

    /// Every child that resolves has the node that lists it as its parent,
    /// but for the children of `parent` from index `from` on.
    spec fn owned_but(&self, parent: Handle<UINode>, from: int) -> bool {
        forall|h: Handle<UINode>, i: int|
            #![trigger self.nodes@[h].spec_widget().children@[i]]
            self.nodes@.contains_key(h) && 0 <= i < self.nodes@[h].spec_widget().children@.len()
                && (h != parent || i < from) ==> self.child_owned(h, i)
    }

    /// The interface is well formed: the pool is consistent; every child
    /// that resolves has a smaller rank than the node that lists it and has
    /// that node as its parent, and no child list names a node twice, so
    /// that the nodes form a forest in which a node stands in one child
    /// list at most; and every cached desired size respects the available
    /// size it was computed for.
    pub closed spec fn wf(&self) -> bool {
        &&& self.wf_links()
        &&& forall|h: Handle<UINode>, i: int|
            #![trigger self.nodes@[h].spec_widget().children@[i]]
            self.nodes@.contains_key(h) && 0 <= i < self.nodes@[h].spec_widget().children@.len()
                ==> self.child_owned(h, i)
    }

    /// Layout is due for the given surface size: there is a root, and
    /// something was invalidated or the size changed since the last layout.
    pub open spec fn layout_due(&self, screen_size: Vec2) -> bool {
        self.spec_root() is Some && (self.spec_needs_layout() || screen_size
            != self.spec_screen_size())
    }

    /// A step that changes results of layout only keeps links in order.
    proof fn lemma_links_after_layout_step(a: UserInterface, b: UserInterface)
        requires
            a.wf_links(),
            b.nodes.wf(),
            b.nodes.stamps() == a.nodes.stamps(),
            b.rank@ == a.rank@,
            b.height@ == a.height@,
            layout_step(a.nodes@, b.nodes@),
        ensures
            b.wf_links(),
    {
        assert forall|h: Handle<UINode>| #[trigger] b.nodes@.contains_key(h) implies {
            &&& b.rank@[h] <= b.height@
            &&& b.nodes@[h].spec_widget().cache_ok()
            &&& match b.nodes@[h].spec_widget().parent {
                Some(p) => b.link_up_ok(h, p),
                None => true,
            }
        } by {
            assert(a.nodes@.contains_key(h));
            if let Some(p) = a.nodes@[h].spec_widget().parent {
                assert(a.link_up_ok(h, p));
                assert(b.nodes@.contains_key(p) == a.nodes@.contains_key(p));
            }
        }
        assert forall|h: Handle<UINode>, i: int|
            #![trigger b.nodes@[h].spec_widget().children@[i]]
            b.nodes@.contains_key(h) && 0 <= i < b.nodes@[h].spec_widget().children@.len()
                implies b.link_down_ok(h, b.nodes@[h].spec_widget().children@[i]) by {
            assert(a.nodes@.contains_key(h));
            let c = a.nodes@[h].spec_widget().children@[i];
            assert(a.link_down_ok(h, c));
            assert(b.nodes@.contains_key(c) == a.nodes@.contains_key(c));
        }
        assert forall|h: Handle<UINode>, i: int, j: int|
            #![trigger b.nodes@[h].spec_widget().children@[i], b.nodes@[h].spec_widget().children@[j]]
            b.nodes@.contains_key(h) && 0 <= i < j < b.nodes@[h].spec_widget().children@.len()
                implies b.nodes@[h].spec_widget().children@[i]
                != b.nodes@[h].spec_widget().children@[j] by {
            assert(a.nodes@.contains_key(h));
            assert(a.nodes@[h].spec_widget().children@[i] != a.nodes@[h].spec_widget().children@[j]);
        }
    }

    /// A step that changes results of layout only keeps the interface well
    /// formed.
    proof fn lemma_wf_after_layout_step(a: UserInterface, b: UserInterface)
        requires
            a.wf(),
            b.nodes.wf(),
            b.nodes.stamps() == a.nodes.stamps(),
            b.rank@ == a.rank@,
            b.height@ == a.height@,
            layout_step(a.nodes@, b.nodes@),
        ensures
            b.wf(),
    {
        Self::lemma_links_after_layout_step(a, b);
        assert forall|h: Handle<UINode>, i: int|
            #![trigger b.nodes@[h].spec_widget().children@[i]]
            b.nodes@.contains_key(h) && 0 <= i < b.nodes@[h].spec_widget().children@.len()
                implies b.child_owned(h, i) by {
            assert(a.nodes@.contains_key(h));
            let c = a.nodes@[h].spec_widget().children@[i];
            assert(a.child_owned(h, i));
            if b.nodes@.contains_key(c) {
                assert(a.nodes@.contains_key(c));
            }
        }
    }

    /// Giving a node a parent of larger rank keeps links in order.
    proof fn lemma_links_after_adoption(
        a: UserInterface,
        b: UserInterface,
        c: Handle<UINode>,
        parent: Handle<UINode>,
    )
        requires
            a.wf_links(),
            b.nodes.wf(),
            b.nodes.stamps() == a.nodes.stamps(),
            b.rank@ == a.rank@,
            b.height@ == a.height@,
            a.nodes@.contains_key(c),
            a.nodes@.contains_key(parent),
            a.rank@[c] < a.rank@[parent],
            b.nodes@ == a.nodes@.insert(c, node_with_parent(a.nodes@[c], Some(parent))),
        ensures
            b.wf_links(),
    {
        assert(b.nodes@.dom() =~= a.nodes@.dom());
        assert forall|h: Handle<UINode>| #[trigger] b.nodes@.contains_key(h) implies {
            &&& b.rank@[h] <= b.height@
            &&& b.nodes@[h].spec_widget().cache_ok()
            &&& match b.nodes@[h].spec_widget().parent {
                Some(p) => b.link_up_ok(h, p),
                None => true,
            }
        } by {
            assert(a.nodes@.contains_key(h));
            if h != c {
                if let Some(p) = a.nodes@[h].spec_widget().parent {
                    assert(a.link_up_ok(h, p));
                }
            }
        }
        assert forall|h: Handle<UINode>, i: int|
            #![trigger b.nodes@[h].spec_widget().children@[i]]
            b.nodes@.contains_key(h) && 0 <= i < b.nodes@[h].spec_widget().children@.len()
                implies b.link_down_ok(h, b.nodes@[h].spec_widget().children@[i]) by {
            assert(a.nodes@.contains_key(h));
            assert(a.link_down_ok(h, a.nodes@[h].spec_widget().children@[i]));
        }
        assert forall|h: Handle<UINode>, i: int, j: int|
            #![trigger b.nodes@[h].spec_widget().children@[i], b.nodes@[h].spec_widget().children@[j]]
            b.nodes@.contains_key(h) && 0 <= i < j < b.nodes@[h].spec_widget().children@.len()
                implies b.nodes@[h].spec_widget().children@[i]
                != b.nodes@[h].spec_widget().children@[j] by {
            assert(a.nodes@.contains_key(h));
            assert(a.nodes@[h].spec_widget().children@[i] != a.nodes@[h].spec_widget().children@[j]);
        }
    }

    /// Links that were in order stay in order when the pool moves on and the
    /// nodes that were there keep their place and rank.
    proof fn lemma_links_survive(a: UserInterface, b: UserInterface, h: Handle<UINode>)
        requires
            a.wf_links(),
            b.nodes.follows(&a.nodes),
            a.nodes@.contains_key(h),
            forall|x: Handle<UINode>|
                a.nodes@.contains_key(x) && !b.nodes@.contains_key(x) ==> b.nodes.expired(x),
            forall|x: Handle<UINode>| a.nodes@.contains_key(x) ==> b.rank@[x] == a.rank@[x],
        ensures
            forall|i: int|
                0 <= i < a.nodes@[h].spec_widget().children@.len() ==> b.link_down_ok(
                    h,
                    #[trigger] a.nodes@[h].spec_widget().children@[i],
                ),
            a.nodes@[h].spec_widget().parent matches Some(p) ==> b.link_up_ok(h, p),
    {
        assert forall|i: int| 0 <= i < a.nodes@[h].spec_widget().children@.len() implies b.link_down_ok(
            h,
            #[trigger] a.nodes@[h].spec_widget().children@[i],
        ) by {
            let c = a.nodes@[h].spec_widget().children@[i];
            assert(a.link_down_ok(h, c));
            if a.nodes.expired(c) {
                Pool::lemma_expired_forever(&a.nodes, &b.nodes, c);
            }
        }
        if let Some(p) = a.nodes@[h].spec_widget().parent {
            assert(a.link_up_ok(h, p));
            if a.nodes.expired(p) {
                Pool::lemma_expired_forever(&a.nodes, &b.nodes, p);
            }
        }
    }

    /// In a well-formed interface a node stands in one child list at most,
    /// and once at most: whoever lists a node that resolves is its parent.
    pub proof fn lemma_one_parent(&self, h: Handle<UINode>, i: int, g: Handle<UINode>, j: int)
        requires
            self.wf(),
            self.nodes().contains_key(h),
            self.nodes().contains_key(g),
            0 <= i < self.nodes()[h].spec_widget().children@.len(),
            0 <= j < self.nodes()[g].spec_widget().children@.len(),
            self.nodes()[h].spec_widget().children@[i] == self.nodes()[g].spec_widget().children@[j],
            self.nodes().contains_key(self.nodes()[h].spec_widget().children@[i]),
        ensures
            h == g,
            i == j,
            self.nodes()[self.nodes()[h].spec_widget().children@[i]].spec_widget().parent == Some(h),
    {
        assert(self.child_owned(h, i));
        assert(self.child_owned(g, j));
        if i < j {
            assert(self.nodes@[h].spec_widget().children@[i] != self.nodes@[h].spec_widget().children@[j]);
        }
        if j < i {
            assert(self.nodes@[h].spec_widget().children@[j] != self.nodes@[h].spec_widget().children@[i]);
        }
    }

    /// In a well-formed interface every child that resolves has a smaller
    /// rank than its parent, so every traversal goes down into it.
    pub proof fn lemma_children_descend(&self, h: Handle<UINode>, i: int)
        requires
            self.wf(),
            self.nodes().contains_key(h),
            0 <= i < self.nodes()[h].spec_widget().children@.len(),
            self.nodes().contains_key(self.nodes()[h].spec_widget().children@[i]),
        ensures
            descends(
                self.nodes(),
                self.ranks(),
                self.ranks()[h],
                self.nodes()[h].spec_widget().children@[i],
            ),
    {
        let c = self.nodes@[h].spec_widget().children@[i];
        assert(self.link_down_ok(h, c));
        self.nodes.lemma_live_is_current(c);
    }

    /// In a well-formed interface a parent that resolves has a larger rank
    /// than the child, within the height, so invalidation goes up to it.
    pub proof fn lemma_parent_ascends(&self, h: Handle<UINode>)
        requires
            self.wf(),
            self.nodes().contains_key(h),
            self.nodes()[h].spec_widget().parent is Some,
            self.nodes().contains_key(self.nodes()[h].spec_widget().parent->0),
        ensures
            self.ranks()[h] < self.ranks()[self.nodes()[h].spec_widget().parent->0] <= self.height(),
    {
        let p = self.nodes@[h].spec_widget().parent->0;
        assert(self.link_up_ok(h, p));
        self.nodes.lemma_live_is_current(p);
    }

    /// A handle that resolves names a slot in its current generation, so it
    /// has not expired, and no other handle to the same slot resolves.
    pub proof fn lemma_live_is_current(&self, h: Handle<UINode>)
        requires
            self.nodes().contains_key(h),
        ensures
            h.spec_index() < self.stamps().len(),
            h.spec_generation() == self.stamps()[h.spec_index() as int],
            !self.expired(h),
            forall|g: Handle<UINode>|
                self.nodes().contains_key(g) && g.spec_index() == h.spec_index() ==> g == h,
    {
        self.nodes.lemma_live_is_current(h);
        assert forall|g: Handle<UINode>|
            self.nodes().contains_key(g) && g.spec_index() == h.spec_index() implies g == h by {
            self.nodes.lemma_one_live_handle_per_slot(g, h);
        }
    }

    /// A handle that has expired resolves to nothing.
    pub proof fn lemma_expired_is_absent(&self, h: Handle<UINode>)
        requires
            self.expired(h),
        ensures
            !self.nodes().contains_key(h),
    {
        if self.nodes@.contains_key(h) {
            self.nodes.lemma_live_is_current(h);
        }
    }

    /// An interface without nodes and without a root.
    pub fn new() -> (ui: UserInterface)
        ensures
            ui.wf(),
            ui.nodes() == Map::<Handle<UINode>, UINode>::empty(),
            ui.stamps().len() == 0,
            ui.free_slots().len() == 0,
            ui.spec_root() is None,
            ui.spec_needs_layout(),
            ui.spec_screen_size() == Vec2::spec_zero(),
            ui.context() == DrawingContextView::empty(),
    {
        UserInterface {
            nodes: Pool::new(),
            root: None,
            needs_layout: true,
            screen_size: Vec2::zero(),
            drawing_context: DrawingContext::new(),
            rank: Ghost(Map::empty()),
            height: Ghost(0),
        }
    }

    /// The node that `handle` resolves to, if any.
    pub fn node(&self, handle: Handle<UINode>) -> (node: Option<&UINode>)
        ensures
            node is Some <==> self.nodes().contains_key(handle),
            node matches Some(n) ==> *n == self.nodes()[handle],
    {
        self.nodes.get(handle)
    }

    /// The root of the tree that is laid out and drawn.
    pub fn root(&self) -> (root: Option<Handle<UINode>>)
        ensures
            root == self.spec_root(),
    {
        self.root
    }

    /// Whether something was invalidated since the last layout.
    pub fn needs_layout(&self) -> (r: bool)
        ensures
            r == self.spec_needs_layout(),
    {
        self.needs_layout
    }

    /// The drawing context with the commands of the last frame drawn.
    pub fn drawing_context(&self) -> (ctx: &DrawingContext)
        ensures
            ctx@ == self.context(),
    {
        &self.drawing_context
    }

    /// Makes `root` the root of the tree. Layout is due afterwards.
    pub fn set_root(&mut self, root: Option<Handle<UINode>>)
        requires
            old(self).wf(),
        ensures
            final(self).wf(),
            final(self).spec_root() == root,
            final(self).spec_needs_layout(),
            final(self).nodes() == old(self).nodes(),
            final(self).same_pool(*old(self)),
            final(self).spec_screen_size() == old(self).spec_screen_size(),
            final(self).context() == old(self).context(),
    {
        self.root = root;
        self.needs_layout = true;
    }

    /// Whether `list` names `c`.
    fn names(list: &Vec<Handle<UINode>>, c: Handle<UINode>) -> (r: bool)
        ensures
            r == list@.contains(c),
    {
        let mut i: usize = 0;
        while i < list.len()
            invariant
                i <= list@.len(),
                forall|k: int| 0 <= k < i ==> list@[k] != c,
            decreases list@.len() - i,
        {
            if list[i].same(&c) {
                return true;
            }
            i += 1;
        }
        false
    }

    /// Whether `c` can be adopted: it resolves, and no node that resolves is
    /// its parent.
    fn can_adopt(&self, c: Handle<UINode>) -> (r: bool)
        ensures
            r == free_to_adopt(self.nodes(), c),
    {
        match self.nodes.get(c) {
            Some(child) => match child.widget().parent {
                Some(p) => !self.nodes.is_valid_handle(p),
                None => true,
            },
            None => false,
        }
    }

    /// Adds `node` to the interface and returns its handle, which is new.
    ///
    /// Of the children named in the node, those that resolve and have no
    /// parent that resolves are adopted, in order and each once: they are
    /// kept and get the new node as their parent. The others are dropped, so
    /// that a node never stands in two child lists. The node starts without
    /// a parent and with its desired size out of date, and is otherwise
    /// stored as it is given. Layout is due afterwards.
    pub fn add_node(&mut self, node: UINode) -> (handle: Handle<UINode>)
        requires
            old(self).wf(),
        ensures
            final(self).wf(),
            final(self).added(*old(self), node, handle),
    {
        let ghost nodes0 = self.nodes@;
        let ghost given = node.spec_widget().children@;
        let ghost given_node = node;
        let mut node = node;
        let mut kept: Vec<Handle<UINode>> = Vec::new();
        let mut adopted: Vec<Handle<UINode>> = Vec::new();
        let mut i: usize = 0;
        let n = node.widget().children.len();
        while i < n
            invariant
                i <= n,
                n == given.len(),
                node == given_node,
                given == given_node.spec_widget().children@,
                self.nodes@ == nodes0,
                kept@ == adopted_children(nodes0, given, i as nat),
                adopted@ == kept@,
            decreases n - i,
        {
            let c = node.widget().children[i];
            if self.can_adopt(c) && !Self::names(&kept, c) {
                kept.push(c);
                adopted.push(c);
            }
            i += 1;
        }
        proof {
            lemma_adopted_children(nodes0, given, given.len());
            assert(given.take(given.len() as int) =~= given);
        }
        let w = node.widget_mut();
        if kept.len() != n {
            w.children = kept;
        }
        w.parent = None;
        w.dirty = true;
        let ghost stored = node;
        let ghost before = *self;
        let handle = self.nodes.insert(node);
        proof {
            self.rank@ = self.rank@.insert(handle, self.height@ + 1);
            self.height@ = self.height@ + 1;
        }
        self.needs_layout = true;
        proof {
            assert(stored.spec_widget().children@ == adopted@);
            assert(taken_in(given_node, stored, adopted@));
            assert forall|h: Handle<UINode>| #[trigger] self.nodes@.contains_key(h) implies {
                &&& self.rank@[h] <= self.height@
                &&& self.nodes@[h].spec_widget().cache_ok()
                &&& match self.nodes@[h].spec_widget().parent {
                    Some(p) => self.link_up_ok(h, p),
                    None => true,
                }
            } by {
                if h != handle {
                    assert(before.nodes@.contains_key(h));
                    Self::lemma_links_survive(before, *self, h);
                }
            }
            assert forall|h: Handle<UINode>, k: int|
                #![trigger self.nodes@[h].spec_widget().children@[k]]
                self.nodes@.contains_key(h) && 0 <= k < self.nodes@[h].spec_widget().children@.len()
                    implies self.link_down_ok(h, self.nodes@[h].spec_widget().children@[k]) by {
                let c = self.nodes@[h].spec_widget().children@[k];
                if h != handle {
                    assert(before.nodes@.contains_key(h));
                    Self::lemma_links_survive(before, *self, h);
                } else {
                    assert(c == adopted@[k]);
                    assert(free_to_adopt(nodes0, c));
                    assert(before.nodes@.contains_key(c));
                    assert(before.rank@[c] <= before.height@);
                }
            }
            assert forall|h: Handle<UINode>, k: int, m: int|
                #![trigger self.nodes@[h].spec_widget().children@[k], self.nodes@[h].spec_widget().children@[m]]
                self.nodes@.contains_key(h) && 0 <= k < m < self.nodes@[h].spec_widget().children@.len()
                    implies self.nodes@[h].spec_widget().children@[k]
                    != self.nodes@[h].spec_widget().children@[m] by {
                if h != handle {
                    assert(before.nodes@.contains_key(h));
                    assert(before.nodes@[h].spec_widget().children@[k]
                        != before.nodes@[h].spec_widget().children@[m]);
                } else {
                    assert(adopted@[k] != adopted@[m]);
                }
            }
            assert(self.wf_links());
            assert forall|h: Handle<UINode>, k: int|
                #![trigger self.nodes@[h].spec_widget().children@[k]]
                self.nodes@.contains_key(h) && 0 <= k < self.nodes@[h].spec_widget().children@.len()
                    && (h != handle || k < 0) implies self.child_owned(h, k) by {
                assert(before.nodes@.contains_key(h));
                let c = before.nodes@[h].spec_widget().children@[k];
                assert(before.child_owned(h, k));
                assert(before.link_down_ok(h, c));
                if self.nodes@.contains_key(c) {
                    assert(c != handle);
                    assert(before.nodes@.contains_key(c));
                }
            }
            assert(self.owned_but(handle, 0));
        }
        let ghost grown = *self;
        let mut j: usize = 0;
        while j < adopted.len()
            invariant
                j <= adopted@.len(),
                self.wf_links(),
                self.owned_but(handle, j as int),
                before.wf(),
                before.nodes@ == nodes0,
                !nodes0.contains_key(handle),
                adopted@ == adopted_children(nodes0, given, given.len()),
                forall|k: int| 0 <= k < adopted@.len() ==> free_to_adopt(nodes0, #[trigger] adopted@[k]),
                forall|k: int, m: int| 0 <= k < m < adopted@.len() ==> adopted@[k] != adopted@[m],
                self.nodes@.dom() == nodes0.dom().insert(handle),
                self.nodes@[handle] == stored,
                stored.spec_widget().children@ == adopted@,
                forall|x: Handle<UINode>| #[trigger]
                    nodes0.contains_key(x) ==> self.nodes@[x] == (if exists|k: int|
                        0 <= k < j && adopted@[k] == x {
                        node_with_parent(nodes0[x], Some(handle))
                    } else {
                        nodes0[x]
                    }),
                self.rank@ == before.rank@.insert(handle, before.height@ + 1),
                self.height@ == before.height@ + 1,
                self.nodes.stamps() == grown.nodes.stamps(),
                self.nodes.free_slots() == grown.nodes.free_slots(),
                self.needs_layout,
                self.root == before.root,
                self.screen_size == before.screen_size,
                self.drawing_context == before.drawing_context,
            decreases adopted@.len() - j,
        {
            let c = adopted[j];
            let ghost pre = *self;
            assert(free_to_adopt(nodes0, c));
            assert(nodes0.contains_key(c));
            match self.nodes.get_mut(c) {
                Some(child) => {
                    let w = child.widget_mut();
                    w.parent = Some(handle);
                },
                None => {},
            }
            proof {
                assert(self.nodes@ == pre.nodes@.insert(
                    c,
                    node_with_parent(pre.nodes@[c], Some(handle)),
                ));
                assert(pre.nodes@.contains_key(handle));
                assert(before.rank@[c] <= before.height@);
                Self::lemma_links_after_adoption(pre, *self, c, handle);
                assert(self.nodes@.dom() =~= nodes0.dom().insert(handle));
                // `c` is adopted here for the first time.
                assert(!(exists|k: int| 0 <= k < j && adopted@[k] == c)) by {
                    if exists|k: int| 0 <= k < j && adopted@[k] == c {
                        let k = choose|k: int| 0 <= k < j && adopted@[k] == c;
                        assert(adopted@[k] != adopted@[j as int]);
                    }
                }
                assert(pre.nodes@[c] == nodes0[c]);
                assert forall|x: Handle<UINode>| #[trigger] nodes0.contains_key(x) implies self.nodes@[x]
                    == (if exists|k: int| 0 <= k < j + 1 && adopted@[k] == x {
                    node_with_parent(nodes0[x], Some(handle))
                } else {
                    nodes0[x]
                }) by {
                    if x == c {
                        assert(adopted@[j as int] == x);
                    } else if exists|k: int| 0 <= k < j + 1 && adopted@[k] == x {
                        let k = choose|k: int| 0 <= k < j + 1 && adopted@[k] == x;
                        assert(0 <= k < j && adopted@[k] == x);
                    }
                }
                assert forall|h: Handle<UINode>, k: int|
                    #![trigger self.nodes@[h].spec_widget().children@[k]]
                    self.nodes@.contains_key(h) && 0 <= k < self.nodes@[h].spec_widget().children@.len()
                        && (h != handle || k < j + 1) implies self.child_owned(h, k) by {
                    assert(pre.nodes@.contains_key(h));
                    let x = pre.nodes@[h].spec_widget().children@[k];
                    assert(self.nodes@[h].spec_widget().children@[k] == x);
                    if self.nodes@.contains_key(x) {
                        if h != handle {
                            assert(pre.child_owned(h, k));
                            if x == c {
                                // Whoever listed `c` before would be its parent and resolve.
                                assert(nodes0.contains_key(h));
                                assert(nodes0[c].spec_widget().parent == Some(h));
                            }
                        } else if k < j {
                            assert(pre.child_owned(h, k));
                            assert(x == adopted@[k]);
                            assert(adopted@[k] != adopted@[j as int]);
                        } else {
                            assert(x == adopted@[j as int]);
                        }
                    }
                }
            }
            j += 1;
        }
        proof {
            let kept_seq = adopted_children(nodes0, given, given.len());
            assert forall|x: Handle<UINode>| #[trigger] nodes0.contains_key(x) implies self.nodes@[x]
                == (if kept_seq.contains(x) {
                node_with_parent(nodes0[x], Some(handle))
            } else {
                nodes0[x]
            }) by {
                if kept_seq.contains(x) {
                    let k = choose|k: int| 0 <= k < kept_seq.len() && kept_seq[k] == x;
                    assert(0 <= k < j && adopted@[k] == x);
                }
            }
            assert forall|x: Handle<UINode>| before.expired(x) implies self.expired(x) by {
                Pool::lemma_expired_forever(&before.nodes, &grown.nodes, x);
            }
            assert forall|x: Handle<UINode>| #[trigger] nodes0.contains_key(x) implies x.spec_index()
                != handle.spec_index() by {
                before.nodes.lemma_live_is_current(x);
                if x.spec_index() == handle.spec_index() {
                    Handle::lemma_identity(x, handle);
                }
            }
            assert forall|h: Handle<UINode>, k: int|
                #![trigger self.nodes@[h].spec_widget().children@[k]]
                self.nodes@.contains_key(h) && 0 <= k < self.nodes@[h].spec_widget().children@.len()
                    implies self.child_owned(h, k) by {
                assert(h != handle || k < j);
            }
        }
        handle
    }

    /// Removes the node that `handle` resolves to and returns it. The handle
    /// and every copy of it expire: they resolve to nothing from now on,
    /// also when the slot is used again. The chain of parents above the
    /// removed node is marked for a new measure, and layout is due. Absent,
    /// and without effect, when `handle` does not resolve.
    pub fn remove_node(&mut self, handle: Handle<UINode>) -> (removed: Option<UINode>)
        requires
            old(self).wf(),
        ensures
            final(self).wf(),
            removed == (if old(self).nodes().contains_key(handle) {
                Some(old(self).nodes()[handle])
            } else {
                None
            }),
            final(self).nodes() == (match removed {
                Some(node) => match node.spec_widget().parent {
                    Some(p) => invalidated(
                        old(self).nodes().remove(handle),
                        old(self).ranks(),
                        old(self).height(),
                        p,
                    ),
                    None => old(self).nodes().remove(handle),
                },
                None => old(self).nodes(),
            }),
            !final(self).nodes().contains_key(handle),
            removed is Some ==> final(self).expired(handle),
            forall|x: Handle<UINode>| old(self).expired(x) ==> final(self).expired(x),
            final(self).stamps() == (if removed is Some {
                old(self).stamps().update(
                    handle.spec_index() as int,
                    handle.spec_generation() + 1,
                )
            } else {
                old(self).stamps()
            }),
            final(self).free_slots() == (if removed is Some && handle.spec_generation() + 1
                < u32::MAX {
                old(self).free_slots().push(handle.spec_index())
            } else {
                old(self).free_slots()
            }),
            final(self).spec_needs_layout() == (old(self).spec_needs_layout() || removed is Some),
            final(self).ranks() == old(self).ranks(),
            final(self).height() == old(self).height(),
            final(self).spec_root() == old(self).spec_root(),
            final(self).spec_screen_size() == old(self).spec_screen_size(),
            final(self).context() == old(self).context(),
    {
        let ghost before = *self;
        let removed = self.nodes.remove(handle);
        let ghost mid = *self;
        proof {
            assert forall|x: Handle<UINode>| before.expired(x) implies mid.expired(x) by {
                Pool::lemma_expired_forever(&before.nodes, &mid.nodes, x);
            }
            assert forall|h: Handle<UINode>| #[trigger] mid.nodes@.contains_key(h) implies {
                &&& mid.rank@[h] <= mid.height@
                &&& mid.nodes@[h].spec_widget().cache_ok()
                &&& match mid.nodes@[h].spec_widget().parent {
                    Some(p) => mid.link_up_ok(h, p),
                    None => true,
                }
            } by {
                assert(before.nodes@.contains_key(h));
                Self::lemma_links_survive(before, mid, h);
            }
            assert forall|h: Handle<UINode>, k: int|
                #![trigger mid.nodes@[h].spec_widget().children@[k]]
                mid.nodes@.contains_key(h) && 0 <= k < mid.nodes@[h].spec_widget().children@.len()
                    implies mid.link_down_ok(h, mid.nodes@[h].spec_widget().children@[k]) by {
                assert(before.nodes@.contains_key(h));
                Self::lemma_links_survive(before, mid, h);
            }
            assert forall|h: Handle<UINode>, k: int, m: int|
                #![trigger mid.nodes@[h].spec_widget().children@[k], mid.nodes@[h].spec_widget().children@[m]]
                mid.nodes@.contains_key(h) && 0 <= k < m < mid.nodes@[h].spec_widget().children@.len()
                    implies mid.nodes@[h].spec_widget().children@[k]
                    != mid.nodes@[h].spec_widget().children@[m] by {
                assert(before.nodes@.contains_key(h));
                assert(before.nodes@[h].spec_widget().children@[k]
                    != before.nodes@[h].spec_widget().children@[m]);
            }
            assert forall|h: Handle<UINode>, k: int|
                #![trigger mid.nodes@[h].spec_widget().children@[k]]
                mid.nodes@.contains_key(h) && 0 <= k < mid.nodes@[h].spec_widget().children@.len()
                    implies mid.child_owned(h, k) by {
                assert(before.nodes@.contains_key(h));
                assert(before.child_owned(h, k));
            }
            assert(mid.wf());
        }
        match &removed {
            Some(node) => {
                self.needs_layout = true;
                match node.widget().parent {
                    Some(p) => {
                        self.invalidate_layout(p);
                        proof {
                            lemma_invalidated_keeps_nodes(mid.nodes@, mid.rank@, mid.height@, p);
                        }
                    },
                    None => {},
                }
            },
            None => {},
        }
        removed
    }

    /// Marks the cached desired size of `handle` and of every node on the
    /// chain of parents above it as out of date, so that the next layout
    /// measures them again. Layout is due afterwards. Without effect when
    /// `handle` does not resolve.
    pub fn invalidate_layout(&mut self, handle: Handle<UINode>)
        requires
            old(self).wf(),
        ensures
            final(self).wf(),
            final(self).nodes() == invalidated(
                old(self).nodes(),
                old(self).ranks(),
                old(self).height(),
                handle,
            ),
            final(self).spec_needs_layout() == (old(self).spec_needs_layout() || old(
                self,
            ).nodes().contains_key(handle)),
            final(self).same_pool(*old(self)),
            final(self).spec_root() == old(self).spec_root(),
            final(self).spec_screen_size() == old(self).spec_screen_size(),
            final(self).context() == old(self).context(),
    {
        let ghost nodes0 = self.nodes@;
        let ghost rank = self.rank@;
        let ghost height = self.height@;
        let mut current = handle;
        let mut go = self.nodes.is_valid_handle(handle);
        if go {
            self.needs_layout = true;
        }
        while go
            invariant
                self.wf(),
                self.rank@ == rank,
                self.height@ == height,
                self.nodes.stamps() == old(self).nodes.stamps(),
                self.nodes.free_slots() == old(self).nodes.free_slots(),
                self.root == old(self).root,
                self.screen_size == old(self).screen_size,
                self.drawing_context == old(self).drawing_context,
                self.needs_layout == (old(self).needs_layout || nodes0.contains_key(handle)),
                go ==> self.nodes@.contains_key(current),
                invalidated(nodes0, rank, height, handle) == (if go {
                    invalidated(self.nodes@, rank, height, current)
                } else {
                    self.nodes@
                }),
            decreases
                    (if go {
                        height - rank[current] + 1
                    } else {
                        0
                    }),
        {
            let ghost before = *self;
            let mut parent: Option<Handle<UINode>> = None;
            match self.nodes.get_mut(current) {
                Some(node) => {
                    let w = node.widget_mut();
                    w.dirty = true;
                    parent = w.parent;
                },
                None => {},
            }
            proof {
                assert(self.nodes@ == before.nodes@.insert(
                    current,
                    node_with_dirty(before.nodes@[current]),
                ));
                assert(self.nodes@.dom() =~= before.nodes@.dom());
                assert(layout_step(before.nodes@, self.nodes@));
                Self::lemma_wf_after_layout_step(before, *self);
            }
            match parent {
                Some(p) => {
                    if self.nodes.is_valid_handle(p) {
                        proof {
                            assert(before.nodes@.contains_key(current));
                            assert(before.nodes@.contains_key(p));
                            assert(before.link_up_ok(current, p));
                            before.nodes.lemma_live_is_current(p);
                            assert(rank[current] < rank[p] && rank[p] <= height);
                        }
                        current = p;
                    } else {
                        proof {
                            assert(!self.nodes@.contains_key(p));
                            assert(invalidated(self.nodes@, rank, height, p) == self.nodes@);
                        }
                        go = false;
                    }
                },
                None => {
                    go = false;
                },
            }
        }
    }

    /// Measure pass over the subtree of `handle`, with `available_size`
    /// offered to it. Returns the desired size of `handle`, which is never
    /// negative, never more than what is offered, and 0 in every dimension
    /// in which nothing, or less, is offered; without a node behind
    /// `handle` it is 0.
    pub fn measure(&mut self, handle: Handle<UINode>, available_size: Vec2) -> (desired: Vec2)
        requires
            old(self).wf(),
        ensures
            final(self).wf(),
            final(self).same_but_nodes(*old(self)),
            final(self).nodes() == measured(
                old(self).nodes(),
                old(self).ranks(),
                handle,
                available_size,
            ),
            desired == measured_size(
                old(self).nodes(),
                old(self).ranks(),
                handle,
                available_size,
            ),
            desired == desired.spec_bounded_by(available_size),
        decreases old(self).ranks()[handle],
    {
        let ghost nodes0 = self.nodes@;
        let ghost rank = self.rank@;
        let (visible, inner, children) = match self.nodes.get(handle) {
            None => {
                return Vec2::zero();
            },
            Some(node) => {
                let w = node.widget();
                if !w.dirty && w.last_available == available_size {
                    return w.desired_size;
                }
                let inner = w.content_available(available_size);
                if w.visible {
                    let children = w.children.clone();
                    assert(children@ =~= w.children@);
                    (true, inner, children)
                } else {
                    (false, inner, Vec::new())
                }
            },
        };
        if visible {
            let mut i: usize = 0;
            while i < children.len()
                invariant
                    i <= children@.len(),
                    self.wf(),
                    self.same_but_nodes(*old(self)),
                    nodes0 == old(self).nodes@,
                    rank == old(self).rank@,
                    nodes0.contains_key(handle),
                    children@ == nodes0[handle].spec_widget().children@,
                    self.nodes@ == measured_children(
                        nodes0,
                        rank,
                        rank[handle],
                        children@,
                        inner,
                        i as nat,
                    ),
                decreases children@.len() - i,
            {
                let c = children[i];
                if self.nodes.is_valid_handle(c) {
                    proof {
                        lemma_measured_children_is_layout_step(
                            nodes0,
                            rank,
                            rank[handle],
                            children@,
                            inner,
                            i as nat,
                        );
                        self.nodes.lemma_live_is_current(c);
                        assert(self.nodes@.contains_key(handle));
                        assert(self.nodes@[handle].spec_widget().children@[i as int] == c);
                        assert(self.link_down_ok(handle, c));
                    }
                    self.measure(c, inner);
                }
                i += 1;
            }
        }
        let ghost after = self.nodes@;
        proof {
            if visible {
                lemma_measured_children_is_layout_step(
                    nodes0,
                    rank,
                    rank[handle],
                    children@,
                    inner,
                    children@.len(),
                );
            }
            assert(after.contains_key(handle));
        }
        let desired = if visible {
            match self.nodes.get(handle) {
                Some(node) => {
                    let content = node.measure_override(&*self, inner);
                    node.widget().desired_with_margin(content, available_size)
                },
                None => Vec2::zero(),
            }
        } else {
            Vec2::zero()
        };
        let ghost before = *self;
        match self.nodes.get_mut(handle) {
            Some(node) => {
                let w = node.widget_mut();
                w.dirty = false;
                w.last_available = available_size;
                w.desired_size = desired;
            },
            None => {},
        }
        proof {
            assert(self.nodes@ == after.insert(
                handle,
                node_with_measure(after[handle], available_size, desired),
            ));
            assert(self.nodes@.dom() =~= after.dom());
            assert(layout_step(after, self.nodes@));
            Self::lemma_wf_after_layout_step(before, *self);
        }
        desired
    }

    /// Arrange pass over the subtree of `handle`, with `final_rect`, in
    /// surface coordinates, given to it. Uses the desired sizes that the
    /// measure pass left in the nodes.
    pub fn arrange(&mut self, handle: Handle<UINode>, final_rect: &Rect)
        requires
            old(self).wf(),
        ensures
            final(self).wf(),
            final(self).same_but_nodes(*old(self)),
            final(self).nodes() == arranged(
                old(self).nodes(),
                old(self).ranks(),
                handle,
                *final_rect,
            ),
        decreases old(self).ranks()[handle],
    {
        let ghost nodes0 = self.nodes@;
        let ghost rank = self.rank@;
        let (visible, bounds, children) = match self.nodes.get(handle) {
            None => {
                return ;
            },
            Some(node) => {
                let w = node.widget();
                if w.visible {
                    let place = w.place(final_rect);
                    let actual = node.arrange_override(&*self, place.size());
                    let children = w.children.clone();
                    assert(children@ =~= w.children@);
                    (true, Rect::new(place.x, place.y, actual.x, actual.y), children)
                } else {
                    (false, Rect::new(final_rect.x, final_rect.y, 0, 0), Vec::new())
                }
            },
        };
        let ghost before = *self;
        match self.nodes.get_mut(handle) {
            Some(node) => {
                let w = node.widget_mut();
                w.screen_bounds = bounds;
            },
            None => {},
        }
        let ghost placed = self.nodes@;
        proof {
            assert(placed == nodes0.insert(handle, node_with_bounds(nodes0[handle], bounds)));
            assert(placed.dom() =~= nodes0.dom());
            assert(layout_step(nodes0, placed));
            Self::lemma_wf_after_layout_step(before, *self);
            assert(visible ==> bounds == arranged_bounds(nodes0, handle, *final_rect));
            assert(!visible ==> bounds == Widget::collapsed(*final_rect));
        }
        if visible {
            let mut i: usize = 0;
            while i < children.len()
                invariant
                    i <= children@.len(),
                    self.wf(),
                    self.same_but_nodes(*old(self)),
                    rank == old(self).rank@,
                    placed.contains_key(handle),
                    children@ == placed[handle].spec_widget().children@,
                    self.nodes@ == arranged_children(
                        placed,
                        rank,
                        rank[handle],
                        children@,
                        bounds,
                        i as nat,
                    ),
                decreases children@.len() - i,
            {
                let c = children[i];
                if self.nodes.is_valid_handle(c) {
                    proof {
                        assert(bounds_step(placed, placed));
                        lemma_arranged_children_read_no_bounds(
                            placed,
                            placed,
                            rank,
                            rank[handle],
                            children@,
                            bounds,
                            i as nat,
                        );
                        self.nodes.lemma_live_is_current(c);
                        assert(self.nodes@.contains_key(handle));
                        assert(self.nodes@[handle].spec_widget().children@[i as int] == c);
                        assert(self.link_down_ok(handle, c));
                    }
                    self.arrange(c, &bounds);
                }
                i += 1;
            }
        }
    }

    /// One layout of the whole tree for a surface of `screen_size`, if it is
    /// due: a full measure pass from the root, and a full arrange pass after
    /// it. Not due, it changes nothing.
    pub fn update_layout(&mut self, screen_size: Vec2)
        requires
            old(self).wf(),
        ensures
            final(self).wf(),
            final(self).nodes() == (if old(self).layout_due(screen_size) {
                laid_out(
                    old(self).nodes(),
                    old(self).ranks(),
                    old(self).spec_root()->0,
                    screen_size,
                )
            } else {
                old(self).nodes()
            }),
            final(self).spec_needs_layout() == (old(self).spec_root() is None && old(
                self,
            ).spec_needs_layout()),
            final(self).spec_screen_size() == (if old(self).layout_due(screen_size) {
                screen_size
            } else {
                old(self).spec_screen_size()
            }),
            !final(self).layout_due(final(self).spec_screen_size()),
            final(self).same_pool(*old(self)),
            final(self).spec_root() == old(self).spec_root(),
            final(self).context() == old(self).context(),
    {
        match self.root {
            Some(root) => {
                if self.needs_layout || screen_size != self.screen_size {
                    self.measure(root, screen_size);
                    self.arrange(root, &Rect::from_size(screen_size));
                    self.needs_layout = false;
                    self.screen_size = screen_size;
                }
            },
            None => {},
        }
    }

    /// Advances every node by `dt` milliseconds, each node exactly once.
    pub fn update(&mut self, dt: u32)
        requires
            old(self).wf(),
        ensures
            final(self).wf(),
            final(self).same_but_nodes(*old(self)),
            final(self).nodes() == updated(old(self).nodes(), dt),
    {
        let ghost nodes0 = self.nodes@;
        let n = self.nodes.capacity();
        let mut i: usize = 0;
        while i < n
            invariant
                i <= n,
                self.wf(),
                self.same_but_nodes(*old(self)),
                nodes0 == old(self).nodes@,
                self.nodes@.dom() == nodes0.dom(),
                forall|h: Handle<UINode>| #[trigger]
                    nodes0.contains_key(h) ==> self.nodes@[h] == (if h.spec_index() < i {
                        nodes0[h].spec_updated(dt)
                    } else {
                        nodes0[h]
                    }),
            decreases n - i,
        {
            let ghost pre = *self;
            match self.nodes.handle_at(i) {
                Some(h) => {
                    match self.nodes.get_mut(h) {
                        Some(node) => {
                            node.update(dt);
                        },
                        None => {},
                    }
                    proof {
                        assert(self.nodes@ == pre.nodes@.insert(h, pre.nodes@[h].spec_updated(dt)));
                        assert(self.nodes@.dom() =~= nodes0.dom());
                        assert(layout_step(pre.nodes@, self.nodes@));
                        Self::lemma_wf_after_layout_step(pre, *self);
                        assert forall|g: Handle<UINode>| #[trigger] nodes0.contains_key(g) implies self.nodes@[g]
                            == (if g.spec_index() < i + 1 {
                            nodes0[g].spec_updated(dt)
                        } else {
                            nodes0[g]
                        }) by {
                            if g.spec_index() == i {
                                assert(pre.nodes@.contains_key(g));
                                pre.nodes.lemma_one_live_handle_per_slot(g, h);
                            }
                        }
                    }
                },
                None => {
                    assert forall|g: Handle<UINode>| #[trigger] nodes0.contains_key(g) implies self.nodes@[g]
                        == (if g.spec_index() < i + 1 {
                        nodes0[g].spec_updated(dt)
                    } else {
                        nodes0[g]
                    }) by {
                        if g.spec_index() == i {
                            assert(self.nodes@.contains_key(g));
                        }
                    }
                },
            }
            i += 1;
        }
        proof {
            assert forall|h: Handle<UINode>| #[trigger] nodes0.contains_key(h) implies self.nodes@[h]
                == nodes0[h].spec_updated(dt) by {
                old(self).nodes.lemma_live_is_current(h);
            }
            assert(self.nodes@ =~= updated(nodes0, dt));
        }
    }

    /// Appends the commands of the subtree of `handle` to the drawing
    /// context, in painting order.
    fn draw_subtree(&mut self, handle: Handle<UINode>)
        requires
            old(self).wf(),
            old(self).context().is_flushed(),
        ensures
            final(self).wf(),
            final(self).nodes() == old(self).nodes(),
            final(self).same_pool(*old(self)),
            final(self).spec_root() == old(self).spec_root(),
            final(self).spec_needs_layout() == old(self).spec_needs_layout(),
            final(self).spec_screen_size() == old(self).spec_screen_size(),
            final(self).context().is_flushed(),
            final(self).context().commands == old(self).context().commands + drawn(
                old(self).nodes(),
                old(self).ranks(),
                handle,
            ),
        decreases old(self).ranks()[handle],
    {
        let ghost nodes0 = self.nodes@;
        let ghost rank = self.rank@;
        let ghost before = *self;
        let ghost painted = self.context().commands;
        let (visible, children) = match self.nodes.get_mut(handle) {
            None => {
                assert(painted + drawn(nodes0, rank, handle) =~= painted);
                return ;
            },
            Some(node) => {
                if node.widget().visible {
                    node.draw(&mut self.drawing_context);
                    (true, node.widget().children.clone())
                } else {
                    (false, Vec::new())
                }
            },
        };
        proof {
            assert(self.nodes@ =~= nodes0);
            assert(layout_step(nodes0, self.nodes@));
            Self::lemma_wf_after_layout_step(before, *self);
            assert(visible == nodes0[handle].spec_widget().visible);
            assert(before.context().vertices =~= Seq::empty());
            assert(before.context().indices =~= Seq::empty());
            nodes0[handle].lemma_commands_on_empty();
        }
        if !visible {
            assert(painted + drawn(nodes0, rank, handle) =~= painted);
            return ;
        }
        assert(children@ =~= nodes0[handle].spec_widget().children@);
        let ghost own = nodes0[handle].spec_commands();
        let mut i: usize = 0;
        while i < children.len()
            invariant
                i <= children@.len(),
                self.wf(),
                self.nodes@ == nodes0,
                self.rank@ == rank,
                rank == old(self).rank@,
                self.height@ == old(self).height@,
                self.nodes.stamps() == old(self).nodes.stamps(),
                self.nodes.free_slots() == old(self).nodes.free_slots(),
                self.root == old(self).root,
                self.needs_layout == old(self).needs_layout,
                self.screen_size == old(self).screen_size,
                nodes0.contains_key(handle),
                children@ == nodes0[handle].spec_widget().children@,
                self.context().is_flushed(),
                self.context().commands == painted + own + drawn_children(
                    nodes0,
                    rank,
                    rank[handle],
                    children@,
                    i as nat,
                ),
            decreases children@.len() - i,
        {
            let c = children[i];
            let ghost so_far = drawn_children(nodes0, rank, rank[handle], children@, i as nat);
            if self.nodes.is_valid_handle(c) {
                proof {
                    self.nodes.lemma_live_is_current(c);
                    assert(self.nodes@[handle].spec_widget().children@[i as int] == c);
                    assert(self.link_down_ok(handle, c));
                }
                self.draw_subtree(c);
                assert(self.context().commands =~= painted + own + (so_far + drawn(nodes0, rank, c)));
            }
            i += 1;
        }
        assert(self.context().commands =~= painted + drawn(nodes0, rank, handle));
    }

    /// Draws the frame: empties the drawing context and fills it with the
    /// commands of the tree under the root, in painting order. Returns the
    /// context, which holds the command list for the renderer.
    pub fn draw(&mut self) -> (ctx: &DrawingContext)
        requires
            old(self).wf(),
        ensures
            final(self).wf(),
            final(self).nodes() == old(self).nodes(),
            final(self).same_pool(*old(self)),
            final(self).spec_root() == old(self).spec_root(),
            final(self).spec_needs_layout() == old(self).spec_needs_layout(),
            final(self).spec_screen_size() == old(self).spec_screen_size(),
            ctx@ == final(self).context(),
            ctx@.is_flushed(),
            ctx@.commands == (match old(self).spec_root() {
                Some(root) => drawn(old(self).nodes(), old(self).ranks(), root),
                None => Seq::empty(),
            }),
    {
        self.drawing_context.clear();
        match self.root {
            Some(root) => {
                self.draw_subtree(root);
                assert(self.context().commands =~= drawn(old(self).nodes(), old(self).ranks(), root));
            },
            None => {},
        }
        &self.drawing_context
    }

    /// One frame, in the fixed order of its phases: every node is advanced
    /// by `dt` milliseconds, the tree is laid out for a surface of
    /// `screen_size` if layout is due, and the frame is drawn. Returns the
    /// drawing context with the command list of the frame.
    pub fn frame(&mut self, dt: u32, screen_size: Vec2) -> (ctx: &DrawingContext)
        requires
            old(self).wf(),
        ensures
            final(self).wf(),
            final(self).nodes() == (if old(self).layout_due(screen_size) {
                laid_out(
                    updated(old(self).nodes(), dt),
                    old(self).ranks(),
                    old(self).spec_root()->0,
                    screen_size,
                )
            } else {
                updated(old(self).nodes(), dt)
            }),
            final(self).spec_needs_layout() == (old(self).spec_root() is None && old(
                self,
            ).spec_needs_layout()),
            final(self).spec_screen_size() == (if old(self).layout_due(screen_size) {
                screen_size
            } else {
                old(self).spec_screen_size()
            }),
            final(self).same_pool(*old(self)),
            final(self).spec_root() == old(self).spec_root(),
            ctx@ == final(self).context(),
            ctx@.is_flushed(),
            ctx@.commands == (match old(self).spec_root() {
                Some(root) => drawn(final(self).nodes(), old(self).ranks(), root),
                None => Seq::empty(),
            }),
    {
        self.update(dt);
        self.update_layout(screen_size);
        self.draw()
    }
}

} // verus!
