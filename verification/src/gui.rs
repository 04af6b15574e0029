//! The user interface proper: widgets, the node variants built on them, the
//! layout passes and the drawing pipeline.
//!
//! Every node variant has three capabilities. [`Update`] advances whatever
//! depends on time, [`Layout`] takes part in the measure and arrange passes,
//! and [`Draw`] emits the draw commands of the node.

pub mod draw;
pub mod image;
pub mod layout;
pub mod node;
pub mod ui;
pub mod widget;

pub use ui::UserInterface;

use crate::gui::draw::DrawCommandView;
use crate::gui::draw::DrawingContext;
use crate::gui::draw::Vertex;
use crate::gui::node::UINode;
use crate::math::bounded;
use crate::math::Vec2;
use crate::pool::Handle;
use vstd::prelude::*;

verus! {

/// Advancing time-dependent state.
pub trait Update: Sized {
    /// The node after `dt` milliseconds have passed.
    spec fn spec_updated(self, dt: u32) -> Self;

    /// Advances the node by `dt` milliseconds.
    fn update(&mut self, dt: u32)
        ensures
            *final(self) == old(self).spec_updated(dt),
    ;
}

/// Taking part in the two layout passes.
pub trait Layout {
    /// Size the node asks for when `available_size` is offered to its
    /// content, given the nodes of the interface with the desired sizes of
    /// the children already cached in them.
    spec fn spec_measure_override(
        &self,
        nodes: Map<Handle<UINode>, UINode>,
        available_size: Vec2,
    ) -> Vec2;

    /// Size the node takes when `final_size` is allotted to its content.
    spec fn spec_arrange_override(
        &self,
        nodes: Map<Handle<UINode>, UINode>,
        final_size: Vec2,
    ) -> Vec2;

    /// Measure pass. The result never exceeds what is offered and is 0 in
    /// every dimension in which nothing, or less, is offered.
    fn measure_override(&self, ui: &UserInterface, available_size: Vec2) -> (desired: Vec2)
        ensures
            desired == self.spec_measure_override(ui.nodes(), available_size),
            desired.x as int == bounded(desired.x as int, available_size.x as int),
            desired.y as int == bounded(desired.y as int, available_size.y as int),
    ;

    /// Arrange pass. The size taken is never negative, whatever is allotted.
    fn arrange_override(&self, ui: &UserInterface, final_size: Vec2) -> (actual: Vec2)
        ensures
            actual == self.spec_arrange_override(ui.nodes(), final_size),
            actual.x >= 0 && actual.y >= 0,
    ;
}

/// Emitting draw commands.
pub trait Draw: Sized {
    /// Number of vertices the node adds to the pending geometry before it
    /// commits for the first time.
    spec fn spec_vertices_pushed(&self) -> nat;

    /// The commands the node adds, in order, when it starts on a context in
    /// which `vertices` and `indices` are pending: its first command takes
    /// them along, in front of its own geometry.
    spec fn spec_commands_over(&self, vertices: Seq<Vertex>, indices: Seq<u32>) -> Seq<
        DrawCommandView,
    >;

    /// The commands the node adds, in order, when it starts on a context
    /// with nothing pending.
    spec fn spec_commands(&self) -> Seq<DrawCommandView>;

    /// With nothing pending, the commands are those of `spec_commands`.
    proof fn lemma_commands_on_empty(&self)
        ensures
            self.spec_commands_over(Seq::empty(), Seq::empty()) == self.spec_commands(),
    ;

    /// Appends the commands of the node after those already committed.
    /// Geometry that is pending goes into the first of them. The node leaves
    /// nothing pending, and drawing does not change it. The context must
    /// have room for the indices of the vertices the node pushes.
    fn draw(&mut self, drawing_context: &mut DrawingContext)
        requires
            old(drawing_context)@.vertices.len() + old(self).spec_vertices_pushed() <= u32::MAX,
        ensures
            final(drawing_context)@.is_flushed(),
            final(drawing_context)@.commands == old(drawing_context)@.commands + old(
                self,
            ).spec_commands_over(old(drawing_context)@.vertices, old(drawing_context)@.indices),
            *final(self) == *old(self),
    ;
}

} // verus!
