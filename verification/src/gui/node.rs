//! The closed set of node variants. Every capability is dispatched to the
//! variant by a match, so a new kind of widget is a new variant and a new arm.

use crate::gui::draw::DrawCommandView;
use crate::gui::draw::DrawingContext;
use crate::gui::draw::Vertex;
use crate::gui::image::Image;
use crate::gui::widget::AsWidget;
use crate::gui::widget::Widget;
use crate::gui::Draw;
use crate::gui::Layout;
use crate::gui::Update;
use crate::gui::UserInterface;
use crate::math::Vec2;
use crate::pool::Handle;
use vstd::prelude::*;

verus! {

/// A node of the interface.
#[derive(Debug)]
pub enum UINode {
    Image(Image),
}

impl AsWidget for UINode {
    open spec fn spec_widget(&self) -> Widget {
        match self {
            UINode::Image(image) => image.widget,
        }
    }

    open spec fn spec_with_widget(self, widget: Widget) -> UINode {
        match self {
            UINode::Image(image) => UINode::Image(Image { widget, ..image }),
        }
    }

    fn widget(&self) -> (widget: &Widget) {
        match self {
            UINode::Image(image) => image.widget(),
        }
    }

    fn widget_mut(&mut self) -> (widget: &mut Widget) {
        match self {
            UINode::Image(image) => image.widget_mut(),
        }
    }
}

impl Update for UINode {
    open spec fn spec_updated(self, dt: u32) -> UINode {
        match self {
            UINode::Image(image) => UINode::Image(image.spec_updated(dt)),
        }
    }

    fn update(&mut self, dt: u32) {
        match self {
            UINode::Image(image) => image.update(dt),
        }
    }
}

impl Layout for UINode {
    open spec fn spec_measure_override(
        &self,
        nodes: Map<Handle<UINode>, UINode>,
        available_size: Vec2,
    ) -> Vec2 {
        match self {
            UINode::Image(image) => image.spec_measure_override(nodes, available_size),
        }
    }

    open spec fn spec_arrange_override(
        &self,
        nodes: Map<Handle<UINode>, UINode>,
        final_size: Vec2,
    ) -> Vec2 {
        match self {
            UINode::Image(image) => image.spec_arrange_override(nodes, final_size),
        }
    }

    fn measure_override(&self, ui: &UserInterface, available_size: Vec2) -> (desired: Vec2) {
        match self {
            UINode::Image(image) => image.measure_override(ui, available_size),
        }
    }

    fn arrange_override(&self, ui: &UserInterface, final_size: Vec2) -> (actual: Vec2) {
        match self {
            UINode::Image(image) => image.arrange_override(ui, final_size),
        }
    }
}

impl Draw for UINode {
    open spec fn spec_vertices_pushed(&self) -> nat {
        match self {
            UINode::Image(image) => image.spec_vertices_pushed(),
        }
    }

    open spec fn spec_commands_over(&self, vertices: Seq<Vertex>, indices: Seq<u32>) -> Seq<
        DrawCommandView,
    > {
        match self {
            UINode::Image(image) => image.spec_commands_over(vertices, indices),
        }
    }

    proof fn lemma_commands_on_empty(&self) {
        match self {
            UINode::Image(image) => image.lemma_commands_on_empty(),
        }
    }

    open spec fn spec_commands(&self) -> Seq<DrawCommandView> {
        match self {
            UINode::Image(image) => image.spec_commands(),
        }
    }

    fn draw(&mut self, drawing_context: &mut DrawingContext) {
        match self {
            UINode::Image(image) => image.draw(drawing_context),
        }
    }
}

} // verus!
