//! A node that shows a texture stretched over its bounds.

use crate::gui::draw::quad_indices;
use crate::gui::draw::quad_vertices;
use crate::gui::draw::CommandKind;
use crate::gui::draw::CommandTexture;
use crate::gui::draw::DrawCommandView;
use crate::gui::draw::DrawingContext;
use crate::gui::draw::Vertex;
use crate::gui::layout::adopted_children;
use crate::gui::node::UINode;
use crate::gui::widget::AsWidget;
use crate::gui::widget::Widget;
use crate::gui::widget::WidgetBuilder;
use crate::gui::Draw;
use crate::gui::Layout;
use crate::gui::Update;
use crate::gui::UserInterface;
use crate::math::Vec2;
use crate::pool::Handle;
use crate::texture::share;
use crate::texture::Texture;
use std::sync::Arc;
use std::sync::Mutex;
use vstd::prelude::*;

verus! {

/// An image: a widget and, if it has one, the texture it shows.
#[derive(Debug)]
pub struct Image {
    pub widget: Widget,
    pub texture: Option<Arc<Mutex<Texture>>>,
}

impl Image {
    /// Texture of the command an image draws: its own, or none.
    pub open spec fn command_texture(&self) -> CommandTexture {
        match self.texture {
            Some(texture) => CommandTexture::Texture(texture),
            None => CommandTexture::NoTexture,
        }
    }
}

impl AsWidget for Image {
    open spec fn spec_widget(&self) -> Widget {
        self.widget
    }

    open spec fn spec_with_widget(self, widget: Widget) -> Image {
        Image { widget, ..self }
    }

    fn widget(&self) -> (widget: &Widget) {
        &self.widget
    }

    fn widget_mut(&mut self) -> (widget: &mut Widget) {
        &mut self.widget
    }
}

impl Draw for Image {
    /// One filled rectangle.
    open spec fn spec_vertices_pushed(&self) -> nat {
        4
    }

    /// One command: what was pending, and behind it the screen bounds filled
    /// with the colour of the widget; with the texture of the image if it
    /// has one, untextured if not.
    open spec fn spec_commands_over(&self, vertices: Seq<Vertex>, indices: Seq<u32>) -> Seq<
        DrawCommandView,
    > {
        seq![
            DrawCommandView {
                kind: CommandKind::Geometry,
                texture: self.command_texture(),
                vertices: vertices + quad_vertices(self.widget.screen_bounds, self.widget.color),
                indices: indices + quad_indices(vertices.len()),
            },
        ]
    }

    proof fn lemma_commands_on_empty(&self) {
        let empty_vertices = Seq::<Vertex>::empty();
        let empty_indices = Seq::<u32>::empty();
        let quad = quad_vertices(self.widget.screen_bounds, self.widget.color);
        assert(empty_vertices + quad =~= quad);
        assert(empty_indices + quad_indices(0) =~= quad_indices(0));
        assert(self.spec_commands_over(empty_vertices, empty_indices) =~= self.spec_commands());
    }

    /// One command: the screen bounds filled with the colour of the widget,
    /// with the texture of the image if it has one.
    open spec fn spec_commands(&self) -> Seq<DrawCommandView> {
        seq![
            DrawCommandView {
                kind: CommandKind::Geometry,
                texture: self.command_texture(),
                vertices: quad_vertices(self.widget.screen_bounds, self.widget.color),
                indices: quad_indices(0),
            },
        ]
    }

    fn draw(&mut self, drawing_context: &mut DrawingContext)
        ensures
            final(drawing_context)@ == old(drawing_context)@.push_rect_filled(
                old(self).widget.screen_bounds,
                None,
                old(self).widget.color,
            ).commit(CommandKind::Geometry, old(self).command_texture()),
    {
        let bounds = self.widget.get_screen_bounds();
        drawing_context.push_rect_filled(&bounds, None, self.widget.color());
        let texture = match &self.texture {
            Some(t) => CommandTexture::Texture(share(t)),
            None => CommandTexture::NoTexture,
        };
        drawing_context.commit(CommandKind::Geometry, texture);
        proof {
            let before = old(drawing_context)@;
            assert(drawing_context@.commands =~= before.commands + self.spec_commands_over(
                before.vertices,
                before.indices,
            ));
        }
    }
}

impl Layout for Image {
    open spec fn spec_measure_override(
        &self,
        nodes: Map<Handle<UINode>, UINode>,
        available_size: Vec2,
    ) -> Vec2 {
        self.widget.spec_measure_override(nodes, available_size)
    }

    open spec fn spec_arrange_override(
        &self,
        nodes: Map<Handle<UINode>, UINode>,
        final_size: Vec2,
    ) -> Vec2 {
        self.widget.spec_arrange_override(final_size)
    }

    fn measure_override(&self, ui: &UserInterface, available_size: Vec2) -> (desired: Vec2) {
        self.widget.measure_override(ui, available_size)
    }

    fn arrange_override(&self, ui: &UserInterface, final_size: Vec2) -> (actual: Vec2) {
        self.widget.arrange_override(ui, final_size)
    }
}

impl Update for Image {
    /// An image has no state that depends on time.
    open spec fn spec_updated(self, dt: u32) -> Image {
        self
    }

    fn update(&mut self, dt: u32) {
        self.widget.update(dt)
    }
}

/// Collects what an image is made of.
pub struct ImageBuilder {
    widget_builder: WidgetBuilder,
    texture: Option<Arc<Mutex<Texture>>>,
}

impl ImageBuilder {
    /// The widget the image would get now.
    pub closed spec fn spec_widget(&self) -> Widget {
        self.widget_builder.spec_widget()
    }

    /// The texture the image would get now.
    pub closed spec fn spec_texture(&self) -> Option<Arc<Mutex<Texture>>> {
        self.texture
    }

    /// The image that `build` would add now.
    pub open spec fn spec_image(&self) -> Image {
        Image { widget: self.spec_widget(), texture: self.spec_texture() }
    }

    /// Starts an image without a texture on the given widget configuration.
    pub fn new(widget_builder: WidgetBuilder) -> (builder: Self)
        ensures
            builder.spec_widget() == widget_builder.spec_widget(),
            builder.spec_texture() is None,
    {
        Self { widget_builder, texture: None }
    }

    pub fn with_texture(self, texture: Arc<Mutex<Texture>>) -> (builder: Self)
        ensures
            builder.spec_widget() == self.spec_widget(),
            builder.spec_texture() == Some(texture),
    {
        Self { widget_builder: self.widget_builder, texture: Some(texture) }
    }

    pub fn with_opt_texture(self, texture: Option<Arc<Mutex<Texture>>>) -> (builder: Self)
        ensures
            builder.spec_widget() == self.spec_widget(),
            builder.spec_texture() == texture,
    {
        Self { widget_builder: self.widget_builder, texture }
    }

    /// Builds the image and adds it to the interface; returns its handle.
    /// Where the interface adopts every child the builder names, the node
    /// stored under the handle is the image exactly as it was built.
    pub fn build(self, ui: &mut UserInterface) -> (handle: Handle<UINode>)
        requires
            old(ui).wf(),
        ensures
            final(ui).wf(),
            final(ui).added(*old(ui), UINode::Image(self.spec_image()), handle),
            final(ui).nodes().contains_key(handle),
            adopted_children(
                old(ui).nodes(),
                self.spec_widget().children@,
                self.spec_widget().children@.len(),
            ).len() == self.spec_widget().children@.len() ==> final(ui).nodes()[handle]
                == UINode::Image(self.spec_image()),
    {
        let image = UINode::Image(
            Image { widget: self.widget_builder.build(), texture: self.texture },
        );

        ui.add_node(image)
    }
}

} // verus!
