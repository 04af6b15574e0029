use std::sync::Arc;
use std::sync::Mutex;
use uicore::gui::draw::Color;
use uicore::gui::draw::CommandKind;
use uicore::gui::draw::CommandTexture;
use uicore::gui::draw::DrawingContext;
use uicore::gui::image::Image;
use uicore::gui::image::ImageBuilder;
use uicore::gui::node::UINode;
use uicore::gui::widget::AsWidget;
use uicore::gui::widget::WidgetBuilder;
use uicore::gui::Draw;
use uicore::gui::Update;
use uicore::gui::UserInterface;
use uicore::math::Rect;
use uicore::math::Vec2;
use uicore::pool::Handle;
use uicore::texture::Texture;

fn texture() -> Arc<Mutex<Texture>> {
    Arc::new(Mutex::new(Texture::new(2, 2, vec![0; 16])))
}

fn colored(ui: &mut UserInterface, red: u8, children: &[Handle<UINode>]) -> Handle<UINode> {
    let mut builder = WidgetBuilder::new().with_color(Color::opaque(red, 0, 0));
    for child in children {
        builder = builder.with_child(*child);
    }
    ImageBuilder::new(builder).build(ui)
}

fn reds(ctx: &DrawingContext) -> Vec<u8> {
    ctx.commands().iter().map(|c| c.vertices[0].color.r).collect()
}

#[test]
fn new_interface_is_empty() {
    let ui = UserInterface::new();
    assert!(ui.root().is_none());
    assert!(ui.needs_layout());
    assert!(ui.drawing_context().commands().is_empty());
}

#[test]
fn add_node_returns_a_handle_that_resolves() {
    let mut ui = UserInterface::new();
    let h = ImageBuilder::new(WidgetBuilder::new().with_min_size(Vec2::new(3, 4))).build(&mut ui);
    let node = ui.node(h).unwrap();
    assert_eq!(node.widget().min_size, Vec2::new(3, 4));
    assert!(node.widget().parent.is_none());
    assert!(node.widget().dirty);
    assert!(ui.needs_layout());
}

#[test]
fn added_node_adopts_its_children() {
    let mut ui = UserInterface::new();
    let b = colored(&mut ui, 1, &[]);
    let c = colored(&mut ui, 2, &[]);
    let a = colored(&mut ui, 0, &[b, c]);
    assert!(ui.node(b).unwrap().widget().parent == Some(a));
    assert!(ui.node(c).unwrap().widget().parent == Some(a));
    assert_eq!(ui.node(a).unwrap().widget().children(), &vec![b, c]);
}

#[test]
fn children_that_do_not_resolve_are_dropped_on_add() {
    let mut ui = UserInterface::new();
    let gone = colored(&mut ui, 1, &[]);
    let kept = colored(&mut ui, 2, &[]);
    ui.remove_node(gone);
    let parent = colored(&mut ui, 0, &[gone, kept, gone]);
    assert_eq!(ui.node(parent).unwrap().widget().children(), &vec![kept]);
}

#[test]
fn node_cannot_become_its_own_descendant_through_slot_reuse() {
    let mut ui = UserInterface::new();
    let first = colored(&mut ui, 1, &[]);
    ui.remove_node(first);
    let second = colored(&mut ui, 2, &[first]);
    assert_eq!(second.index(), first.index());
    assert!(ui.node(second).unwrap().widget().children().is_empty());
    ui.set_root(Some(second));
    ui.update_layout(Vec2::new(10, 10));
    assert_eq!(ui.draw().commands().len(), 1);
}

#[test]
fn add_node_resets_parent_and_layout_state() {
    let mut ui = UserInterface::new();
    let mut widget = WidgetBuilder::new().build();
    widget.dirty = false;
    widget.desired_size = Vec2::new(1000, 1000);
    widget.parent = Some(colored(&mut ui, 9, &[]));
    let h = ui.add_node(UINode::Image(Image { widget, texture: None }));
    assert!(ui.node(h).unwrap().widget().dirty);
    assert!(ui.node(h).unwrap().widget().parent.is_none());
    assert_eq!(ui.measure(h, Vec2::new(10, 10)), Vec2::zero());
}

#[test]
fn removed_node_is_absent_even_when_its_slot_is_reused() {
    let mut ui = UserInterface::new();
    let old = ImageBuilder::new(WidgetBuilder::new().with_min_size(Vec2::new(1, 1))).build(&mut ui);
    let removed = ui.remove_node(old);
    assert_eq!(removed.unwrap().widget().min_size, Vec2::new(1, 1));
    assert!(ui.node(old).is_none());
    let new = ImageBuilder::new(WidgetBuilder::new().with_min_size(Vec2::new(2, 2))).build(&mut ui);
    assert_eq!(new.index(), old.index());
    assert!(ui.node(old).is_none());
    assert_eq!(ui.node(new).unwrap().widget().min_size, Vec2::new(2, 2));
    assert!(ui.remove_node(old).is_none());
    assert!(ui.node(new).is_some());
}

#[test]
fn parent_drawn_before_children_in_child_order() {
    let mut ui = UserInterface::new();
    let b = colored(&mut ui, 20, &[]);
    let c = colored(&mut ui, 30, &[]);
    let a = colored(&mut ui, 10, &[b, c]);
    ui.set_root(Some(a));
    ui.update_layout(Vec2::new(100, 100));
    assert_eq!(reds(ui.draw()), vec![10, 20, 30]);
}

#[test]
fn draw_order_ignores_textures() {
    let mut ui = UserInterface::new();
    let shared = texture();
    let b = ImageBuilder::new(WidgetBuilder::new().with_color(Color::opaque(20, 0, 0)))
        .with_texture(shared.clone())
        .build(&mut ui);
    let c = colored(&mut ui, 30, &[]);
    let d = ImageBuilder::new(WidgetBuilder::new().with_color(Color::opaque(40, 0, 0)))
        .with_texture(shared.clone())
        .build(&mut ui);
    let a = colored(&mut ui, 10, &[b, c, d]);
    ui.set_root(Some(a));
    ui.update_layout(Vec2::new(100, 100));
    let ctx = ui.draw();
    assert_eq!(reds(ctx), vec![10, 20, 30, 40]);
    assert!(matches!(ctx.commands()[1].texture, CommandTexture::Texture(_)));
    assert!(matches!(ctx.commands()[2].texture, CommandTexture::NoTexture));
    assert!(matches!(ctx.commands()[3].texture, CommandTexture::Texture(_)));
}

#[test]
fn subtrees_are_drawn_depth_first() {
    let mut ui = UserInterface::new();
    let b1 = colored(&mut ui, 21, &[]);
    let b2 = colored(&mut ui, 22, &[]);
    let b = colored(&mut ui, 20, &[b1, b2]);
    let c = colored(&mut ui, 30, &[]);
    let a = colored(&mut ui, 10, &[b, c]);
    ui.set_root(Some(a));
    ui.update_layout(Vec2::new(100, 100));
    assert_eq!(reds(ui.draw()), vec![10, 20, 21, 22, 30]);
}

#[test]
fn draw_uses_the_bounds_of_the_layout() {
    let mut ui = UserInterface::new();
    let a = colored(&mut ui, 10, &[]);
    ui.set_root(Some(a));
    ui.update_layout(Vec2::new(64, 32));
    let ctx = ui.draw();
    let command = &ctx.commands()[0];
    assert_eq!(command.kind, CommandKind::Geometry);
    let corners: Vec<Vec2> = command.vertices.iter().map(|v| v.pos).collect();
    assert_eq!(corners, vec![Vec2::new(0, 0), Vec2::new(64, 0), Vec2::new(64, 32), Vec2::new(0, 32)]);
    assert_eq!(command.indices, vec![0, 1, 2, 0, 2, 3]);
    assert!(ctx.is_flushed());
}

#[test]
fn every_frame_starts_from_an_empty_command_list() {
    let mut ui = UserInterface::new();
    let b = colored(&mut ui, 20, &[]);
    let a = colored(&mut ui, 10, &[b]);
    ui.set_root(Some(a));
    ui.update_layout(Vec2::new(10, 10));
    assert_eq!(ui.draw().commands().len(), 2);
    assert_eq!(ui.draw().commands().len(), 2);
    assert_eq!(ui.drawing_context().commands().len(), 2);
}

#[test]
fn draw_without_a_root_gives_no_commands() {
    let mut ui = UserInterface::new();
    colored(&mut ui, 10, &[]);
    assert!(ui.draw().commands().is_empty());
}

#[test]
fn invisible_subtree_is_not_drawn() {
    let mut ui = UserInterface::new();
    let inner = colored(&mut ui, 21, &[]);
    let hidden = ImageBuilder::new(
        WidgetBuilder::new().with_color(Color::opaque(20, 0, 0)).with_visibility(false).with_child(inner),
    )
    .build(&mut ui);
    let c = colored(&mut ui, 30, &[]);
    let a = colored(&mut ui, 10, &[hidden, c]);
    ui.set_root(Some(a));
    ui.update_layout(Vec2::new(10, 10));
    assert_eq!(reds(ui.draw()), vec![10, 30]);
}

#[test]
fn removed_child_is_not_drawn() {
    let mut ui = UserInterface::new();
    let b = colored(&mut ui, 20, &[]);
    let c = colored(&mut ui, 30, &[]);
    let a = colored(&mut ui, 10, &[b, c]);
    ui.set_root(Some(a));
    ui.remove_node(b);
    let replacement = colored(&mut ui, 99, &[]);
    assert_eq!(replacement.index(), b.index());
    ui.update_layout(Vec2::new(10, 10));
    assert_eq!(reds(ui.draw()), vec![10, 30]);
}

#[test]
fn removed_root_draws_nothing() {
    let mut ui = UserInterface::new();
    let a = colored(&mut ui, 10, &[]);
    ui.set_root(Some(a));
    ui.remove_node(a);
    ui.update_layout(Vec2::new(10, 10));
    assert!(ui.draw().commands().is_empty());
    assert!(ui.root() == Some(a));
}

#[test]
fn image_draws_one_command_with_its_texture() {
    let shared = texture();
    let mut widget = WidgetBuilder::new().with_color(Color::opaque(7, 8, 9)).build();
    widget.screen_bounds = Rect::new(1, 2, 3, 4);
    let mut image = Image { widget, texture: Some(shared.clone()) };
    let mut ctx = DrawingContext::new();
    image.draw(&mut ctx);
    assert_eq!(ctx.commands().len(), 1);
    assert!(ctx.is_flushed());
    let command = &ctx.commands()[0];
    assert_eq!(command.kind, CommandKind::Geometry);
    match &command.texture {
        CommandTexture::Texture(t) => assert!(Arc::ptr_eq(t, &shared)),
        CommandTexture::NoTexture => panic!("the command lost the texture"),
    }
    assert_eq!(Arc::strong_count(&shared), 3);
    assert_eq!(command.vertices[0].pos, Vec2::new(1, 2));
    assert_eq!(command.vertices[2].pos, Vec2::new(4, 6));
    assert_eq!(command.vertices[1].color, Color::opaque(7, 8, 9));
    assert_eq!(image.widget.screen_bounds, Rect::new(1, 2, 3, 4));
}

#[test]
fn image_without_texture_draws_an_untextured_command() {
    let mut image = Image { widget: WidgetBuilder::new().build(), texture: None };
    let mut ctx = DrawingContext::new();
    image.draw(&mut ctx);
    image.draw(&mut ctx);
    assert_eq!(ctx.commands().len(), 2);
    assert!(matches!(ctx.commands()[0].texture, CommandTexture::NoTexture));
    assert_eq!(ctx.commands()[1].indices, vec![0, 1, 2, 0, 2, 3]);
}

#[test]
fn builder_passes_the_texture_on() {
    let shared = texture();
    let mut ui = UserInterface::new();
    let with = ImageBuilder::new(WidgetBuilder::new()).with_texture(shared.clone()).build(&mut ui);
    let without = ImageBuilder::new(WidgetBuilder::new()).build(&mut ui);
    let cleared = ImageBuilder::new(WidgetBuilder::new())
        .with_texture(shared.clone())
        .with_opt_texture(None)
        .build(&mut ui);
    let optional =
        ImageBuilder::new(WidgetBuilder::new()).with_opt_texture(Some(shared.clone())).build(&mut ui);
    let texture_of = |h: Handle<UINode>| match ui.node(h).unwrap() {
        UINode::Image(image) => image.texture.clone(),
    };
    assert!(Arc::ptr_eq(&texture_of(with).unwrap(), &shared));
    assert!(texture_of(without).is_none());
    assert!(texture_of(cleared).is_none());
    assert!(Arc::ptr_eq(&texture_of(optional).unwrap(), &shared));
}

#[test]
fn update_leaves_images_as_they_are() {
    let mut ui = UserInterface::new();
    let b = colored(&mut ui, 20, &[]);
    let a = colored(&mut ui, 10, &[b]);
    ui.set_root(Some(a));
    ui.update_layout(Vec2::new(10, 10));
    ui.update(16);
    assert_eq!(ui.node(a).unwrap().widget().screen_bounds, Rect::new(0, 0, 10, 10));
    assert!(ui.node(b).unwrap().widget().parent == Some(a));
    assert!(!ui.needs_layout());
    let mut image = Image { widget: WidgetBuilder::new().build(), texture: None };
    image.update(1000);
    assert_eq!(image.widget.color(), Color::white());
}

#[test]
fn widget_builder_defaults_and_setters() {
    let w = WidgetBuilder::new().build();
    assert_eq!(w.color, Color::white());
    assert_eq!(w.min_size, Vec2::zero());
    assert!(w.visible && w.enabled && w.dirty);
    assert!(w.parent.is_none() && w.children.is_empty());
    assert_eq!(w.desired_size(), Vec2::zero());
    let w = WidgetBuilder::new().with_enabled(false).with_visibility(false).build();
    assert!(!w.visible && !w.enabled);
}

#[test]
fn frame_updates_lays_out_and_draws() {
    let mut ui = UserInterface::new();
    let b = colored(&mut ui, 20, &[]);
    let a = colored(&mut ui, 10, &[b]);
    ui.set_root(Some(a));
    let commands = ui.frame(16, Vec2::new(40, 30)).commands().len();
    assert_eq!(commands, 2);
    assert!(!ui.needs_layout());
    assert_eq!(ui.node(b).unwrap().widget().screen_bounds, Rect::new(0, 0, 40, 30));
    let corner = ui.frame(16, Vec2::new(80, 60)).commands()[1].vertices[2].pos;
    assert_eq!(corner, Vec2::new(80, 60));
}

#[test]
fn new_node_takes_the_slot_released_last() {
    let mut ui = UserInterface::new();
    let a = colored(&mut ui, 1, &[]);
    let b = colored(&mut ui, 2, &[]);
    let c = colored(&mut ui, 3, &[]);
    ui.remove_node(a);
    ui.remove_node(c);
    let d = colored(&mut ui, 4, &[]);
    let e = colored(&mut ui, 5, &[]);
    let f = colored(&mut ui, 6, &[]);
    assert_eq!((d.index(), d.generation()), (c.index(), c.generation() + 1));
    assert_eq!((e.index(), e.generation()), (a.index(), a.generation() + 1));
    assert_eq!((f.index(), f.generation()), (3, 1));
    assert!(ui.node(b).is_some());
}

#[test]
fn child_with_a_live_parent_is_not_adopted_again() {
    let mut ui = UserInterface::new();
    let c = colored(&mut ui, 30, &[]);
    let first = colored(&mut ui, 10, &[c]);
    let second = colored(&mut ui, 20, &[c]);
    assert_eq!(ui.node(first).unwrap().widget().children(), &vec![c]);
    assert!(ui.node(second).unwrap().widget().children().is_empty());
    assert!(ui.node(c).unwrap().widget().parent == Some(first));
}

#[test]
fn child_named_twice_is_adopted_once() {
    let mut ui = UserInterface::new();
    let b = colored(&mut ui, 20, &[]);
    let c = colored(&mut ui, 30, &[]);
    let a = colored(&mut ui, 10, &[b, c, b, c, b]);
    assert_eq!(ui.node(a).unwrap().widget().children(), &vec![b, c]);
    ui.set_root(Some(a));
    ui.update_layout(Vec2::new(10, 10));
    assert_eq!(reds(ui.draw()), vec![10, 20, 30]);
}

#[test]
fn child_of_a_removed_parent_can_be_adopted() {
    let mut ui = UserInterface::new();
    let c = colored(&mut ui, 30, &[]);
    let first = colored(&mut ui, 10, &[c]);
    ui.remove_node(first);
    let second = colored(&mut ui, 20, &[c]);
    assert_eq!(ui.node(second).unwrap().widget().children(), &vec![c]);
    assert!(ui.node(c).unwrap().widget().parent == Some(second));
}

#[test]
fn removing_a_child_marks_its_one_parent_for_a_new_measure() {
    let mut ui = UserInterface::new();
    let c = ImageBuilder::new(WidgetBuilder::new().with_min_size(Vec2::new(5, 5))).build(&mut ui);
    let first = colored(&mut ui, 10, &[c]);
    let second = colored(&mut ui, 20, &[c]);
    let root = colored(&mut ui, 0, &[first, second]);
    ui.set_root(Some(root));
    ui.update_layout(Vec2::new(10, 10));
    assert_eq!(ui.node(first).unwrap().widget().desired_size, Vec2::new(5, 5));
    assert_eq!(ui.node(second).unwrap().widget().desired_size, Vec2::zero());
    ui.remove_node(c);
    assert!(ui.node(first).unwrap().widget().dirty);
    assert!(ui.node(root).unwrap().widget().dirty);
    ui.update_layout(Vec2::new(10, 10));
    assert_eq!(ui.node(first).unwrap().widget().desired_size, Vec2::zero());
    assert_eq!(ui.node(root).unwrap().widget().desired_size, Vec2::zero());
}

#[test]
fn stored_node_is_the_image_as_built() {
    let shared = texture();
    let mut ui = UserInterface::new();
    let b = colored(&mut ui, 20, &[]);
    let h = ImageBuilder::new(
        WidgetBuilder::new()
            .with_color(Color::opaque(1, 2, 3))
            .with_min_size(Vec2::new(4, 5))
            .with_child(b),
    )
    .with_texture(shared.clone())
    .build(&mut ui);
    let UINode::Image(image) = ui.node(h).unwrap();
    assert!(Arc::ptr_eq(image.texture.as_ref().unwrap(), &shared));
    assert_eq!(image.widget.color, Color::opaque(1, 2, 3));
    assert_eq!(image.widget.min_size, Vec2::new(4, 5));
    assert_eq!(image.widget.children, vec![b]);
    assert!(image.widget.parent.is_none() && image.widget.dirty);
    assert!(image.widget.visible && image.widget.enabled);
}

#[test]
fn image_takes_pending_geometry_into_its_command() {
    let mut widget = WidgetBuilder::new().with_color(Color::opaque(9, 0, 0)).build();
    widget.screen_bounds = Rect::new(10, 10, 5, 5);
    let mut image = Image { widget, texture: None };
    let mut ctx = DrawingContext::new();
    ctx.push_rect_filled(&Rect::new(0, 0, 1, 1), None, Color::opaque(1, 0, 0));
    ctx.push_rect_filled(&Rect::new(2, 2, 1, 1), None, Color::opaque(2, 0, 0));
    image.draw(&mut ctx);
    assert_eq!(ctx.commands().len(), 1);
    assert!(ctx.is_flushed());
    let command = &ctx.commands()[0];
    assert!(matches!(command.texture, CommandTexture::NoTexture));
    assert_eq!(command.vertices.len(), 12);
    let reds: Vec<u8> = command.vertices.iter().map(|v| v.color.r).collect();
    assert_eq!(reds, vec![1, 1, 1, 1, 2, 2, 2, 2, 9, 9, 9, 9]);
    assert_eq!(command.vertices[8].pos, Vec2::new(10, 10));
    assert_eq!(command.indices[12..].to_vec(), vec![8, 9, 10, 8, 10, 11]);
}

#[test]
fn equal_contexts_give_equal_commands() {
    let mut image = Image { widget: WidgetBuilder::new().build(), texture: Some(texture()) };
    let mut first = DrawingContext::new();
    let mut second = DrawingContext::new();
    first.push_rect_filled(&Rect::new(0, 0, 1, 1), None, Color::white());
    second.push_rect_filled(&Rect::new(0, 0, 1, 1), None, Color::white());
    image.draw(&mut first);
    image.draw(&mut first);
    image.draw(&mut second);
    assert_eq!(first.commands()[0].vertices, second.commands()[0].vertices);
    assert_eq!(first.commands()[0].indices, second.commands()[0].indices);
    assert_eq!(first.commands()[1].vertices.len(), 4);
}
