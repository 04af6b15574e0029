use uicore::gui::image::ImageBuilder;
use uicore::gui::node::UINode;
use uicore::gui::widget::Alignment;
use uicore::gui::widget::AsWidget;
use uicore::gui::widget::Widget;
use uicore::gui::widget::WidgetBuilder;
use uicore::gui::Layout;
use uicore::gui::UserInterface;
use uicore::math::Rect;
use uicore::math::Thickness;
use uicore::math::Vec2;
use uicore::pool::Handle;

fn widget(ui: &UserInterface, h: Handle<UINode>) -> &Widget {
    ui.node(h).unwrap().widget()
}

fn leaf(ui: &mut UserInterface, min: Vec2) -> Handle<UINode> {
    ImageBuilder::new(WidgetBuilder::new().with_min_size(min)).build(ui)
}

struct Tree {
    ui: UserInterface,
    root: Handle<UINode>,
    a: Handle<UINode>,
    b: Handle<UINode>,
}

fn sample_tree() -> Tree {
    let mut ui = UserInterface::new();
    let a = ImageBuilder::new(
        WidgetBuilder::new()
            .with_min_size(Vec2::new(30, 20))
            .with_margin(Thickness::uniform(5))
            .with_horizontal_alignment(Alignment::Start)
            .with_vertical_alignment(Alignment::Start),
    )
    .build(&mut ui);
    let b = ImageBuilder::new(
        WidgetBuilder::new()
            .with_min_size(Vec2::new(60, 10))
            .with_horizontal_alignment(Alignment::End)
            .with_vertical_alignment(Alignment::Center),
    )
    .build(&mut ui);
    let root = ImageBuilder::new(WidgetBuilder::new().with_child(a).with_child(b)).build(&mut ui);
    ui.set_root(Some(root));
    Tree { ui, root, a, b }
}

#[test]
fn childless_node_measures_to_its_minimum_when_that_is_smaller() {
    let mut ui = UserInterface::new();
    let h = leaf(&mut ui, Vec2::new(30, 20));
    let desired = ui.node(h).unwrap().measure_override(&ui, Vec2::new(100, 50));
    assert_eq!(desired, Vec2::new(30, 20));
    assert!(desired.x <= 100 && desired.y <= 50);
}

#[test]
fn childless_node_never_asks_for_more_than_is_available() {
    let mut ui = UserInterface::new();
    let h = leaf(&mut ui, Vec2::new(300, 20));
    assert_eq!(ui.node(h).unwrap().measure_override(&ui, Vec2::new(100, 50)), Vec2::new(100, 20));
    let g = leaf(&mut ui, Vec2::new(300, 200));
    assert_eq!(ui.node(g).unwrap().measure_override(&ui, Vec2::new(100, 50)), Vec2::new(100, 50));
    assert_eq!(ui.measure(g, Vec2::new(100, 50)), Vec2::new(100, 50));
}

#[test]
fn nothing_available_measures_to_zero() {
    let mut ui = UserInterface::new();
    let h = leaf(&mut ui, Vec2::new(30, 20));
    assert_eq!(ui.node(h).unwrap().measure_override(&ui, Vec2::new(0, 0)), Vec2::zero());
    assert_eq!(ui.node(h).unwrap().measure_override(&ui, Vec2::new(-5, 50)), Vec2::new(0, 20));
    assert_eq!(ui.node(h).unwrap().measure_override(&ui, Vec2::new(100, -1)), Vec2::new(30, 0));
    assert_eq!(ui.measure(h, Vec2::new(0, 0)), Vec2::zero());
    assert_eq!(ui.measure(h, Vec2::new(-5, 50)), Vec2::new(0, 20));
    assert_eq!(ui.measure(h, Vec2::new(i32::MIN, i32::MIN)), Vec2::zero());
}

#[test]
fn negative_available_with_margin_measures_to_zero() {
    let mut ui = UserInterface::new();
    let h = ImageBuilder::new(
        WidgetBuilder::new().with_min_size(Vec2::new(30, 20)).with_margin(Thickness::uniform(8)),
    )
    .build(&mut ui);
    assert_eq!(ui.measure(h, Vec2::new(-100, 0)), Vec2::zero());
    assert_eq!(ui.measure(h, Vec2::new(10, 100)), Vec2::new(10, 36));
}

#[test]
fn huge_available_size_is_taken_as_it_is() {
    let mut ui = UserInterface::new();
    let h = ImageBuilder::new(
        WidgetBuilder::new()
            .with_min_size(Vec2::new(i32::MAX, 20))
            .with_margin(Thickness::uniform(i32::MAX)),
    )
    .build(&mut ui);
    assert_eq!(ui.measure(h, Vec2::new(i32::MAX, i32::MAX)), Vec2::new(i32::MAX, i32::MAX));
}

#[test]
fn measure_adds_the_margin_and_caches_the_result() {
    let mut t = sample_tree();
    assert_eq!(t.ui.measure(t.root, Vec2::new(100, 50)), Vec2::new(60, 30));
    assert_eq!(widget(&t.ui, t.a).desired_size, Vec2::new(40, 30));
    assert_eq!(widget(&t.ui, t.b).desired_size, Vec2::new(60, 10));
    assert_eq!(widget(&t.ui, t.root).desired_size, Vec2::new(60, 30));
    assert_eq!(widget(&t.ui, t.a).last_available, Vec2::new(100, 50));
    assert!(!widget(&t.ui, t.a).dirty);
    assert!(!widget(&t.ui, t.root).dirty);
}

#[test]
fn measure_of_a_missing_node_is_zero() {
    let mut ui = UserInterface::new();
    let h = leaf(&mut ui, Vec2::new(30, 20));
    ui.remove_node(h);
    assert_eq!(ui.measure(h, Vec2::new(100, 50)), Vec2::zero());
    ui.arrange(h, &Rect::new(0, 0, 100, 50));
    assert!(ui.node(h).is_none());
}

#[test]
fn arrange_places_children_by_margin_and_alignment() {
    let mut t = sample_tree();
    t.ui.update_layout(Vec2::new(100, 50));
    assert_eq!(widget(&t.ui, t.root).screen_bounds, Rect::new(0, 0, 100, 50));
    assert_eq!(widget(&t.ui, t.a).screen_bounds, Rect::new(5, 5, 30, 20));
    assert_eq!(widget(&t.ui, t.b).screen_bounds, Rect::new(40, 20, 60, 10));
    assert_eq!(widget(&t.ui, t.a).get_screen_bounds(), Rect::new(5, 5, 30, 20));
    assert!(!t.ui.needs_layout());
}

#[test]
fn stretch_fills_the_slot_inside_the_margin() {
    let mut ui = UserInterface::new();
    let h = ImageBuilder::new(
        WidgetBuilder::new().with_min_size(Vec2::new(1, 1)).with_margin(Thickness::new(1, 2, 3, 4)),
    )
    .build(&mut ui);
    ui.set_root(Some(h));
    ui.update_layout(Vec2::new(100, 50));
    assert_eq!(widget(&ui, h).screen_bounds, Rect::new(1, 2, 96, 44));
}

#[test]
fn center_rounds_the_offset_down() {
    let mut ui = UserInterface::new();
    let h = ImageBuilder::new(
        WidgetBuilder::new()
            .with_min_size(Vec2::new(10, 10))
            .with_horizontal_alignment(Alignment::Center)
            .with_vertical_alignment(Alignment::End),
    )
    .build(&mut ui);
    ui.set_root(Some(h));
    ui.update_layout(Vec2::new(25, 40));
    assert_eq!(widget(&ui, h).screen_bounds, Rect::new(7, 30, 10, 10));
}

#[test]
fn grandchildren_are_placed_inside_their_parent() {
    let mut ui = UserInterface::new();
    let leaf = ImageBuilder::new(
        WidgetBuilder::new()
            .with_min_size(Vec2::new(4, 4))
            .with_horizontal_alignment(Alignment::End)
            .with_vertical_alignment(Alignment::End),
    )
    .build(&mut ui);
    let mid = ImageBuilder::new(
        WidgetBuilder::new().with_margin(Thickness::uniform(10)).with_child(leaf),
    )
    .build(&mut ui);
    let root = ImageBuilder::new(WidgetBuilder::new().with_child(mid)).build(&mut ui);
    ui.set_root(Some(root));
    ui.update_layout(Vec2::new(100, 60));
    assert_eq!(widget(&ui, mid).screen_bounds, Rect::new(10, 10, 80, 40));
    assert_eq!(widget(&ui, leaf).screen_bounds, Rect::new(86, 46, 4, 4));
    assert_eq!(widget(&ui, mid).desired_size, Vec2::new(24, 24));
}

#[test]
fn layout_twice_with_the_same_input_gives_the_same_bounds() {
    let mut t = sample_tree();
    t.ui.update_layout(Vec2::new(100, 50));
    let first = [
        widget(&t.ui, t.root).screen_bounds,
        widget(&t.ui, t.a).screen_bounds,
        widget(&t.ui, t.b).screen_bounds,
    ];
    t.ui.update_layout(Vec2::new(100, 50));
    t.ui.measure(t.root, Vec2::new(100, 50));
    t.ui.arrange(t.root, &Rect::new(0, 0, 100, 50));
    t.ui.invalidate_layout(t.a);
    t.ui.invalidate_layout(t.b);
    t.ui.update_layout(Vec2::new(100, 50));
    let second = [
        widget(&t.ui, t.root).screen_bounds,
        widget(&t.ui, t.a).screen_bounds,
        widget(&t.ui, t.b).screen_bounds,
    ];
    assert_eq!(first, second);
}

#[test]
fn layout_follows_a_change_of_size() {
    let mut t = sample_tree();
    t.ui.update_layout(Vec2::new(100, 50));
    t.ui.update_layout(Vec2::new(200, 80));
    assert_eq!(widget(&t.ui, t.root).screen_bounds, Rect::new(0, 0, 200, 80));
    assert_eq!(widget(&t.ui, t.b).screen_bounds, Rect::new(140, 35, 60, 10));
}

#[test]
fn layout_without_a_root_changes_nothing() {
    let mut ui = UserInterface::new();
    let h = leaf(&mut ui, Vec2::new(30, 20));
    ui.update_layout(Vec2::new(100, 50));
    assert!(ui.needs_layout());
    assert!(widget(&ui, h).dirty);
    assert_eq!(widget(&ui, h).screen_bounds, Rect::new(0, 0, 0, 0));
}

#[test]
fn invisible_node_collapses_and_hides_its_subtree_from_layout() {
    let mut ui = UserInterface::new();
    let inner = leaf(&mut ui, Vec2::new(30, 20));
    let hidden = ImageBuilder::new(
        WidgetBuilder::new().with_min_size(Vec2::new(50, 50)).with_visibility(false).with_child(inner),
    )
    .build(&mut ui);
    let root = ImageBuilder::new(WidgetBuilder::new().with_child(hidden)).build(&mut ui);
    ui.set_root(Some(root));
    ui.update_layout(Vec2::new(100, 50));
    assert_eq!(widget(&ui, hidden).desired_size, Vec2::zero());
    assert_eq!(widget(&ui, hidden).screen_bounds, Rect::new(0, 0, 0, 0));
    assert_eq!(widget(&ui, root).desired_size, Vec2::zero());
    assert!(widget(&ui, inner).dirty);
}

#[test]
fn removed_child_is_skipped_by_layout() {
    let mut t = sample_tree();
    t.ui.update_layout(Vec2::new(100, 50));
    assert!(t.ui.remove_node(t.b).is_some());
    assert!(t.ui.needs_layout());
    assert!(widget(&t.ui, t.root).dirty);
    t.ui.update_layout(Vec2::new(100, 50));
    assert_eq!(widget(&t.ui, t.root).desired_size, Vec2::new(40, 30));
    assert_eq!(widget(&t.ui, t.a).screen_bounds, Rect::new(5, 5, 30, 20));
    assert_eq!(widget(&t.ui, t.root).children.len(), 2);
}

#[test]
fn invalidation_marks_the_chain_of_parents() {
    let mut ui = UserInterface::new();
    let leaf_a = leaf(&mut ui, Vec2::new(1, 1));
    let leaf_b = leaf(&mut ui, Vec2::new(1, 1));
    let mid = ImageBuilder::new(WidgetBuilder::new().with_child(leaf_a)).build(&mut ui);
    let root =
        ImageBuilder::new(WidgetBuilder::new().with_child(mid).with_child(leaf_b)).build(&mut ui);
    ui.set_root(Some(root));
    ui.update_layout(Vec2::new(10, 10));
    assert!(!ui.needs_layout());
    ui.invalidate_layout(leaf_a);
    assert!(ui.needs_layout());
    assert!(widget(&ui, leaf_a).dirty);
    assert!(widget(&ui, mid).dirty);
    assert!(widget(&ui, root).dirty);
    assert!(!widget(&ui, leaf_b).dirty);
    ui.update_layout(Vec2::new(10, 10));
    assert!(!widget(&ui, root).dirty && !widget(&ui, mid).dirty && !widget(&ui, leaf_a).dirty);
}

#[test]
fn invalidating_a_missing_node_does_nothing() {
    let mut t = sample_tree();
    t.ui.update_layout(Vec2::new(100, 50));
    let gone = t.ui.remove_node(t.a);
    assert!(gone.is_some());
    t.ui.update_layout(Vec2::new(100, 50));
    t.ui.invalidate_layout(t.a);
    assert!(!t.ui.needs_layout());
    assert!(!widget(&t.ui, t.root).dirty);
}

#[test]
fn clean_subtree_is_not_measured_again() {
    let mut t = sample_tree();
    t.ui.update_layout(Vec2::new(100, 50));
    t.ui.invalidate_layout(t.a);
    t.ui.measure(t.root, Vec2::new(100, 50));
    assert!(!widget(&t.ui, t.a).dirty);
    assert!(!widget(&t.ui, t.b).dirty);
    assert_eq!(widget(&t.ui, t.b).desired_size, Vec2::new(60, 10));
}

#[test]
fn arrange_override_never_takes_a_negative_size() {
    let mut ui = UserInterface::new();
    let h = leaf(&mut ui, Vec2::new(30, 20));
    let node = ui.node(h).unwrap();
    assert_eq!(node.arrange_override(&ui, Vec2::new(40, 25)), Vec2::new(40, 25));
    assert_eq!(node.arrange_override(&ui, Vec2::new(-3, 4)), Vec2::new(0, 4));
    assert_eq!(node.arrange_override(&ui, Vec2::new(7, i32::MIN)), Vec2::new(7, 0));
    assert_eq!(node.arrange_override(&ui, Vec2::new(0, 0)), Vec2::zero());
    assert_eq!(node.widget().arrange_override(&ui, Vec2::new(-1, -1)), Vec2::zero());
}

#[test]
fn arrange_into_a_negative_rectangle_gives_empty_bounds() {
    let mut ui = UserInterface::new();
    let h = leaf(&mut ui, Vec2::new(30, 20));
    ui.measure(h, Vec2::new(-10, -10));
    ui.arrange(h, &Rect::new(3, 4, -10, -20));
    assert_eq!(widget(&ui, h).screen_bounds, Rect::new(3, 4, 0, 0));
}
