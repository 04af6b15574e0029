//! State common to every node: colour, layout configuration, links to the
//! parent and the children, and what the last layout pass left behind.

use crate::gui::draw::Color;
use crate::gui::node::UINode;
use crate::gui::UserInterface;
use crate::math::clamp;
use crate::math::saturate;
use crate::math::saturating;
use crate::math::Rect;
use crate::math::Thickness;
use crate::math::Vec2;
use crate::pool::Handle;
use vstd::prelude::*;

verus! {

/// How a node uses the room it is given along one axis.
#[derive(Clone, Copy, PartialEq, Eq, Structural, Debug)]
pub enum Alignment {
    /// Fill the room.
    Stretch,
    /// Desired extent, at the left or top end.
    Start,
    /// Desired extent, in the middle.
    Center,
    /// Desired extent, at the right or bottom end.
    End,
}

/// Extent a node takes along one axis, given the extent its content asks
/// for and the room (at least 0) it has.
pub open spec fn aligned_extent(alignment: Alignment, content: int, room: int) -> int {
    if alignment is Stretch {
        room
    } else {
        clamp(content, 0, room)
    }
}

/// Distance from the start of the room to the start of the node.
pub open spec fn aligned_offset(alignment: Alignment, extent: int, room: int) -> int {
    match alignment {
        Alignment::Stretch => 0,
        Alignment::Start => 0,
        Alignment::Center => (room - extent) / 2,
        Alignment::End => room - extent,
    }
}

/// Start and extent of a node along one axis of its slot.
fn align(alignment: Alignment, content: i32, start: i32, room: i32) -> (r: (i32, i32))
    requires
        room >= 0,
    ensures
        r.1 as int == aligned_extent(alignment, content as int, room as int),
        r.0 as int == saturate(start + aligned_offset(alignment, r.1 as int, room as int)),
        0 <= r.1 <= room,
{
    let extent: i32 = match alignment {
        Alignment::Stretch => room,
        _ => if content < 0 {
            0
        } else if content > room {
            room
        } else {
            content
        },
    };
    let offset: i64 = match alignment {
        Alignment::Stretch => 0,
        Alignment::Start => 0,
        Alignment::Center => (room as i64 - extent as i64) / 2,
        Alignment::End => room as i64 - extent as i64,
    };
    (saturating(start as i64 + offset), extent)
}

/// The base state of a node.
#[derive(Debug)]
pub struct Widget {
    pub color: Color,
    /// Size the node asks for when it has no larger child.
    pub min_size: Vec2,
    /// Room kept free around the node inside the space given to it.
    pub margin: Thickness,
    pub horizontal_alignment: Alignment,
    pub vertical_alignment: Alignment,
    /// A node that is not visible takes no room and is not drawn, and neither
    /// is anything below it.
    pub visible: bool,
    pub enabled: bool,
    /// Back-reference to the node that lists this one as a child.
    pub parent: Option<Handle<UINode>>,
    pub children: Vec<Handle<UINode>>,
    /// The cached desired size can no longer be trusted.
    pub dirty: bool,
    /// Available size of the last measure pass over this node.
    pub last_available: Vec2,
    /// Result of the last measure pass over this node.
    pub desired_size: Vec2,
    /// Result of the last arrange pass over this node, in surface coordinates.
    pub screen_bounds: Rect,
}

impl Widget {
    /// The widget with the results of a measure pass recorded in it.
    pub open spec fn with_measure(self, available: Vec2, desired: Vec2) -> Widget {
        Widget { dirty: false, last_available: available, desired_size: desired, ..self }
    }

    /// The widget with the result of an arrange pass recorded in it.
    pub open spec fn with_bounds(self, bounds: Rect) -> Widget {
        Widget { screen_bounds: bounds, ..self }
    }

    /// The widget with its cached desired size marked as out of date.
    pub open spec fn with_dirty(self) -> Widget {
        Widget { dirty: true, ..self }
    }

    pub open spec fn with_parent(self, parent: Option<Handle<UINode>>) -> Widget {
        Widget { parent, ..self }
    }

    /// A cached desired size respects the available size it was computed for.
    pub open spec fn cache_ok(self) -> bool {
        !self.dirty ==> self.desired_size == self.desired_size.spec_bounded_by(self.last_available)
    }

    /// `other` differs from `self` in the screen bounds at most.
    pub open spec fn same_but_bounds(self, other: Widget) -> bool {
        other == self.with_bounds(other.screen_bounds)
    }

    /// `other` differs from `self` in the results of layout at most.
    pub open spec fn same_but_layout(self, other: Widget) -> bool {
        other == (Widget {
            dirty: other.dirty,
            last_available: other.last_available,
            desired_size: other.desired_size,
            screen_bounds: other.screen_bounds,
            ..self
        })
    }

    /// What is left of `available` inside the margin.
    pub open spec fn inner_available(self, available: Vec2) -> Vec2 {
        available.spec_grown(-self.margin.spec_horizontal(), -self.margin.spec_vertical())
    }

    /// Desired size of the node, margin included, from the size its content
    /// asks for. Never more than `available`, never negative.
    pub open spec fn outer_desired(self, content: Vec2, available: Vec2) -> Vec2 {
        content.spec_grown(
            self.margin.spec_horizontal(),
            self.margin.spec_vertical(),
        ).spec_bounded_by(available)
    }

    /// Where the node goes when `final_rect` is given to it: inside the
    /// margin, as large as the alignment says, placed as it says.
    pub open spec fn placement(self, final_rect: Rect) -> Rect {
        let slot = final_rect.spec_deflate(self.margin);
        let content = self.desired_size.spec_grown(
            -self.margin.spec_horizontal(),
            -self.margin.spec_vertical(),
        );
        let w = aligned_extent(self.horizontal_alignment, content.x as int, slot.w as int);
        let h = aligned_extent(self.vertical_alignment, content.y as int, slot.h as int);
        Rect {
            x: saturate(slot.x + aligned_offset(self.horizontal_alignment, w, slot.w as int)) as i32,
            y: saturate(slot.y + aligned_offset(self.vertical_alignment, h, slot.h as int)) as i32,
            w: w as i32,
            h: h as i32,
        }
    }

    /// Bounds of a node that is not visible: no extent, at the corner of
    /// what was given to it.
    pub open spec fn collapsed(final_rect: Rect) -> Rect {
        Rect { x: final_rect.x, y: final_rect.y, w: 0, h: 0 }
    }

    /// Union of the cached desired sizes of the first `n` of `children`,
    /// counting those that resolve.
    pub open spec fn children_union(
        nodes: Map<Handle<UINode>, UINode>,
        children: Seq<Handle<UINode>>,
        n: nat,
    ) -> Vec2
        decreases n,
    {
        if n == 0 || n > children.len() {
            Vec2::spec_zero()
        } else {
            let rest = Widget::children_union(nodes, children, (n - 1) as nat);
            let c = children[n - 1];
            if nodes.contains_key(c) {
                rest.spec_union(nodes[c].spec_widget().desired_size)
            } else {
                rest
            }
        }
    }

    /// Default measure: the union of the children's desired sizes and the
    /// minimum size, limited to what is available.
    pub open spec fn spec_measure_override(
        self,
        nodes: Map<Handle<UINode>, UINode>,
        available_size: Vec2,
    ) -> Vec2 {
        Widget::children_union(nodes, self.children@, self.children@.len()).spec_union(
            self.min_size,
        ).spec_bounded_by(available_size)
    }

    /// Default arrange: the node takes all it is given; a negative extent
    /// counts as 0.
    pub open spec fn spec_arrange_override(self, final_size: Vec2) -> Vec2 {
        final_size.spec_bounded_by(final_size)
    }

    /// A widget without children asks for its minimum size, cut down to
    /// what is available and to 0 from below; so it asks for exactly its
    /// minimum size whenever that fits.
    pub proof fn lemma_childless_measures_to_minimum(
        self,
        nodes: Map<Handle<UINode>, UINode>,
        available_size: Vec2,
    )
        requires
            self.children@.len() == 0,
        ensures
            self.spec_measure_override(nodes, available_size) == self.min_size.spec_bounded_by(
                available_size,
            ),
            0 <= self.min_size.x <= available_size.x && 0 <= self.min_size.y <= available_size.y
                ==> self.spec_measure_override(nodes, available_size) == self.min_size,
    {
    }

    pub fn get_screen_bounds(&self) -> (bounds: Rect)
        ensures
            bounds == self.screen_bounds,
    {
        self.screen_bounds
    }

    pub fn color(&self) -> (color: Color)
        ensures
            color == self.color,
    {
        self.color
    }

    pub fn desired_size(&self) -> (size: Vec2)
        ensures
            size == self.desired_size,
    {
        self.desired_size
    }

    pub fn children(&self) -> (children: &Vec<Handle<UINode>>)
        ensures
            *children == self.children,
    {
        &self.children
    }

    /// See [`Widget::inner_available`].
    pub fn content_available(&self, available: Vec2) -> (inner: Vec2)
        ensures
            inner == self.inner_available(available),
    {
        available.grown(-self.margin.horizontal(), -self.margin.vertical())
    }

    /// See [`Widget::outer_desired`].
    pub fn desired_with_margin(&self, content: Vec2, available: Vec2) -> (desired: Vec2)
        ensures
            desired == self.outer_desired(content, available),
            desired == desired.spec_bounded_by(available),
    {
        content.grown(self.margin.horizontal(), self.margin.vertical()).bounded_by(available)
    }

    /// See [`Widget::placement`].
    pub fn place(&self, final_rect: &Rect) -> (placed: Rect)
        ensures
            placed == self.placement(*final_rect),
    {
        let slot = final_rect.deflate(&self.margin);
        let content = self.desired_size.grown(-self.margin.horizontal(), -self.margin.vertical());
        let (x, w) = align(self.horizontal_alignment, content.x, slot.x, slot.w);
        let (y, h) = align(self.vertical_alignment, content.y, slot.y, slot.h);
        Rect { x, y, w, h }
    }

    /// Measure pass of a plain widget: the smallest size that covers the
    /// minimum size and the desired size of every child, limited to
    /// `available_size` and to 0 from below.
    pub fn measure_override(&self, ui: &UserInterface, available_size: Vec2) -> (desired: Vec2)
        ensures
            desired == self.spec_measure_override(ui.nodes(), available_size),
            desired == desired.spec_bounded_by(available_size),
    {
        let mut size = Vec2::zero();
        let mut i: usize = 0;
        while i < self.children.len()
            invariant
                i <= self.children@.len(),
                size == Widget::children_union(ui.nodes(), self.children@, i as nat),
            decreases self.children@.len() - i,
        {
            match ui.node(self.children[i]) {
                Some(child) => {
                    size = size.union(child.widget().desired_size);
                },
                None => {},
            }
            i += 1;
        }
        size.union(self.min_size).bounded_by(available_size)
    }

    /// Arrange pass of a plain widget: it takes all of `final_size`, with a
    /// negative extent cut to 0, and so do its children, each inside its
    /// own margin.
    pub fn arrange_override(&self, ui: &UserInterface, final_size: Vec2) -> (actual: Vec2)
        ensures
            actual == self.spec_arrange_override(final_size),
            actual.x >= 0 && actual.y >= 0,
            final_size.x >= 0 ==> actual.x == final_size.x,
            final_size.y >= 0 ==> actual.y == final_size.y,
            final_size.x < 0 ==> actual.x == 0,
            final_size.y < 0 ==> actual.y == 0,
    {
        final_size.bounded_by(final_size)
    }

    /// A plain widget has no state that depends on time.
    pub fn update(&mut self, dt: u32)
        ensures
            *final(self) == *old(self),
    {
    }
}

/// Access to the base state of a node, whatever its variant.
pub trait AsWidget: Sized {
    spec fn spec_widget(&self) -> Widget;

    /// The node with its base state replaced.
    spec fn spec_with_widget(self, widget: Widget) -> Self;

    fn widget(&self) -> (widget: &Widget)
        ensures
            *widget == self.spec_widget(),
    ;

    fn widget_mut(&mut self) -> (widget: &mut Widget)
        ensures
            *widget == old(self).spec_widget(),
            *final(self) == old(self).spec_with_widget(*final(widget)),
    ;
}

/// Collects the configuration of a widget.
pub struct WidgetBuilder {
    widget: Widget,
}

impl WidgetBuilder {
    /// A builder holds a widget that has no parent and is not measured yet.
    #[verifier::type_invariant]
    spec fn fresh(&self) -> bool {
        self.widget.parent is None && self.widget.dirty
    }

    /// The widget that `build` would return now.
    pub closed spec fn spec_widget(&self) -> Widget {
        self.widget
    }

    /// A white, visible, enabled widget without children that stretches over
    /// what it is given, with neither margin nor minimum size, not laid out
    /// yet.
    pub fn new() -> (builder: WidgetBuilder)
        ensures
            builder.spec_widget().color == Color::spec_white(),
            builder.spec_widget().min_size == Vec2::spec_zero(),
            builder.spec_widget().margin == Thickness::spec_uniform(0),
            builder.spec_widget().horizontal_alignment == Alignment::Stretch,
            builder.spec_widget().vertical_alignment == Alignment::Stretch,
            builder.spec_widget().visible,
            builder.spec_widget().enabled,
            builder.spec_widget().parent is None,
            builder.spec_widget().children@ == Seq::<Handle<UINode>>::empty(),
            builder.spec_widget().dirty,
            builder.spec_widget().last_available == Vec2::spec_zero(),
            builder.spec_widget().desired_size == Vec2::spec_zero(),
            builder.spec_widget().screen_bounds == Rect::spec_from_size(Vec2::spec_zero()),
    {
        WidgetBuilder {
            widget: Widget {
                color: Color::white(),
                min_size: Vec2::zero(),
                margin: Thickness::zero(),
                horizontal_alignment: Alignment::Stretch,
                vertical_alignment: Alignment::Stretch,
                visible: true,
                enabled: true,
                parent: None,
                children: Vec::new(),
                dirty: true,
                last_available: Vec2::zero(),
                desired_size: Vec2::zero(),
                screen_bounds: Rect::from_size(Vec2::zero()),
            },
        }
    }

    pub fn with_color(self, color: Color) -> (builder: WidgetBuilder)
        ensures
            builder.spec_widget() == (Widget { color, ..self.spec_widget() }),
    {
        proof {
            use_type_invariant(&self);
        }
        let mut widget = self.widget;
        widget.color = color;
        WidgetBuilder { widget }
    }

    pub fn with_min_size(self, min_size: Vec2) -> (builder: WidgetBuilder)
        ensures
            builder.spec_widget() == (Widget { min_size, ..self.spec_widget() }),
    {
        proof {
            use_type_invariant(&self);
        }
        let mut widget = self.widget;
        widget.min_size = min_size;
        WidgetBuilder { widget }
    }

    pub fn with_margin(self, margin: Thickness) -> (builder: WidgetBuilder)
        ensures
            builder.spec_widget() == (Widget { margin, ..self.spec_widget() }),
    {
        proof {
            use_type_invariant(&self);
        }
        let mut widget = self.widget;
        widget.margin = margin;
        WidgetBuilder { widget }
    }

    pub fn with_horizontal_alignment(self, alignment: Alignment) -> (builder: WidgetBuilder)
        ensures
            builder.spec_widget() == (Widget {
                horizontal_alignment: alignment,
                ..self.spec_widget()
            }),
    {
        proof {
            use_type_invariant(&self);
        }
        let mut widget = self.widget;
        widget.horizontal_alignment = alignment;
        WidgetBuilder { widget }
    }

    pub fn with_vertical_alignment(self, alignment: Alignment) -> (builder: WidgetBuilder)
        ensures
            builder.spec_widget() == (Widget { vertical_alignment: alignment, ..self.spec_widget() }),
    {
        proof {
            use_type_invariant(&self);
        }
        let mut widget = self.widget;
        widget.vertical_alignment = alignment;
        WidgetBuilder { widget }
    }

    pub fn with_visibility(self, visible: bool) -> (builder: WidgetBuilder)
        ensures
            builder.spec_widget() == (Widget { visible, ..self.spec_widget() }),
    {
        proof {
            use_type_invariant(&self);
        }
        let mut widget = self.widget;
        widget.visible = visible;
        WidgetBuilder { widget }
    }

    pub fn with_enabled(self, enabled: bool) -> (builder: WidgetBuilder)
        ensures
            builder.spec_widget() == (Widget { enabled, ..self.spec_widget() }),
    {
        proof {
            use_type_invariant(&self);
        }
        let mut widget = self.widget;
        widget.enabled = enabled;
        WidgetBuilder { widget }
    }

    /// Adds `child` behind the children named so far.
    pub fn with_child(self, child: Handle<UINode>) -> (builder: WidgetBuilder)
        ensures
            builder.spec_widget().children@ == self.spec_widget().children@.push(child),
            builder.spec_widget() == (Widget {
                children: builder.spec_widget().children,
                ..self.spec_widget()
            }),
    {
        proof {
            use_type_invariant(&self);
        }
        let mut widget = self.widget;
        widget.children.push(child);
        WidgetBuilder { widget }
    }

    /// The widget as configured. It has no parent and is not measured yet.
    pub fn build(self) -> (widget: Widget)
        ensures
            widget == self.spec_widget(),
            widget.parent is None,
            widget.dirty,
    {
        proof {
            use_type_invariant(&self);
        }
        self.widget
    }
}

} // verus!
