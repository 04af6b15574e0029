//! Draw-command pipeline. Geometry is collected in a pending buffer and
//! turned into one command per `commit`; commands keep the order in which
//! they were committed, which is the order in which they must be painted.

use crate::math::Rect;
use crate::math::Thickness;
use crate::math::Vec2;
use crate::texture::Texture;
use std::sync::Arc;
use std::sync::Mutex;
use vstd::prelude::*;

verus! {

/// Red, green, blue and alpha, 8 bits each.
#[derive(Clone, Copy, PartialEq, Eq, Structural, Debug)]
pub struct Color {
    pub r: u8,
    pub g: u8,
    pub b: u8,
    pub a: u8,
}

impl Color {
    pub open spec fn spec_white() -> Color {
        Color { r: 255, g: 255, b: 255, a: 255 }
    }

    pub fn from_rgba(r: u8, g: u8, b: u8, a: u8) -> (c: Color)
        ensures
            c == (Color { r, g, b, a }),
    {
        Color { r, g, b, a }
    }

    pub fn opaque(r: u8, g: u8, b: u8) -> (c: Color)
        ensures
            c == (Color { r, g, b, a: 255 }),
    {
        Color { r, g, b, a: 255 }
    }

    pub fn white() -> (c: Color)
        ensures
            c == Color::spec_white(),
    {
        Color { r: 255, g: 255, b: 255, a: 255 }
    }
}

/// One corner of a primitive. Texture coordinates run from 0 to 1 across the
/// primitive.
#[derive(Clone, Copy, PartialEq, Eq, Structural, Debug)]
pub struct Vertex {
    pub pos: Vec2,
    pub tex_coord: Vec2,
    pub color: Color,
}

/// What a command asks the renderer to do with its geometry.
#[derive(Clone, Copy, PartialEq, Eq, Structural, Debug)]
pub enum CommandKind {
    /// Paint the triangles.
    Geometry,
    /// Restrict later painting to the triangles.
    Clip,
}

/// Texture of a command: none, or a shared reference to one.
#[derive(Debug)]
pub enum CommandTexture {
    NoTexture,
    Texture(Arc<Mutex<Texture>>),
}

/// A batch of triangles painted in one call.
#[derive(Debug)]
pub struct DrawCommand {
    pub kind: CommandKind,
    pub texture: CommandTexture,
    pub vertices: Vec<Vertex>,
    /// Three per triangle, each an index into `vertices`.
    pub indices: Vec<u32>,
}

/// A draw command as plain data.
pub struct DrawCommandView {
    pub kind: CommandKind,
    pub texture: CommandTexture,
    pub vertices: Seq<Vertex>,
    pub indices: Seq<u32>,
}

impl View for DrawCommand {
    type V = DrawCommandView;

    open spec fn view(&self) -> DrawCommandView {
        DrawCommandView {
            kind: self.kind,
            texture: self.texture,
            vertices: self.vertices@,
            indices: self.indices@,
        }
    }
}

/// One filled rectangle waiting to be pushed.
pub struct Fill {
    pub rect: Rect,
    pub border: Option<Thickness>,
    pub color: Color,
}

/// The area that is filled: the whole rectangle, or what the border leaves
/// of it.
pub open spec fn filled_area(rect: Rect, border: Option<Thickness>) -> Rect {
    match border {
        Some(t) => rect.spec_deflate(t),
        None => rect,
    }
}

/// Corners of `area` clockwise from the top-left one.
pub open spec fn quad_vertices(area: Rect, color: Color) -> Seq<Vertex> {
    let left = area.x;
    let top = area.y;
    let right = area.spec_right() as i32;
    let bottom = area.spec_bottom() as i32;
    seq![
        Vertex { pos: Vec2 { x: left, y: top }, tex_coord: Vec2 { x: 0, y: 0 }, color },
        Vertex { pos: Vec2 { x: right, y: top }, tex_coord: Vec2 { x: 1, y: 0 }, color },
        Vertex { pos: Vec2 { x: right, y: bottom }, tex_coord: Vec2 { x: 1, y: 1 }, color },
        Vertex { pos: Vec2 { x: left, y: bottom }, tex_coord: Vec2 { x: 0, y: 1 }, color },
    ]
}

/// The two triangles of a quad whose first corner has index `base`.
pub open spec fn quad_indices(base: nat) -> Seq<u32> {
    seq![
        base as u32,
        (base + 1) as u32,
        (base + 2) as u32,
        base as u32,
        (base + 2) as u32,
        (base + 3) as u32,
    ]
}

/// State of a drawing context as plain data: the commands committed so far
/// and the geometry pushed since the last commit.
pub struct DrawingContextView {
    pub commands: Seq<DrawCommandView>,
    pub vertices: Seq<Vertex>,
    pub indices: Seq<u32>,
}

impl DrawingContextView {
    pub open spec fn empty() -> DrawingContextView {
        DrawingContextView { commands: Seq::empty(), vertices: Seq::empty(), indices: Seq::empty() }
    }

    /// No geometry is waiting for a commit.
    pub open spec fn is_flushed(self) -> bool {
        self.vertices.len() == 0 && self.indices.len() == 0
    }

    /// The state after one filled rectangle was pushed.
    pub open spec fn push_rect_filled(
        self,
        rect: Rect,
        border: Option<Thickness>,
        color: Color,
    ) -> DrawingContextView {
        DrawingContextView {
            commands: self.commands,
            vertices: self.vertices + quad_vertices(filled_area(rect, border), color),
            indices: self.indices + quad_indices(self.vertices.len()),
        }
    }

    /// The state after the first `n` of `fills` were pushed, in order.
    pub open spec fn push_fills(self, fills: Seq<Fill>, n: nat) -> DrawingContextView
        decreases n,
    {
        if n == 0 || n > fills.len() {
            self
        } else {
            let f = fills[n - 1];
            self.push_fills(fills, (n - 1) as nat).push_rect_filled(f.rect, f.border, f.color)
        }
    }

    /// The command that a commit makes of the pending geometry.
    pub open spec fn pending_command(self, kind: CommandKind, texture: CommandTexture) -> DrawCommandView {
        DrawCommandView { kind, texture, vertices: self.vertices, indices: self.indices }
    }

    /// The state after a commit: one more command, nothing pending.
    pub open spec fn commit(self, kind: CommandKind, texture: CommandTexture) -> DrawingContextView {
        DrawingContextView {
            commands: self.commands.push(self.pending_command(kind, texture)),
            vertices: Seq::empty(),
            indices: Seq::empty(),
        }
    }
}

/// Pushing geometry leaves the committed commands alone.
pub proof fn lemma_push_keeps_commands(ctx: DrawingContextView, fills: Seq<Fill>, n: nat)
    ensures
        ctx.push_fills(fills, n).commands == ctx.commands,
    decreases n,
{
    if n != 0 && n <= fills.len() {
        lemma_push_keeps_commands(ctx, fills, (n - 1) as nat);
    }
}

/// Batching: however many rectangles are pushed, one commit after them adds
/// exactly one command, and that command holds all the pending geometry.
pub proof fn lemma_one_commit_one_command(
    ctx: DrawingContextView,
    fills: Seq<Fill>,
    kind: CommandKind,
    texture: CommandTexture,
)
    ensures
        ({
            let pushed = ctx.push_fills(fills, fills.len());
            let done = pushed.commit(kind, texture);
            &&& done.commands.len() == ctx.commands.len() + 1
            &&& done.commands == ctx.commands.push(pushed.pending_command(kind, texture))
            &&& done.is_flushed()
        }),
{
    lemma_push_keeps_commands(ctx, fills, fills.len());
}

/// A change of texture is a batch boundary: two runs of rectangles, each
/// committed with its own texture, give two commands in that order, and the
/// second holds only the geometry of the second run.
pub proof fn lemma_texture_change_splits_batch(
    ctx: DrawingContextView,
    first: Seq<Fill>,
    first_texture: CommandTexture,
    second: Seq<Fill>,
    second_texture: CommandTexture,
    kind: CommandKind,
)
    ensures
        ({
            let a = ctx.push_fills(first, first.len());
            let b = a.commit(kind, first_texture);
            let c = b.push_fills(second, second.len());
            let d = c.commit(kind, second_texture);
            let fresh = DrawingContextView::empty().push_fills(second, second.len());
            &&& d.commands.len() == ctx.commands.len() + 2
            &&& d.commands == ctx.commands.push(a.pending_command(kind, first_texture)).push(
                c.pending_command(kind, second_texture),
            )
            &&& ctx.is_flushed() ==> c.vertices == fresh.vertices && c.indices == fresh.indices
            &&& c.vertices.len() == 4 * second.len()
        }),
{
    lemma_push_keeps_commands(ctx, first, first.len());
    let a = ctx.push_fills(first, first.len());
    let b = a.commit(kind, first_texture);
    lemma_push_keeps_commands(b, second, second.len());
    lemma_pending_depends_on_pending_only(b, DrawingContextView::empty(), second, second.len());
}

/// What is pending after a run of pushes depends on what was pending before
/// it, not on the commands committed earlier.
pub proof fn lemma_pending_depends_on_pending_only(
    a: DrawingContextView,
    b: DrawingContextView,
    fills: Seq<Fill>,
    n: nat,
)
    requires
        a.vertices == b.vertices,
        a.indices == b.indices,
        n <= fills.len(),
    ensures
        a.push_fills(fills, n).vertices == b.push_fills(fills, n).vertices,
        a.push_fills(fills, n).indices == b.push_fills(fills, n).indices,
        a.push_fills(fills, n).vertices.len() == a.vertices.len() + 4 * n,
    decreases n,
{
    if n != 0 {
        lemma_pending_depends_on_pending_only(a, b, fills, (n - 1) as nat);
    }
}

/// Collects geometry and turns it into an ordered list of draw commands.
pub struct DrawingContext {
    commands: Vec<DrawCommand>,
    vertices: Vec<Vertex>,
    indices: Vec<u32>,
}

impl View for DrawingContext {
    type V = DrawingContextView;

    closed spec fn view(&self) -> DrawingContextView {
        DrawingContextView {
            commands: self.commands@.map_values(|c: DrawCommand| c@),
            vertices: self.vertices@,
            indices: self.indices@,
        }
    }
}

impl DrawingContext {
    pub fn new() -> (ctx: DrawingContext)
        ensures
            ctx@ == DrawingContextView::empty(),
    {
        let ctx = DrawingContext { commands: Vec::new(), vertices: Vec::new(), indices: Vec::new() };
        assert(ctx@.commands =~= Seq::empty());
        ctx
    }

    /// Drops every command and all pending geometry.
    pub fn clear(&mut self)
        ensures
            final(self)@ == DrawingContextView::empty(),
    {
        self.commands.clear();
        self.vertices.clear();
        self.indices.clear();
        assert(self@.commands =~= Seq::empty());
    }

    /// Whether no geometry is waiting for a commit.
    pub fn is_flushed(&self) -> (r: bool)
        ensures
            r == self@.is_flushed(),
    {
        self.vertices.len() == 0 && self.indices.len() == 0
    }

    /// Number of vertices waiting for a commit.
    pub fn pending_vertices(&self) -> (n: usize)
        ensures
            n == self@.vertices.len(),
    {
        self.vertices.len()
    }

    /// The commands committed so far, oldest first.
    pub fn commands(&self) -> (commands: &Vec<DrawCommand>)
        ensures
            commands@.map_values(|c: DrawCommand| c@) == self@.commands,
    {
        &self.commands
    }

    /// Appends a filled rectangle to the pending geometry: four corners in
    /// `color` and the two triangles between them. With a border, the fill
    /// covers what the border leaves of `rect`.
    pub fn push_rect_filled(&mut self, rect: &Rect, border: Option<Thickness>, color: Color)
        requires
            old(self)@.vertices.len() + 4 <= u32::MAX,
        ensures
            final(self)@ == old(self)@.push_rect_filled(*rect, border, color),
    {
        let area = match border {
            Some(t) => rect.deflate(&t),
            None => *rect,
        };
        let left = area.x;
        let top = area.y;
        let right = area.right();
        let bottom = area.bottom();
        let base = self.vertices.len() as u32;
        self.vertices.push(
            Vertex { pos: Vec2 { x: left, y: top }, tex_coord: Vec2 { x: 0, y: 0 }, color },
        );
        self.vertices.push(
            Vertex { pos: Vec2 { x: right, y: top }, tex_coord: Vec2 { x: 1, y: 0 }, color },
        );
        self.vertices.push(
            Vertex { pos: Vec2 { x: right, y: bottom }, tex_coord: Vec2 { x: 1, y: 1 }, color },
        );
        self.vertices.push(
            Vertex { pos: Vec2 { x: left, y: bottom }, tex_coord: Vec2 { x: 0, y: 1 }, color },
        );
        self.indices.push(base);
        self.indices.push(base + 1);
        self.indices.push(base + 2);
        self.indices.push(base);
        self.indices.push(base + 2);
        self.indices.push(base + 3);
        proof {
            let want = old(self)@.push_rect_filled(*rect, border, color);
            assert(self@.vertices =~= want.vertices);
            assert(self@.indices =~= want.indices);
        }
    }

    /// Turns the pending geometry into one new command with the given kind
    /// and texture, placed after all earlier commands, and starts an empty
    /// pending buffer.
    pub fn commit(&mut self, kind: CommandKind, texture: CommandTexture)
        ensures
            final(self)@ == old(self)@.commit(kind, texture),
    {
        let mut vertices: Vec<Vertex> = Vec::new();
        let mut indices: Vec<u32> = Vec::new();
        std::mem::swap(&mut self.vertices, &mut vertices);
        std::mem::swap(&mut self.indices, &mut indices);
        self.commands.push(DrawCommand { kind, texture, vertices, indices });
        proof {
            let want = old(self)@.commit(kind, texture);
            assert(self@.commands =~= want.commands);
        }
    }
}

} // verus!
