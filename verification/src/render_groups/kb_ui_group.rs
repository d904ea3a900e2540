//! Buttons over the finished frame: a border with the background inset on top.

use vstd::prelude::*;

use crate::float_bits::FloatBits;
use crate::gpu::{blend_alpha, one_target, PipelinePlan, Target, TargetFormat, Topology};
#[allow(unused_imports)]
use crate::gpu::alpha_blend;

verus! {

/// Most quads of one frame.
pub const MAX_UI_QUADS: usize = 64;

/// Width of a border: 2.0 pixels.
pub const BORDER_PX: FloatBits = 0x4000_0000;

/// A button: `rect` is its left, top, width and height in pixels.
pub struct KbUiButton {
    pub label: String,
    pub rect: [FloatBits; 4],
    pub background: [FloatBits; 4],
    pub border: [FloatBits; 4],
    pub text_color: [FloatBits; 4],
}

/// A quad of a button.
#[derive(Clone, Copy, PartialEq, Eq, Structural)]
pub struct UiQuad {
    /// Which button.
    pub button: usize,
    /// The background, inset by the border; else the border itself.
    pub inset: bool,
}

/// The quads of `buttons` buttons: for each one its border and then its background,
/// as many as there is room for.
pub open spec fn quads_of(buttons: nat) -> Seq<UiQuad> {
    Seq::new(
        if 2 * buttons > MAX_UI_QUADS {
            MAX_UI_QUADS as nat
        } else {
            2 * buttons
        },
        |k: int| UiQuad { button: (k / 2) as usize, inset: k % 2 == 1 },
    )
}

/// A corner of a quad: right or left, bottom or top.
pub type QuadCorner = (bool, bool);

/// The corners of a quad's two triangles, counter-clockwise from the top left.
pub open spec fn quad_corners_spec() -> Seq<QuadCorner> {
    seq![
        (false, false),
        (false, true),
        (true, true),
        (false, false),
        (true, true),
        (true, false),
    ]
}

/// Plans the quads of some buttons. Quads that find no room are left out.
pub fn ui_quads(buttons: &Vec<KbUiButton>) -> (r: Vec<UiQuad>)
    ensures
        r@ == quads_of(buttons@.len()),
{
    let mut out: Vec<UiQuad> = Vec::new();
    let ghost all = quads_of(buttons@.len());
    let mut i: usize = 0;
    while i < buttons.len()
        invariant
            i <= buttons.len(),
            all == quads_of(buttons@.len()),
            out@ == all.take(
                if 2 * i > 64 {
                    64
                } else {
                    2 * i as int
                },
            ),
        decreases buttons.len() - i,
    {
        if out.len() < MAX_UI_QUADS {
            assert((2 * i) / 2 == i && (2 * i) % 2 == 0 && (2 * i + 1) / 2 == i && (2 * i + 1) % 2
                == 1);
            out.push(UiQuad { button: i, inset: false });
            out.push(UiQuad { button: i, inset: true });
            assert(out@ == all.take(2 * i + 2));
        }
        i += 1;
    }
    assert(all.take(all.len() as int) == all);
    out
}

/// The corners of a quad's two triangles.
pub fn quad_corners() -> (r: [QuadCorner; 6])
    ensures
        r@ == quad_corners_spec(),
{
    let r = [
        (false, false),
        (false, true),
        (true, true),
        (false, false),
        (true, true),
        (true, false),
    ];
    assert(r@ == quad_corners_spec());
    r
}

/// Number of vertices to draw for some quads.
pub fn vertex_count(quads: &Vec<UiQuad>) -> (r: u32)
    requires
        quads@.len() <= MAX_UI_QUADS,
    ensures
        r == 6 * quads@.len(),
{
    6 * quads.len() as u32
}

/// The pipeline of the group: it draws straight onto the window's surface, whose
/// format it must match exactly, and nothing hides it.
pub fn ui_pipeline() -> (r: PipelinePlan)
    ensures
        r.groups@.len() == 0,
        r.vertex_buffer,
        r.targets@ == seq![Target { format: TargetFormat::Surface, blend: Some(alpha_blend()) }],
        !r.cull_back,
        r.topology == Topology::TriangleList,
        r.depth is None,
{
    PipelinePlan {
        groups: Vec::new(),
        vertex_buffer: true,
        targets: one_target(TargetFormat::Surface, Some(blend_alpha())),
        cull_back: false,
        topology: Topology::TriangleList,
        depth: None,
    }
}

/// The buttons that are drawn are drawn whole: a border is never without its
/// background.
pub proof fn buttons_are_drawn_whole(buttons: nat, k: int)
    requires
        0 <= k < quads_of(buttons).len(),
        !quads_of(buttons)[k].inset,
    ensures
        k + 1 < quads_of(buttons).len(),
        quads_of(buttons)[k + 1] == (UiQuad { button: quads_of(buttons)[k].button, inset: true }),
{
}

/// Every one of the first 32 buttons has its border and directly after it its
/// background; the others have none, and no quad stands for anything else.
pub proof fn the_first_buttons_are_drawn(buttons: nat, b: usize)
    ensures
        b < buttons && b < 32 ==> {
            &&& 2 * b + 1 < quads_of(buttons).len()
            &&& quads_of(buttons)[2 * b] == (UiQuad { button: b, inset: false })
            &&& quads_of(buttons)[2 * b + 1] == (UiQuad { button: b, inset: true })
        },
        !(b < buttons && b < 32) ==> forall|k: int|
            0 <= k < quads_of(buttons).len() ==> (#[trigger] quads_of(buttons)[k]).button != b,
        quads_of(buttons).len() <= 64,
        quads_of(buttons).len() <= 2 * buttons,
{
    if b < buttons && b < 32 {
        assert((2 * b) / 2 == b && (2 * b) % 2 == 0);
        assert((2 * b + 1) / 2 == b && (2 * b + 1) % 2 == 1);
    } else {
        assert forall|k: int| 0 <= k < quads_of(buttons).len() implies (
        #[trigger] quads_of(buttons)[k]).button != b by {
            assert(0 <= k / 2 < 32 && k / 2 < buttons);
        }
    }
}

/// The corners turn to the left on the way from `a` over `b` to `c`: the way turns
/// from downwards to rightwards, or from there to upwards, or is the diagonal's.
pub open spec fn turns_left(a: QuadCorner, b: QuadCorner, c: QuadCorner) -> bool {
    let right = |q: QuadCorner| if q.0 { 1int } else { 0int };
    let up = |q: QuadCorner| if q.1 { -1int } else { 0int };
    let (x1, y1) = (right(b) - right(a), up(b) - up(a));
    let (x2, y2) = (right(c) - right(b), up(c) - up(b));
    ||| (x1 == 0 && y1 == -1 && x2 == 1 && y2 == 0)
    ||| (x1 == 1 && y1 == 0 && x2 == 0 && y2 == 1)
    ||| (x1 == 1 && y1 == -1 && x2 == 0 && y2 == 1)
}

/// The two triangles of a quad go the same way round, touch all four corners, begin
/// at the top left and share the diagonal to the bottom right.
pub proof fn triangles_fill_the_quad(corner: QuadCorner)
    ensures
        quad_corners_spec().len() == 6,
        quad_corners_spec().contains(corner),
        turns_left(quad_corners_spec()[0], quad_corners_spec()[1], quad_corners_spec()[2]),
        turns_left(quad_corners_spec()[3], quad_corners_spec()[4], quad_corners_spec()[5]),
        quad_corners_spec()[0] == (false, false),
        quad_corners_spec()[3] == (false, false),
        quad_corners_spec()[2] == (true, true),
        quad_corners_spec()[4] == (true, true),
        quad_corners_spec()[1] != quad_corners_spec()[5],
{
    let q = quad_corners_spec();
    assert(q[0] == (false, false));
    assert(q[1] == (false, true));
    assert(q[2] == (true, true));
    assert(q[5] == (true, false));
    assert(q.contains(corner)) by {
        if corner.0 && corner.1 {
            assert(q[2] == corner);
        } else if corner.0 {
            assert(q[5] == corner);
        } else if corner.1 {
            assert(q[1] == corner);
        } else {
            assert(q[0] == corner);
        }
    }
}

} // verus!
