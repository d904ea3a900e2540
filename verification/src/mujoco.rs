//! MuJoCo scenes: what is drawn of their geoms, playback of trajectories, the
//! meshes that a model file names, and the state shared with a simulation that
//! runs beside the program.
//!
//! MuJoCo owns the simulation; the engine only reads poses and draws them.

use vstd::prelude::*;

#[allow(unused_imports)]
use crate::collision::edge_ends;
use crate::collision::ends_of_edge;
use crate::float_bits::{float_le, float_lt, le, lt, neg, negated, DoubleBits, FloatBits, Vec3, Vec4, ONE};
use crate::handles::NameTable;
use crate::paths::file_stem;
#[allow(unused_imports)]
use crate::paths::{
    directories_do_not_count, last_part, one_extension_is_taken_off, plain_path, stem,
};
use crate::text::{same_text, views};
#[allow(unused_imports)]
use crate::trajectory::{lemma_offset_grows, offsets_add_up};
use crate::trajectory::{
    end, joints_view, offset, JointModel, JointTrack, RetargetedClip,
};

verus! {

pub const MJ_GEOM_PLANE: u32 = 0;

pub const MJ_GEOM_SPHERE: u32 = 2;

pub const MJ_GEOM_CAPSULE: u32 = 3;

pub const MJ_GEOM_CYLINDER: u32 = 5;

pub const MJ_GEOM_BOX: u32 = 6;

pub const MJ_GEOM_MESH: u32 = 7;

/// Segments of a wireframe circle.
pub const CIRCLE_SEGMENTS: u32 = 20;

/// Lines along the side of a capsule or cylinder.
pub const SIDES: u32 = 8;

/// Thickness of outlines: 0.02.
pub const OUTLINE: FloatBits = 0x3ca3_d70a;

/// Thickness of the lines across a plane: 0.008.
pub const GRID: FloatBits = 0x3c03_126f;

/// Half extent of a plane without a size: 3.0.
pub const PLANE_DEFAULT: FloatBits = 0x4040_0000;

/// Half extent of the cross that stands for a geom without a wireframe: 0.1.
pub const CROSS: FloatBits = 0x3dcc_cccd;

/// From MuJoCo's frame, in which z points up, to the engine's, in which y does:
/// (x, y, z) becomes (x, z, -y).
pub open spec fn to_engine(v: Vec3) -> Vec3 {
    Vec3 { x: v.x, y: v.z, z: neg(v.y) }
}

pub fn mj_vec3(v: Vec3) -> (r: Vec3)
    ensures
        r == to_engine(v),
{
    Vec3 { x: v.x, y: v.z, z: negated(v.y) }
}

/// Turning the frame four times gives the vector back; twice flips y and z.
pub proof fn frame_change_is_a_quarter_turn(v: Vec3)
    ensures
        to_engine(to_engine(v)) == (Vec3 { x: v.x, y: neg(v.y), z: neg(v.z) }),
        to_engine(to_engine(to_engine(to_engine(v)))) == v,
{
}

/// The axes of a geom in the engine's frame: the columns of a row-major matrix.
pub fn mj_basis(xmat: &[FloatBits; 9]) -> (r: (Vec3, Vec3, Vec3))
    ensures
        r.0 == to_engine(Vec3 { x: xmat@[0], y: xmat@[3], z: xmat@[6] }),
        r.1 == to_engine(Vec3 { x: xmat@[1], y: xmat@[4], z: xmat@[7] }),
        r.2 == to_engine(Vec3 { x: xmat@[2], y: xmat@[5], z: xmat@[8] }),
{
    (
        mj_vec3(Vec3 { x: xmat[0], y: xmat[3], z: xmat[6] }),
        mj_vec3(Vec3 { x: xmat[1], y: xmat[4], z: xmat[7] }),
        mj_vec3(Vec3 { x: xmat[2], y: xmat[5], z: xmat[8] }),
    )
}

/// A geom of one frame.
#[derive(Clone, Copy)]
pub struct GeomFrame {
    pub kind: u32,
    pub size: [FloatBits; 3],
    pub rgba: [FloatBits; 4],
    pub xpos: [FloatBits; 3],
    pub xmat: [FloatBits; 9],
}

/// The coordinate `size * num / den`.
#[derive(Clone, Copy, PartialEq, Eq, Structural)]
pub struct Part {
    pub size: FloatBits,
    pub num: i32,
    pub den: i32,
}

/// A point by its coordinates along the axes of a geom.
#[derive(Clone, Copy, PartialEq, Eq, Structural)]
pub struct LocalPoint {
    pub x: Part,
    pub y: Part,
    pub z: Part,
}

#[derive(Clone, Copy, PartialEq, Eq, Structural)]
pub enum Axis {
    X,
    Y,
    Z,
}

/// A piece of a wireframe.
#[derive(Clone, Copy, PartialEq, Eq, Structural)]
pub enum Wire {
    Line { from: LocalPoint, to: LocalPoint, thickness: FloatBits },
    /// A circle around the point `at` on the z axis.
    Circle { at: Part, u: Axis, v: Axis, radius: FloatBits },
    /// A line along z on the side of a cylinder, at `step` of `SIDES` round it.
    Side { step: u32, radius: FloatBits, half_len: FloatBits },
}

pub open spec fn whole_part(size: FloatBits, sign: int) -> Part {
    Part { size, num: sign as i32, den: 1 }
}

pub open spec fn no_part() -> Part {
    Part { size: 0, num: 0, den: 1 }
}

/// Corner `i` of a plane, counter-clockwise from the positive one.
pub open spec fn plane_corner(hx: FloatBits, hy: FloatBits, i: int) -> LocalPoint {
    LocalPoint {
        x: whole_part(
            hx,
            if i == 0 || i == 3 {
                1int
            } else {
                -1
            },
        ),
        y: whole_part(
            hy,
            if i == 0 || i == 1 {
                1int
            } else {
                -1
            },
        ),
        z: no_part(),
    }
}

/// Grid line `k` of a plane: thirteen pairs, each one line along y and one along x.
pub open spec fn grid_line(hx: FloatBits, hy: FloatBits, k: int) -> Wire {
    let i = (k / 2 - 6) as i32;
    if k % 2 == 0 {
        let x = Part { size: hx, num: i, den: 6 };
        Wire::Line {
            from: LocalPoint { x, y: whole_part(hy, 1), z: no_part() },
            to: LocalPoint { x, y: whole_part(hy, -1), z: no_part() },
            thickness: GRID,
        }
    } else {
        let y = Part { size: hy, num: i, den: 6 };
        Wire::Line {
            from: LocalPoint { x: whole_part(hx, 1), y, z: no_part() },
            to: LocalPoint { x: whole_part(hx, -1), y, z: no_part() },
            thickness: GRID,
        }
    }
}

/// Half extent of a plane: its size where that is positive.
pub open spec fn plane_extent(size: FloatBits) -> FloatBits {
    if lt(0, size) {
        size
    } else {
        PLANE_DEFAULT
    }
}

/// The wireframe of a plane: its border and a grid.
pub open spec fn plane_wires(hx: FloatBits, hy: FloatBits) -> Seq<Wire> {
    Seq::new(
        4,
        |i: int|
            Wire::Line {
                from: plane_corner(hx, hy, i),
                to: plane_corner(hx, hy, (i + 1) % 4),
                thickness: OUTLINE,
            },
    ) + Seq::new(26, |k: int| grid_line(hx, hy, k))
}

/// The wireframe of a sphere: three circles.
pub open spec fn sphere_wires(r: FloatBits) -> Seq<Wire> {
    seq![
        Wire::Circle { at: no_part(), u: Axis::X, v: Axis::Y, radius: r },
        Wire::Circle { at: no_part(), u: Axis::X, v: Axis::Z, radius: r },
        Wire::Circle { at: no_part(), u: Axis::Y, v: Axis::Z, radius: r },
    ]
}

/// The wireframe of a capsule or cylinder: two circles and the lines between.
pub open spec fn cylinder_wires(r: FloatBits, half_len: FloatBits) -> Seq<Wire> {
    seq![
        Wire::Circle { at: whole_part(half_len, 1), u: Axis::X, v: Axis::Y, radius: r },
        Wire::Circle { at: whole_part(half_len, -1), u: Axis::X, v: Axis::Y, radius: r },
    ] + Seq::new(SIDES as nat, |i: int| Wire::Side { step: i as u32, radius: r, half_len })
}

/// Corner `i` of a box: the first four go round the lower side.
pub open spec fn box_point(hx: FloatBits, hy: FloatBits, hz: FloatBits, i: int) -> LocalPoint {
    LocalPoint {
        x: whole_part(
            hx,
            if i % 4 == 0 || i % 4 == 3 {
                -1
            } else {
                1int
            },
        ),
        y: whole_part(
            hy,
            if i % 4 < 2 {
                -1
            } else {
                1int
            },
        ),
        z: whole_part(
            hz,
            if i < 4 {
                -1
            } else {
                1int
            },
        ),
    }
}

/// The wireframe of a box: its twelve edges.
pub open spec fn box_wires(hx: FloatBits, hy: FloatBits, hz: FloatBits) -> Seq<Wire> {
    Seq::new(
        12,
        |e: int|
            Wire::Line {
                from: box_point(hx, hy, hz, edge_ends(e).0),
                to: box_point(hx, hy, hz, edge_ends(e).1),
                thickness: OUTLINE,
            },
    )
}

/// The cross that stands for a geom without a wireframe.
pub open spec fn cross_wires() -> Seq<Wire> {
    seq![
        Wire::Line {
            from: LocalPoint { x: whole_part(CROSS, -1), y: no_part(), z: no_part() },
            to: LocalPoint { x: whole_part(CROSS, 1), y: no_part(), z: no_part() },
            thickness: OUTLINE,
        },
        Wire::Line {
            from: LocalPoint { x: no_part(), y: whole_part(CROSS, -1), z: no_part() },
            to: LocalPoint { x: no_part(), y: whole_part(CROSS, 1), z: no_part() },
            thickness: OUTLINE,
        },
        Wire::Line {
            from: LocalPoint { x: no_part(), y: no_part(), z: whole_part(CROSS, -1) },
            to: LocalPoint { x: no_part(), y: no_part(), z: whole_part(CROSS, 1) },
            thickness: OUTLINE,
        },
    ]
}

/// The wireframe of a geom. A mesh has none: it is drawn as triangles.
pub open spec fn wires_of(kind: u32, size: Seq<FloatBits>) -> Seq<Wire> {
    if kind == MJ_GEOM_PLANE {
        plane_wires(plane_extent(size[0]), plane_extent(size[1]))
    } else if kind == MJ_GEOM_SPHERE {
        sphere_wires(size[0])
    } else if kind == MJ_GEOM_CAPSULE || kind == MJ_GEOM_CYLINDER {
        cylinder_wires(size[0], size[1])
    } else if kind == MJ_GEOM_BOX {
        box_wires(size[0], size[1], size[2])
    } else if kind == MJ_GEOM_MESH {
        seq![]
    } else {
        cross_wires()
    }
}

fn whole(size: FloatBits, sign: i32) -> (r: Part)
    ensures
        r == whole_part(size, sign as int),
{
    Part { size, num: sign, den: 1 }
}

fn nothing() -> (r: Part)
    ensures
        r == no_part(),
{
    Part { size: 0, num: 0, den: 1 }
}

fn extent_or_default(size: FloatBits) -> (r: FloatBits)
    ensures
        r == plane_extent(size),
{
    if float_lt(0, size) {
        size
    } else {
        PLANE_DEFAULT
    }
}

fn corner_of_plane(hx: FloatBits, hy: FloatBits, i: usize) -> (r: LocalPoint)
    requires
        i < 4,
    ensures
        r == plane_corner(hx, hy, i as int),
{
    LocalPoint {
        x: whole(
            hx,
            if i == 0 || i == 3 {
                1
            } else {
                -1
            },
        ),
        y: whole(
            hy,
            if i == 0 || i == 1 {
                1
            } else {
                -1
            },
        ),
        z: nothing(),
    }
}

/// The wireframe of a plane.
pub fn draw_wire_plane(hx: FloatBits, hy: FloatBits) -> (r: Vec<Wire>)
    ensures
        r@ == plane_wires(hx, hy),
{
    let mut out: Vec<Wire> = Vec::new();
    let ghost all = plane_wires(hx, hy);
    let mut i: usize = 0;
    while i < 4
        invariant
            i <= 4,
            all == plane_wires(hx, hy),
            out@ == all.take(i as int),
        decreases 4 - i,
    {
        out.push(
            Wire::Line {
                from: corner_of_plane(hx, hy, i),
                to: corner_of_plane(hx, hy, (i + 1) % 4),
                thickness: OUTLINE,
            },
        );
        assert(all.take(i + 1) == all.take(i as int).push(all[i as int]));
        i += 1;
    }
    let mut k: i32 = 0;
    while k < 26
        invariant
            0 <= k <= 26,
            all == plane_wires(hx, hy),
            out@ == all.take(4 + k),
        decreases 26 - k,
    {
        let step: i32 = k / 2 - 6;
        if k % 2 == 0 {
            let x = Part { size: hx, num: step, den: 6 };
            out.push(
                Wire::Line {
                    from: LocalPoint { x, y: whole(hy, 1), z: nothing() },
                    to: LocalPoint { x, y: whole(hy, -1), z: nothing() },
                    thickness: GRID,
                },
            );
        } else {
            let y = Part { size: hy, num: step, den: 6 };
            out.push(
                Wire::Line {
                    from: LocalPoint { x: whole(hx, 1), y, z: nothing() },
                    to: LocalPoint { x: whole(hx, -1), y, z: nothing() },
                    thickness: GRID,
                },
            );
        }
        assert(all[4 + k] == grid_line(hx, hy, k as int));
        assert(all.take(4 + k + 1) == all.take(4 + k).push(all[4 + k]));
        k += 1;
    }
    assert(all.take(30) == all);
    out
}

fn point_of_box(hx: FloatBits, hy: FloatBits, hz: FloatBits, i: usize) -> (r: LocalPoint)
    requires
        i < 8,
    ensures
        r == box_point(hx, hy, hz, i as int),
{
    LocalPoint {
        x: whole(
            hx,
            if i % 4 == 0 || i % 4 == 3 {
                -1
            } else {
                1
            },
        ),
        y: whole(
            hy,
            if i % 4 < 2 {
                -1
            } else {
                1
            },
        ),
        z: whole(
            hz,
            if i < 4 {
                -1
            } else {
                1
            },
        ),
    }
}

/// The wireframe of a box.
pub fn draw_wire_box(hx: FloatBits, hy: FloatBits, hz: FloatBits) -> (r: Vec<Wire>)
    ensures
        r@ == box_wires(hx, hy, hz),
{
    let mut out: Vec<Wire> = Vec::new();
    let ghost all = box_wires(hx, hy, hz);
    let mut e: usize = 0;
    while e < 12
        invariant
            e <= 12,
            all == box_wires(hx, hy, hz),
            out@ == all.take(e as int),
        decreases 12 - e,
    {
        let (a, b) = ends_of_edge(e);
        out.push(
            Wire::Line {
                from: point_of_box(hx, hy, hz, a),
                to: point_of_box(hx, hy, hz, b),
                thickness: OUTLINE,
            },
        );
        assert(all.take(e + 1) == all.take(e as int).push(all[e as int]));
        e += 1;
    }
    assert(all.take(12) == all);
    out
}

/// The wireframe of a capsule or cylinder.
pub fn draw_wire_cylinder(radius: FloatBits, half_len: FloatBits) -> (r: Vec<Wire>)
    ensures
        r@ == cylinder_wires(radius, half_len),
{
    let mut out: Vec<Wire> = Vec::new();
    let ghost all = cylinder_wires(radius, half_len);
    out.push(Wire::Circle { at: whole(half_len, 1), u: Axis::X, v: Axis::Y, radius });
    out.push(Wire::Circle { at: whole(half_len, -1), u: Axis::X, v: Axis::Y, radius });
    assert(out@ == all.take(2));
    let mut i: u32 = 0;
    while i < SIDES
        invariant
            i <= SIDES,
            all == cylinder_wires(radius, half_len),
            out@ == all.take(2 + i),
        decreases SIDES - i,
    {
        out.push(Wire::Side { step: i, radius, half_len });
        assert(all.take(2 + i + 1) == all.take(2 + i).push(all[2 + i]));
        i += 1;
    }
    assert(all.take(10) == all);
    out
}

/// The wireframe of a geom, by its kind and size.
pub fn draw_mj_geom(kind: u32, size: &[FloatBits; 3]) -> (r: Vec<Wire>)
    ensures
        r@ == wires_of(kind, size@),
{
    if kind == MJ_GEOM_PLANE {
        draw_wire_plane(extent_or_default(size[0]), extent_or_default(size[1]))
    } else if kind == MJ_GEOM_SPHERE {
        let radius = size[0];
        let mut out: Vec<Wire> = Vec::new();
        out.push(Wire::Circle { at: nothing(), u: Axis::X, v: Axis::Y, radius });
        out.push(Wire::Circle { at: nothing(), u: Axis::X, v: Axis::Z, radius });
        out.push(Wire::Circle { at: nothing(), u: Axis::Y, v: Axis::Z, radius });
        assert(out@ == sphere_wires(radius));
        out
    } else if kind == MJ_GEOM_CAPSULE || kind == MJ_GEOM_CYLINDER {
        draw_wire_cylinder(size[0], size[1])
    } else if kind == MJ_GEOM_BOX {
        draw_wire_box(size[0], size[1], size[2])
    } else if kind == MJ_GEOM_MESH {
        Vec::new()
    } else {
        let mut out: Vec<Wire> = Vec::new();
        out.push(
            Wire::Line {
                from: LocalPoint { x: whole(CROSS, -1), y: nothing(), z: nothing() },
                to: LocalPoint { x: whole(CROSS, 1), y: nothing(), z: nothing() },
                thickness: OUTLINE,
            },
        );
        out.push(
            Wire::Line {
                from: LocalPoint { x: nothing(), y: whole(CROSS, -1), z: nothing() },
                to: LocalPoint { x: nothing(), y: whole(CROSS, 1), z: nothing() },
                thickness: OUTLINE,
            },
        );
        out.push(
            Wire::Line {
                from: LocalPoint { x: nothing(), y: nothing(), z: whole(CROSS, -1) },
                to: LocalPoint { x: nothing(), y: nothing(), z: whole(CROSS, 1) },
                thickness: OUTLINE,
            },
        );
        assert(out@ == cross_wires());
        out
    }
}

/// The color of a wireframe: the geom's, opaque.
pub fn wire_color(rgba: &[FloatBits; 4]) -> (r: Vec4)
    ensures
        r == (Vec4 { x: rgba@[0], y: rgba@[1], z: rgba@[2], w: ONE }),
{
    Vec4 { x: rgba[0], y: rgba[1], z: rgba[2], w: ONE }
}

/// Every geom but a mesh shows something, whatever its kind.
pub proof fn only_meshes_have_no_wires(kind: u32, size: Seq<FloatBits>)
    ensures
        wires_of(kind, size).len() == 0 <==> kind == MJ_GEOM_MESH,
{
}

/// Most simulation steps that one frame runs.
pub const MAX_STEPS: u32 = 8;

/// A loaded scene, as far as the simulation does not own it.
pub struct MujocoScene {
    /// Whether the simulation advances each frame.
    pub playing: bool,
    /// Simulated seconds per second.
    pub speed: FloatBits,
    /// Simulated time that is still to be stepped.
    pub sim_time_accum: FloatBits,
    /// Where the model's meshes lie, by name.
    pub mesh_paths: NameTable<String>,
}

impl MujocoScene {
    /// A scene that plays at normal speed.
    pub fn new(mesh_paths: NameTable<String>) -> (r: Self)
        ensures
            r.playing,
            r.speed == ONE,
            r.sim_time_accum == 0,
            r.mesh_paths == mesh_paths,
    {
        MujocoScene { playing: true, speed: ONE, sim_time_accum: 0, mesh_paths }
    }

    pub fn is_playing(&self) -> (r: bool)
        ensures
            r == self.playing,
    {
        self.playing
    }

    pub fn set_playing(&mut self, playing: bool)
        ensures
            *final(self) == (MujocoScene { playing, ..*old(self) }),
    {
        self.playing = playing;
    }

    pub fn speed(&self) -> (r: FloatBits)
        ensures
            r == self.speed,
    {
        self.speed
    }

    pub fn set_speed(&mut self, speed: FloatBits)
        ensures
            *final(self) == (MujocoScene { speed, ..*old(self) }),
    {
        self.speed = speed;
    }

    /// Forgets the time that is still to be stepped.
    pub fn reset(&mut self)
        ensures
            *final(self) == (MujocoScene { sim_time_accum: 0, ..*old(self) }),
    {
        self.sim_time_accum = 0;
    }

    /// Whether another step is due after `steps` steps of this frame. A paused
    /// scene never steps, and no frame catches up on more than `MAX_STEPS`.
    pub fn step_due(&self, timestep: FloatBits, steps: u32) -> (r: bool)
        ensures
            r == (self.playing && le(timestep, self.sim_time_accum) && steps < MAX_STEPS),
    {
        self.playing && float_le(timestep, self.sim_time_accum) && steps < MAX_STEPS
    }
}

/// Kinds of joints.
#[derive(Clone, Copy, PartialEq, Eq, Structural)]
pub enum JointKind {
    Free,
    Ball,
    Slide,
    Hinge,
}

/// How many position values a joint takes.
pub open spec fn joint_width(kind: JointKind) -> nat {
    match kind {
        JointKind::Free => 7,
        JointKind::Ball => 4,
        JointKind::Slide => 1,
        JointKind::Hinge => 1,
    }
}

/// A joint of a model; the name may be missing.
pub struct JointInfo {
    pub name: Option<String>,
    pub kind: JointKind,
}

/// The named joints of the first `n`, in order.
pub open spec fn named_joints(list: Seq<JointInfo>, n: int) -> Seq<JointModel>
    decreases n,
{
    if n <= 0 {
        seq![]
    } else {
        let rest = named_joints(list, n - 1);
        match list[n - 1].name {
            Some(name) => rest.push(
                JointModel { name: name@, dofs: joint_width(list[n - 1].kind) },
            ),
            None => rest,
        }
    }
}

/// The joints of a model in its own order, with their widths; joints without a
/// name are left out.
pub fn joint_tracks(list: &Vec<JointInfo>) -> (r: Vec<JointTrack>)
    ensures
        joints_view(r@) == named_joints(list@, list@.len() as int),
{
    let mut out: Vec<JointTrack> = Vec::new();
    let mut i: usize = 0;
    while i < list.len()
        invariant
            i <= list.len(),
            joints_view(out@) == named_joints(list@, i as int),
        decreases list.len() - i,
    {
        if let Some(name) = &list[i].name {
            let dofs: usize = match list[i].kind {
                JointKind::Free => 7,
                JointKind::Ball => 4,
                JointKind::Slide => 1,
                JointKind::Hinge => 1,
            };
            let ghost before = out@;
            out.push(JointTrack { name: name.clone(), dofs });
            assert(joints_view(out@) == joints_view(before).push(out@.last()@));
        }
        i += 1;
    }
    out
}

/// The values to write into one joint.
pub struct JointWrite {
    pub name: String,
    pub values: Vec<DoubleBits>,
}

/// The writes that play one frame: each joint gets its part of the frame. Joints whose
/// values the frame does not hold, which are the last ones, are left out.
pub open spec fn plays_frame(
    writes: Seq<JointWrite>,
    joints: Seq<JointModel>,
    frame: Seq<DoubleBits>,
) -> bool {
    &&& writes.len() <= joints.len()
    &&& forall|k: int|
        0 <= k < writes.len() ==> (#[trigger] writes[k]).name@ == joints[k].name && end(joints, k)
            <= frame.len() && writes[k].values@ == frame.subrange(
            offset(joints, k) as int,
            end(joints, k) as int,
        )
    &&& forall|k: int| writes.len() <= k < joints.len() ==> #[trigger] end(joints, k) > frame.len()
}

/// The writes that play frame `frame_idx` of a clip, one for each joint whose values
/// it holds; `None` where the clip has no such frame.
pub fn apply_trajectory_frame(clip: &RetargetedClip, frame_idx: usize) -> (r: Option<Vec<JointWrite>>)
    ensures
        match r {
            Some(writes) => frame_idx < clip.frames@.len() && plays_frame(
                writes@,
                joints_view(clip.joints@),
                clip.frames@[frame_idx as int]@,
            ),
            None => frame_idx >= clip.frames@.len(),
        },
{
    if frame_idx >= clip.frames.len() {
        return None;
    }
    let frame = &clip.frames[frame_idx];
    let ghost joints = joints_view(clip.joints@);
    let mut out: Vec<JointWrite> = Vec::new();
    let mut at: usize = 0;
    let mut k: usize = 0;
    while k < clip.joints.len() && clip.joints[k].dofs <= frame.len() - at
        invariant
            k <= clip.joints.len(),
            joints == joints_view(clip.joints@),
            at == offset(joints, k as int),
            at <= frame@.len(),
            out@.len() == k,
            forall|j: int|
                0 <= j < k ==> (#[trigger] out@[j]).name@ == joints[j].name && end(joints, j)
                    <= frame@.len() && out@[j].values@ == frame@.subrange(
                    offset(joints, j) as int,
                    end(joints, j) as int,
                ),
        decreases clip.joints.len() - k,
    {
        assert(joints[k as int] == clip.joints@[k as int]@);
        let next: usize = at + clip.joints[k].dofs;
        let part = vstd::slice::slice_subrange(frame.as_slice(), at, next);
        out.push(
            JointWrite {
                name: clip.joints[k].name.clone(),
                values: vstd::slice::slice_to_vec(part),
            },
        );
        assert(end(joints, k as int) == next);
        assert(out@[k as int].name@ == joints[k as int].name);
        assert(out@[k as int].values@ == frame@.subrange(at as int, next as int));
        at = next;
        k += 1;
    }
    proof {
        assert forall|j: int| k <= j < joints.len() implies #[trigger] end(joints, j)
            > frame@.len() by {
            assert(joints[k as int] == clip.joints@[k as int]@);
            lemma_offset_grows(joints, k + 1, j + 1);
        }
    }
    Some(out)
}

/// A frame that holds a value for every joint plays every joint.
pub proof fn whole_frames_play_every_joint(
    writes: Seq<JointWrite>,
    joints: Seq<JointModel>,
    frame: Seq<DoubleBits>,
)
    requires
        plays_frame(writes, joints, frame),
        offset(joints, joints.len() as int) <= frame.len(),
    ensures
        writes.len() == joints.len(),
{
    if writes.len() < joints.len() {
        lemma_offset_grows(joints, writes.len() as int + 1, joints.len() as int);
        assert(end(joints, writes.len() as int) <= frame.len());
    }
}

/// A geom of a model, as far as drawing its mesh needs it.
pub struct GeomInfo {
    pub kind: u32,
    /// The mesh's name; none where the geom has no mesh or the mesh no name.
    pub mesh_name: Option<String>,
    pub rgba: [FloatBits; 4],
    /// The color of the geom's material, if it has one.
    pub material_rgba: Option<[FloatBits; 4]>,
}

/// A mesh to draw: which geom it belongs to, where it lies, and its color.
pub struct MeshGeom {
    pub geom: usize,
    pub mesh_path: String,
    pub rgba: [FloatBits; 4],
}

/// Where the mesh of a geom lies, if it is drawn as one.
pub open spec fn mesh_path_of(g: GeomInfo, paths: Map<Seq<char>, String>) -> Option<String> {
    match g.mesh_name {
        Some(name) => if g.kind == MJ_GEOM_MESH && paths.contains_key(name@) {
            Some(paths[name@])
        } else {
            None
        },
        None => None,
    }
}

/// The color of a geom: its material's where it has one.
pub open spec fn geom_color(g: GeomInfo) -> [FloatBits; 4] {
    match g.material_rgba {
        Some(c) => c,
        None => g.rgba,
    }
}

/// `list` holds, in order, the geoms among the first `n` that are drawn as meshes.
pub open spec fn lists_meshes(
    list: Seq<MeshGeom>,
    geoms: Seq<GeomInfo>,
    paths: Map<Seq<char>, String>,
    n: int,
) -> bool {
    &&& forall|i: int|
        0 <= i < list.len() ==> {
            let m = #[trigger] list[i];
            &&& m.geom < n
            &&& mesh_path_of(geoms[m.geom as int], paths) matches Some(p) && p@ == m.mesh_path@
            &&& m.rgba == geom_color(geoms[m.geom as int])
        }
    &&& forall|i: int, j: int|
        0 <= i < j < list.len() ==> (#[trigger] list[i]).geom < (#[trigger] list[j]).geom
    &&& forall|g: int|
        0 <= g < n && mesh_path_of(#[trigger] geoms[g], paths) is Some ==> exists|i: int|
            0 <= i < list.len() && (#[trigger] list[i]).geom == g
}

impl MujocoScene {
    /// Every geom that is drawn as a mesh, in the model's order.
    pub fn mesh_geoms(&self, geoms: &Vec<GeomInfo>) -> (r: Vec<MeshGeom>)
        ensures
            lists_meshes(r@, geoms@, self.mesh_paths@, geoms@.len() as int),
    {
        let mut out: Vec<MeshGeom> = Vec::new();
        let mut i: usize = 0;
        while i < geoms.len()
            invariant
                i <= geoms.len(),
                lists_meshes(out@, geoms@, self.mesh_paths@, i as int),
            decreases geoms.len() - i,
        {
            let ghost before = out@;
            if geoms[i].kind == MJ_GEOM_MESH {
                if let Some(name) = &geoms[i].mesh_name {
                    if let Some(path) = self.mesh_paths.find(name.as_str()) {
                        let rgba = match geoms[i].material_rgba {
                            Some(c) => c,
                            None => geoms[i].rgba,
                        };
                        out.push(MeshGeom { geom: i, mesh_path: path.clone(), rgba });
                        assert(out@[before.len() as int].geom == i);
                    }
                }
            }
            proof {
                assert forall|g: int|
                    0 <= g < i + 1 && mesh_path_of(
                        #[trigger] geoms@[g],
                        self.mesh_paths@,
                    ) is Some implies exists|k: int|
                    0 <= k < out@.len() && (#[trigger] out@[k]).geom == g by {
                    if g < i {
                        let k = choose|k: int|
                            0 <= k < before.len() && (#[trigger] before[k]).geom == g;
                        assert(out@[k].geom == g);
                    }
                }
            }
            i += 1;
        }
        out
    }
}

/// A node of an XML document, with the attributes that tell where meshes lie.
pub struct XmlNode {
    pub is_element: bool,
    /// The local name of an element's tag.
    pub tag: String,
    pub meshdir: Option<String>,
    pub file: Option<String>,
    pub name: Option<String>,
}

pub struct NodeModel {
    pub is_element: bool,
    pub tag: Seq<char>,
    pub meshdir: Option<Seq<char>>,
    pub file: Option<Seq<char>>,
    pub name: Option<Seq<char>>,
}

/// The characters of an optional text.
pub open spec fn text_of(text: Option<String>) -> Option<Seq<char>> {
    match text {
        Some(t) => Some(t@),
        None => None,
    }
}

impl View for XmlNode {
    type V = NodeModel;

    open spec fn view(&self) -> NodeModel {
        NodeModel {
            is_element: self.is_element,
            tag: self.tag@,
            meshdir: text_of(self.meshdir),
            file: text_of(self.file),
            name: text_of(self.name),
        }
    }
}

/// The nodes of a list.
pub open spec fn nodes_view(list: Seq<XmlNode>) -> Seq<NodeModel> {
    list.map_values(|n: XmlNode| n@)
}

/// The nodes of the document that `roxmltree::Document::parse` makes of a text, in
/// document order, each with its attributes of the three names, or `None` where the
/// text is no XML.
pub uninterp spec fn xml_nodes(
    text: Seq<char>,
    meshdir: Seq<char>,
    file: Seq<char>,
    name: Seq<char>,
) -> Option<Seq<NodeModel>>;

/// `roxmltree::Document::parse`, `Document::descendants` and `Node::attribute`: every
/// node of the document in document order, an element with the local name of its tag
/// and its attributes of the names asked for. `None` where the text is no XML. The
/// result depends on the text and the names alone.
#[verifier::external_body]
fn parse_xml(text: &str, meshdir: &str, file: &str, name: &str) -> (r: Option<Vec<XmlNode>>)
    ensures
        match r {
            Some(nodes) => xml_nodes(text@, meshdir@, file@, name@) == Some(nodes_view(nodes@)),
            None => xml_nodes(text@, meshdir@, file@, name@) is None,
        },
{
    let doc = roxmltree::Document::parse(text).ok()?;
    let nodes = doc.descendants().map(|n| XmlNode {
        is_element: n.is_element(),
        tag: n.tag_name().name().to_string(),
        meshdir: n.attribute(meshdir).map(|v| v.to_string()),
        file: n.attribute(file).map(|v| v.to_string()),
        name: n.attribute(name).map(|v| v.to_string()),
    });
    Some(nodes.collect())
}

/// The nodes of a model file.
pub open spec fn model_nodes(text: Seq<char>) -> Option<Seq<NodeModel>> {
    xml_nodes(text, "meshdir"@, "file"@, "name"@)
}

/// What a node of a model file asks of whoever collects its meshes.
pub enum MeshAction {
    /// Meshes lie in this directory from now on, seen from the file's own.
    MeshDir(String),
    /// A mesh in the mesh directory. One without a name is named after its file.
    Mesh { name: Option<String>, file: String },
    /// Another model file, seen from the file's own directory.
    Open(String),
}

pub enum ActionModel {
    MeshDir(Seq<char>),
    Mesh { name: Option<Seq<char>>, file: Seq<char> },
    Open(Seq<char>),
}

impl View for MeshAction {
    type V = ActionModel;

    open spec fn view(&self) -> ActionModel {
        match *self {
            MeshAction::MeshDir(d) => ActionModel::MeshDir(d@),
            MeshAction::Mesh { name, file } => ActionModel::Mesh {
                name: text_of(name),
                file: file@,
            },
            MeshAction::Open(f) => ActionModel::Open(f@),
        }
    }
}

pub open spec fn actions_view(list: Seq<MeshAction>) -> Seq<ActionModel> {
    list.map_values(|a: MeshAction| a@)
}

/// What a node asks: a `compiler` element with a `meshdir`, a `mesh` element with a
/// `file`, and an element that pulls in another `file`; nothing else.
pub open spec fn node_action(node: NodeModel) -> Option<ActionModel> {
    if !node.is_element {
        None
    } else if node.tag == "compiler"@ {
        match node.meshdir {
            Some(d) => Some(ActionModel::MeshDir(d)),
            None => None,
        }
    } else if node.tag == "mesh"@ {
        match node.file {
            Some(f) => Some(ActionModel::Mesh { name: node.name, file: f }),
            None => None,
        }
    } else if node.tag == "include"@ {
        match node.file {
            Some(f) => Some(ActionModel::Open(f)),
            None => None,
        }
    } else {
        None
    }
}

/// What the first `n` nodes ask, in order.
pub open spec fn node_actions(nodes: Seq<NodeModel>, n: int) -> Seq<ActionModel>
    decreases n,
{
    if n <= 0 {
        seq![]
    } else {
        let rest = node_actions(nodes, n - 1);
        match node_action(nodes[n - 1]) {
            Some(a) => rest.push(a),
            None => rest,
        }
    }
}

fn action_of(node: &XmlNode) -> (r: Option<MeshAction>)
    ensures
        match r {
            Some(a) => node_action(node@) == Some(a@),
            None => node_action(node@) is None,
        },
{
    if !node.is_element {
        return None;
    }
    let tag = node.tag.as_str();
    if same_text(tag, "compiler") {
        match &node.meshdir {
            Some(d) => Some(MeshAction::MeshDir(d.clone())),
            None => None,
        }
    } else if same_text(tag, "mesh") {
        match &node.file {
            Some(f) => Some(MeshAction::Mesh { name: copy_text(&node.name), file: f.clone() }),
            None => None,
        }
    } else if same_text(tag, "include") {
        match &node.file {
            Some(f) => Some(MeshAction::Open(f.clone())),
            None => None,
        }
    } else {
        None
    }
}

fn copy_text(text: &Option<String>) -> (r: Option<String>)
    ensures
        text_of(r) == text_of(*text),
{
    match text {
        Some(t) => Some(t.clone()),
        None => None,
    }
}

/// What the nodes of a model file ask, in document order.
pub fn mesh_actions(nodes: &Vec<XmlNode>) -> (r: Vec<MeshAction>)
    ensures
        actions_view(r@) == node_actions(nodes_view(nodes@), nodes@.len() as int),
{
    let mut out: Vec<MeshAction> = Vec::new();
    let ghost all = nodes_view(nodes@);
    let mut i: usize = 0;
    while i < nodes.len()
        invariant
            i <= nodes.len(),
            all == nodes_view(nodes@),
            actions_view(out@) == node_actions(all, i as int),
        decreases nodes.len() - i,
    {
        assert(all[i as int] == nodes@[i as int]@);
        if let Some(a) = action_of(&nodes[i]) {
            let ghost before = out@;
            out.push(a);
            assert(actions_view(out@) == actions_view(before).push(a@));
        }
        i += 1;
    }
    out
}

/// What the text of a model file asks; `None` where it is no XML.
pub fn mesh_actions_of_text(text: &str) -> (r: Option<Vec<MeshAction>>)
    ensures
        match r {
            Some(list) => model_nodes(text@) matches Some(nodes) && actions_view(list@)
                == node_actions(nodes, nodes.len() as int),
            None => model_nodes(text@) is None,
        },
{
    match parse_xml(text, "meshdir", "file", "name") {
        Some(nodes) => Some(mesh_actions(&nodes)),
        None => None,
    }
}

/// A step of collecting the meshes of a model file.
pub enum MeshStep {
    /// A mesh file in a directory seen from the model file's own; in the model file's
    /// own where there is none. A mesh without a name is named after its file.
    Mesh { dir: Option<String>, name: Option<String>, file: String },
    /// Another model file, seen from the file's own directory.
    Open(String),
}

pub enum StepModel {
    Mesh { dir: Option<Seq<char>>, name: Option<Seq<char>>, file: Seq<char> },
    Open(Seq<char>),
}

impl View for MeshStep {
    type V = StepModel;

    open spec fn view(&self) -> StepModel {
        match *self {
            MeshStep::Mesh { dir, name, file } => StepModel::Mesh {
                dir: text_of(dir),
                name: text_of(name),
                file: file@,
            },
            MeshStep::Open(f) => StepModel::Open(f@),
        }
    }
}

pub open spec fn steps_view(list: Seq<MeshStep>) -> Seq<StepModel> {
    list.map_values(|s: MeshStep| s@)
}

/// The mesh directory in force after the first `n` actions: the last one set.
pub open spec fn dir_in_force(actions: Seq<ActionModel>, n: int) -> Option<Seq<char>>
    decreases n,
{
    if n <= 0 {
        None
    } else {
        match actions[n - 1] {
            ActionModel::MeshDir(d) => Some(d),
            _ => dir_in_force(actions, n - 1),
        }
    }
}

/// The steps of the first `n` actions: each mesh in the directory in force where it
/// stands, and each other file.
pub open spec fn steps_of(actions: Seq<ActionModel>, n: int) -> Seq<StepModel>
    decreases n,
{
    if n <= 0 {
        seq![]
    } else {
        let rest = steps_of(actions, n - 1);
        match actions[n - 1] {
            ActionModel::MeshDir(_) => rest,
            ActionModel::Mesh { name, file } => rest.push(
                StepModel::Mesh { dir: dir_in_force(actions, n - 1), name, file },
            ),
            ActionModel::Open(f) => rest.push(StepModel::Open(f)),
        }
    }
}

/// The steps that actions ask for, in order.
pub fn mesh_steps(actions: &Vec<MeshAction>) -> (r: Vec<MeshStep>)
    ensures
        steps_view(r@) == steps_of(actions_view(actions@), actions@.len() as int),
{
    let mut out: Vec<MeshStep> = Vec::new();
    let mut dir: Option<String> = None;
    let ghost all = actions_view(actions@);
    let mut i: usize = 0;
    while i < actions.len()
        invariant
            i <= actions.len(),
            all == actions_view(actions@),
            text_of(dir) == dir_in_force(all, i as int),
            steps_view(out@) == steps_of(all, i as int),
        decreases actions.len() - i,
    {
        let ghost before = out@;
        assert(all[i as int] == actions@[i as int]@);
        match &actions[i] {
            MeshAction::MeshDir(d) => {
                dir = Some(d.clone());
            },
            MeshAction::Mesh { name, file } => {
                let step = MeshStep::Mesh {
                    dir: copy_text(&dir),
                    name: copy_text(name),
                    file: file.clone(),
                };
                out.push(step);
                assert(steps_view(out@) == steps_view(before).push(step@));
            },
            MeshAction::Open(f) => {
                let step = MeshStep::Open(f.clone());
                out.push(step);
                assert(steps_view(out@) == steps_view(before).push(step@));
            },
        }
        i += 1;
    }
    out
}

/// The name of a mesh: its own, or the stem of its file where it has none.
pub fn mesh_name(name: &Option<String>, file: &str) -> (r: String)
    ensures
        *name matches Some(n) ==> r@ == n@,
        *name is None && plain_path(file@) ==> r@ == stem(last_part(file@)),
{
    match name {
        Some(n) => n.clone(),
        None => file_stem(file),
    }
}

/// The meshes found so far, and the model files that were walked.
pub struct MeshPaths {
    pub visited: Vec<String>,
    pub paths: NameTable<String>,
}

impl MeshPaths {
    pub fn new() -> (r: Self)
        ensures
            r.visited@.len() == 0,
            r.paths@ == Map::<Seq<char>, String>::empty(),
    {
        MeshPaths { visited: Vec::new(), paths: NameTable::new() }
    }

    /// Whether a file, by its canonical path, is to be walked: the first time it
    /// is met. So a file that pulls itself in, directly or not, is walked once.
    pub fn enter(&mut self, canonical: &str) -> (r: bool)
        ensures
            r == !views(old(self).visited@).contains(canonical@),
            final(self).paths == old(self).paths,
            views(final(self).visited@) == if r {
                views(old(self).visited@).push(canonical@)
            } else {
                views(old(self).visited@)
            },
    {
        let ghost all = views(self.visited@);
        let mut i: usize = 0;
        while i < self.visited.len()
            invariant
                i <= self.visited.len(),
                *self == *old(self),
                all == views(self.visited@),
                forall|j: int| 0 <= j < i ==> #[trigger] all[j] != canonical@,
            decreases self.visited.len() - i,
        {
            assert(all[i as int] == self.visited@[i as int]@);
            if same_text(self.visited[i].as_str(), canonical) {
                assert(all.contains(canonical@));
                return false;
            }
            i += 1;
        }
        let name = canonical.to_owned();
        self.visited.push(name);
        assert(views(self.visited@) == all.push(canonical@));
        true
    }

    /// Notes where a mesh lies; a later one of the same name counts.
    pub fn add_mesh(&mut self, name: &str, path: String)
        ensures
            final(self).visited == old(self).visited,
            final(self).paths@ == old(self).paths@.insert(name@, path),
    {
        self.paths.set(name, path);
    }
}

/// Geom `i` of a frame, cut out of its arrays: three sizes, four color values, three
/// positions and nine matrix values per geom.
pub open spec fn holds_geom(
    g: GeomFrame,
    types: Seq<u32>,
    sizes: Seq<FloatBits>,
    rgba: Seq<FloatBits>,
    xpos: Seq<FloatBits>,
    xmat: Seq<FloatBits>,
    i: int,
) -> bool {
    &&& g.kind == types[i]
    &&& g.size@ == sizes.subrange(3 * i, 3 * i + 3)
    &&& g.rgba@ == rgba.subrange(4 * i, 4 * i + 4)
    &&& g.xpos@ == xpos.subrange(3 * i, 3 * i + 3)
    &&& g.xmat@ == xmat.subrange(9 * i, 9 * i + 9)
}

fn three_at(list: &[FloatBits], at: usize) -> (r: [FloatBits; 3])
    requires
        at + 3 <= list@.len(),
    ensures
        r@ == list@.subrange(at as int, at + 3),
{
    let r = [list[at], list[at + 1], list[at + 2]];
    assert(r@ == list@.subrange(at as int, at + 3));
    r
}

fn four_at(list: &[FloatBits], at: usize) -> (r: [FloatBits; 4])
    requires
        at + 4 <= list@.len(),
    ensures
        r@ == list@.subrange(at as int, at + 4),
{
    let r = [list[at], list[at + 1], list[at + 2], list[at + 3]];
    assert(r@ == list@.subrange(at as int, at + 4));
    r
}

fn nine_at(list: &[FloatBits], at: usize) -> (r: [FloatBits; 9])
    requires
        at + 9 <= list@.len(),
    ensures
        r@ == list@.subrange(at as int, at + 9),
{
    let r = [
        list[at],
        list[at + 1],
        list[at + 2],
        list[at + 3],
        list[at + 4],
        list[at + 5],
        list[at + 6],
        list[at + 7],
        list[at + 8],
    ];
    assert(r@ == list@.subrange(at as int, at + 9));
    r
}

fn geom_at(
    types: &[u32],
    sizes: &[FloatBits],
    rgba: &[FloatBits],
    xpos: &[FloatBits],
    xmat: &[FloatBits],
    i: usize,
) -> (r: GeomFrame)
    requires
        i < types@.len(),
        3 * i + 3 <= sizes@.len(),
        4 * i + 4 <= rgba@.len(),
        3 * i + 3 <= xpos@.len(),
        9 * i + 9 <= xmat@.len(),
    ensures
        holds_geom(r, types@, sizes@, rgba@, xpos@, xmat@, i as int),
{
    assert(xmat.len() <= usize::MAX);
    GeomFrame {
        kind: types[i],
        size: three_at(sizes, 3 * i),
        rgba: four_at(rgba, 4 * i),
        xpos: three_at(xpos, 3 * i),
        xmat: nine_at(xmat, 9 * i),
    }
}

/// The state that is shared with a simulation in another module, which polls it
/// and reports back each frame.
pub struct MujocoBridge {
    pub model_xml: Option<String>,
    pub geoms: Vec<GeomFrame>,
    /// Geoms that are watched, with their number once it was reported.
    pub watched_geoms: NameTable<Option<u32>>,
    /// Joints that are watched, with their degree of freedom once it was reported.
    pub watched_joints: NameTable<Option<u32>>,
    pub playing: bool,
    pub speed: FloatBits,
    pub single_step_requested: bool,
    pub reset_requested: bool,
}

impl MujocoBridge {
    pub fn new() -> (r: Self)
        ensures
            r.model_xml is None,
            r.geoms@.len() == 0,
            r.watched_geoms@ == Map::<Seq<char>, Option<u32>>::empty(),
            r.watched_joints@ == Map::<Seq<char>, Option<u32>>::empty(),
            r.playing,
            r.speed == ONE,
            !r.single_step_requested,
            !r.reset_requested,
    {
        MujocoBridge {
            model_xml: None,
            geoms: Vec::new(),
            watched_geoms: NameTable::new(),
            watched_joints: NameTable::new(),
            playing: true,
            speed: ONE,
            single_step_requested: false,
            reset_requested: false,
        }
    }

    pub fn set_model_xml(&mut self, xml: String)
        ensures
            *final(self) == (MujocoBridge { model_xml: Some(xml), ..*old(self) }),
    {
        self.model_xml = Some(xml);
    }

    pub fn set_playback(&mut self, playing: bool, speed: FloatBits)
        ensures
            *final(self) == (MujocoBridge { playing, speed, ..*old(self) }),
    {
        self.playing = playing;
        self.speed = speed;
    }

    pub fn request_single_step(&mut self)
        ensures
            *final(self) == (MujocoBridge { single_step_requested: true, ..*old(self) }),
    {
        self.single_step_requested = true;
    }

    pub fn request_reset(&mut self)
        ensures
            *final(self) == (MujocoBridge { reset_requested: true, ..*old(self) }),
    {
        self.reset_requested = true;
    }

    /// Watches a geom; what was reported of it stays.
    pub fn watch_geom(&mut self, name: &str)
        ensures
            final(self).watched_geoms@ == if old(self).watched_geoms@.contains_key(name@) {
                old(self).watched_geoms@
            } else {
                old(self).watched_geoms@.insert(name@, None)
            },
            *final(self) == (MujocoBridge {
                watched_geoms: final(self).watched_geoms,
                ..*old(self)
            }),
    {
        if self.watched_geoms.find(name).is_none() {
            self.watched_geoms.set(name, None);
        }
    }

    /// Watches a joint; what was reported of it stays.
    pub fn watch_joint(&mut self, name: &str)
        ensures
            final(self).watched_joints@ == if old(self).watched_joints@.contains_key(name@) {
                old(self).watched_joints@
            } else {
                old(self).watched_joints@.insert(name@, None)
            },
            *final(self) == (MujocoBridge {
                watched_joints: final(self).watched_joints,
                ..*old(self)
            }),
    {
        if self.watched_joints.find(name).is_none() {
            self.watched_joints.set(name, None);
        }
    }

    /// What was reported under a name.
    pub open spec fn reported(table: Map<Seq<char>, Option<u32>>, name: Seq<char>) -> Option<u32> {
        if table.contains_key(name) {
            table[name]
        } else {
            None
        }
    }

    pub fn named_geom_id(&self, name: &str) -> (r: Option<u32>)
        ensures
            r == Self::reported(self.watched_geoms@, name@),
    {
        match self.watched_geoms.find(name) {
            Some(id) => *id,
            None => None,
        }
    }

    pub fn named_joint_dof(&self, name: &str) -> (r: Option<u32>)
        ensures
            r == Self::reported(self.watched_joints@, name@),
    {
        match self.watched_joints.find(name) {
            Some(id) => *id,
            None => None,
        }
    }

    /// The model's text, empty until there is one.
    pub fn mj_bridge_model_xml(&self) -> (r: String)
        ensures
            r@ == match self.model_xml {
                Some(xml) => xml@,
                None => seq![],
            },
    {
        match &self.model_xml {
            Some(xml) => xml.clone(),
            None => String::new(),
        }
    }

    pub fn mj_bridge_playing(&self) -> (r: bool)
        ensures
            r == self.playing,
    {
        self.playing
    }

    pub fn mj_bridge_speed(&self) -> (r: FloatBits)
        ensures
            r == self.speed,
    {
        self.speed
    }

    /// Whether a step was requested since the last call.
    pub fn mj_bridge_take_single_step_requested(&mut self) -> (r: bool)
        ensures
            r == old(self).single_step_requested,
            *final(self) == (MujocoBridge { single_step_requested: false, ..*old(self) }),
    {
        let r = self.single_step_requested;
        self.single_step_requested = false;
        r
    }

    /// Whether a reset was requested since the last call.
    pub fn mj_bridge_take_reset_requested(&mut self) -> (r: bool)
        ensures
            r == old(self).reset_requested,
            *final(self) == (MujocoBridge { reset_requested: false, ..*old(self) }),
    {
        let r = self.reset_requested;
        self.reset_requested = false;
        r
    }

    pub fn mj_bridge_watched_geom_names(&self) -> (r: Vec<String>)
        ensures
            forall|n: Seq<char>| #[trigger]
                self.watched_geoms@.contains_key(n) <==> views(r@).contains(n),
            views(r@).no_duplicates(),
    {
        self.watched_geoms.names()
    }

    pub fn mj_bridge_watched_joint_names(&self) -> (r: Vec<String>)
        ensures
            forall|n: Seq<char>| #[trigger]
                self.watched_joints@.contains_key(n) <==> views(r@).contains(n),
            views(r@).no_duplicates(),
    {
        self.watched_joints.names()
    }

    pub fn mj_bridge_report_geom_id(&mut self, name: &str, id: u32)
        ensures
            final(self).watched_geoms@ == old(self).watched_geoms@.insert(name@, Some(id)),
            *final(self) == (MujocoBridge {
                watched_geoms: final(self).watched_geoms,
                ..*old(self)
            }),
    {
        self.watched_geoms.set(name, Some(id));
    }

    pub fn mj_bridge_report_joint_dof(&mut self, name: &str, dof_index: u32)
        ensures
            final(self).watched_joints@ == old(self).watched_joints@.insert(name@, Some(dof_index)),
            *final(self) == (MujocoBridge {
                watched_joints: final(self).watched_joints,
                ..*old(self)
            }),
    {
        self.watched_joints.set(name, Some(dof_index));
    }

    /// The arrays of a frame belong together: three sizes, four color values,
    /// three positions and nine matrix values per geom.
    pub open spec fn well_formed_arrays(
        types: Seq<u32>,
        sizes: Seq<FloatBits>,
        rgba: Seq<FloatBits>,
        xpos: Seq<FloatBits>,
        xmat: Seq<FloatBits>,
    ) -> bool {
        &&& sizes.len() == types.len() * 3
        &&& rgba.len() == types.len() * 4
        &&& xpos.len() == types.len() * 3
        &&& xmat.len() == types.len() * 9
    }

    /// Takes in the geoms of a frame; arrays that do not belong together are
    /// ignored.
    pub fn mj_bridge_set_geoms(
        &mut self,
        types: &[u32],
        sizes: &[FloatBits],
        rgba: &[FloatBits],
        xpos: &[FloatBits],
        xmat: &[FloatBits],
    )
        ensures
            !Self::well_formed_arrays(types@, sizes@, rgba@, xpos@, xmat@) ==> *final(self)
                == *old(self),
            Self::well_formed_arrays(types@, sizes@, rgba@, xpos@, xmat@) ==> {
                &&& *final(self) == (MujocoBridge { geoms: final(self).geoms, ..*old(self) })
                &&& final(self).geoms@.len() == types@.len()
                &&& forall|i: int|
                    0 <= i < types@.len() ==> holds_geom(
                        #[trigger] final(self).geoms@[i],
                        types@,
                        sizes@,
                        rgba@,
                        xpos@,
                        xmat@,
                        i,
                    )
            },
    {
        let n: usize = types.len();
        if sizes.len() % 3 != 0 || sizes.len() / 3 != n || rgba.len() % 4 != 0 || rgba.len() / 4
            != n || xpos.len() % 3 != 0 || xpos.len() / 3 != n || xmat.len() % 9 != 0 || xmat.len()
            / 9 != n {
            return;
        }
        let mut frames: Vec<GeomFrame> = Vec::new();
        let mut i: usize = 0;
        while i < n
            invariant
                i <= n,
                n == types@.len(),
                3 * n == sizes.len(),
                4 * n == rgba.len(),
                3 * n == xpos.len(),
                9 * n == xmat.len(),
                frames@.len() == i,
                forall|j: int|
                    0 <= j < i ==> holds_geom(
                        #[trigger] frames@[j],
                        types@,
                        sizes@,
                        rgba@,
                        xpos@,
                        xmat@,
                        j,
                    ),
            decreases n - i,
        {
            let g = geom_at(types, sizes, rgba, xpos, xmat, i);
            frames.push(g);
            i += 1;
        }
        self.geoms = frames;
    }

    /// Where a watched geom is, in the engine's frame; `None` until its number was
    /// reported and a frame holds it.
    pub fn geom_world_pos(&self, name: &str) -> (r: Option<Vec3>)
        ensures
            r == match Self::reported(self.watched_geoms@, name@) {
                Some(id) => if id < self.geoms@.len() {
                    let p = self.geoms@[id as int].xpos@;
                    Some(to_engine(Vec3 { x: p[0], y: p[1], z: p[2] }))
                } else {
                    None
                },
                None => None,
            },
    {
        match self.named_geom_id(name) {
            Some(id) => {
                if (id as usize) < self.geoms.len() {
                    let p = &self.geoms[id as usize].xpos;
                    Some(mj_vec3(Vec3 { x: p[0], y: p[1], z: p[2] }))
                } else {
                    None
                }
            },
            None => None,
        }
    }
}

/// A coordinate is a whole extent with a sign.
pub open spec fn is_signed(p: Part, size: FloatBits) -> bool {
    p.size == size && p.den == 1 && (p.num == 1 || p.num == -1)
}

/// A coordinate is zero.
pub open spec fn is_zero(p: Part) -> bool {
    p.num == 0 && p.den == 1
}

/// How many coordinates of two points have different signs.
pub open spec fn signs_apart(a: LocalPoint, b: LocalPoint) -> int {
    (if a.x.num != b.x.num {
        1int
    } else {
        0
    }) + (if a.y.num != b.y.num {
        1int
    } else {
        0
    }) + (if a.z.num != b.z.num {
        1int
    } else {
        0
    })
}

/// The eight corners of a box are its half extents with all eight choices of signs, and
/// no two are the same. What is asked for as a choice of signs is found.
pub proof fn box_corners_are_all_choices_of_signs(
    hx: FloatBits,
    hy: FloatBits,
    hz: FloatBits,
    i: int,
    j: int,
    sx: int,
    sy: int,
    sz: int,
)
    requires
        0 <= i < j < 8,
        sx == 1 || sx == -1,
        sy == 1 || sy == -1,
        sz == 1 || sz == -1,
    ensures
        ({
            let c = box_point(hx, hy, hz, i);
            is_signed(c.x, hx) && is_signed(c.y, hy) && is_signed(c.z, hz)
        }),
        signs_apart(box_point(hx, hy, hz, i), box_point(hx, hy, hz, j)) >= 1,
        exists|k: int| #![trigger box_point(hx, hy, hz, k)]
            0 <= k < 8 && box_point(hx, hy, hz, k).x.num == sx && box_point(hx, hy, hz, k).y.num
                == sy && box_point(hx, hy, hz, k).z.num == sz,
{
    let k = if sx == -1 && sy == -1 {
        0int
    } else if sx == 1 && sy == -1 {
        1
    } else if sx == 1 {
        2
    } else {
        3
    } + if sz == 1 {
        4int
    } else {
        0
    };
    let c = box_point(hx, hy, hz, k);
    assert(c.x.num == sx && c.y.num == sy && c.z.num == sz);
}

/// A box is drawn as twelve lines of the outline's thickness, each between two of its
/// corners, which differ in the sign of exactly one coordinate. No two lines have the
/// same ends, in either direction.
pub proof fn box_edges_change_one_sign(
    hx: FloatBits,
    hy: FloatBits,
    hz: FloatBits,
    e: int,
    f: int,
)
    requires
        0 <= e < f < 12,
    ensures
        box_wires(hx, hy, hz).len() == 12,
        box_wires(hx, hy, hz)[e] matches Wire::Line { from, to, thickness } && {
            &&& thickness == 0x3ca3_d70a
            &&& is_signed(from.x, hx) && is_signed(from.y, hy) && is_signed(from.z, hz)
            &&& is_signed(to.x, hx) && is_signed(to.y, hy) && is_signed(to.z, hz)
            &&& signs_apart(from, to) == 1
        },
        ({
            let a = box_wires(hx, hy, hz)[e];
            let b = box_wires(hx, hy, hz)[f];
            &&& !(signs_apart(a->from, b->from) == 0 && signs_apart(a->to, b->to) == 0)
            &&& !(signs_apart(a->from, b->to) == 0 && signs_apart(a->to, b->from) == 0)
        }),
{
}

/// The border of a plane goes once round its four corners, which are its half extents
/// with all four choices of signs and lie in the plane: each line changes the sign of
/// one coordinate, and begins where the one before it ended.
pub proof fn plane_borders_go_round(hx: FloatBits, hy: FloatBits, i: int, j: int)
    requires
        0 <= i < 4,
        0 <= j < 4,
        i != j,
    ensures
        plane_wires(hx, hy).len() == 30,
        plane_wires(hx, hy)[i] matches Wire::Line { from, to, thickness } && {
            &&& thickness == 0x3ca3_d70a
            &&& is_signed(from.x, hx) && is_signed(from.y, hy) && is_zero(from.z)
            &&& is_signed(to.x, hx) && is_signed(to.y, hy) && is_zero(to.z)
            &&& signs_apart(from, to) == 1
            &&& signs_apart(from, plane_wires(hx, hy)[j]->from) >= 1
            &&& plane_wires(hx, hy)[(i + 1) % 4]->from == to
        },
{
}

/// The grid of a plane has thirteen lines each way, at every sixth of the half extents
/// from one border to the other: one that runs along y at each place of x, and one that
/// runs along x at each place of y.
pub proof fn plane_grids_are_even(hx: FloatBits, hy: FloatBits, n: int)
    requires
        -6 <= n <= 6,
    ensures
        plane_wires(hx, hy)[4 + 2 * (n + 6)] matches Wire::Line { from, to, thickness } && {
            &&& thickness == 0x3c03_126f
            &&& from.x == (Part { size: hx, num: n as i32, den: 6 }) && to.x == from.x
            &&& is_signed(from.y, hy) && is_signed(to.y, hy) && from.y.num == -to.y.num
            &&& is_zero(from.z) && is_zero(to.z)
        },
        plane_wires(hx, hy)[4 + 2 * (n + 6) + 1] matches Wire::Line { from, to, thickness } && {
            &&& thickness == 0x3c03_126f
            &&& from.y == (Part { size: hy, num: n as i32, den: 6 }) && to.y == from.y
            &&& is_signed(from.x, hx) && is_signed(to.x, hx) && from.x.num == -to.x.num
            &&& is_zero(from.z) && is_zero(to.z)
        },
{
    let k = 2 * (n + 6);
    assert(plane_wires(hx, hy)[4 + k] == grid_line(hx, hy, k));
    assert(plane_wires(hx, hy)[4 + k + 1] == grid_line(hx, hy, k + 1));
    assert(k / 2 - 6 == n && (k + 1) / 2 - 6 == n);
}

/// A circle of a radius in the plane of two different axes, around a place on z.
pub open spec fn is_circle(w: Wire, radius: FloatBits, at: int, size: FloatBits) -> bool {
    w matches Wire::Circle { at: place, u, v, radius: r } && {
        &&& r == radius
        &&& u != v
        &&& place.num == at && place.den == 1 && (at != 0 ==> place.size == size)
    }
}

/// A sphere is drawn as three great circles of its radius, one without each axis.
pub proof fn spheres_show_three_great_circles(radius: FloatBits, missing: Axis)
    ensures
        sphere_wires(radius).len() == 3,
        exists|i: int| #![trigger sphere_wires(radius)[i]]
            0 <= i < 3 && is_circle(sphere_wires(radius)[i], radius, 0, 0) && sphere_wires(
                radius,
            )[i]->u != missing && sphere_wires(radius)[i]->v != missing,
{
    let w = sphere_wires(radius);
    let i = match missing {
        Axis::X => 2int,
        Axis::Y => 1,
        Axis::Z => 0,
    };
    assert(is_circle(w[i], radius, 0, 0) && w[i]->u != missing && w[i]->v != missing);
}

/// A cylinder or capsule is drawn as a circle at each end and eight lines along its
/// side, one at each eighth of the way round.
pub proof fn cylinders_show_both_ends_and_eight_sides(radius: FloatBits, half_len: FloatBits, n: int)
    requires
        0 <= n < 8,
    ensures
        ({
            let w = cylinder_wires(radius, half_len);
            &&& w.len() == 10
            &&& is_circle(w[0], radius, 1, half_len) && w[0]->u != Axis::Z && w[0]->v != Axis::Z
            &&& is_circle(w[1], radius, -1, half_len) && w[1]->u != Axis::Z && w[1]->v != Axis::Z
            &&& w[2 + n] == (Wire::Side { step: n as u32, radius, half_len })
        }),
{
}

/// The cross has one line along each axis, from a tenth on one side of the middle to a
/// tenth on the other.
pub proof fn crosses_span_all_axes()
    ensures
        cross_wires().len() == 3,
        cross_wires()[0] matches Wire::Line { from, to, thickness } && is_signed(
            from.x,
            0x3dcc_cccd,
        ) && is_signed(to.x, 0x3dcc_cccd) && from.x.num == -to.x.num && is_zero(from.y) && is_zero(
            from.z,
        ) && is_zero(to.y) && is_zero(to.z) && thickness == 0x3ca3_d70a,
        cross_wires()[1] matches Wire::Line { from, to, thickness } && is_signed(
            from.y,
            0x3dcc_cccd,
        ) && is_signed(to.y, 0x3dcc_cccd) && from.y.num == -to.y.num && is_zero(from.x) && is_zero(
            from.z,
        ) && is_zero(to.x) && is_zero(to.z) && thickness == 0x3ca3_d70a,
        cross_wires()[2] matches Wire::Line { from, to, thickness } && is_signed(
            from.z,
            0x3dcc_cccd,
        ) && is_signed(to.z, 0x3dcc_cccd) && from.z.num == -to.z.num && is_zero(from.x) && is_zero(
            from.y,
        ) && is_zero(to.x) && is_zero(to.y) && thickness == 0x3ca3_d70a,
{
}

/// Each kind of geom shows its own shape, at its own size: a plane without a positive
/// size reaches three units, and a geom of another kind shows a cross.
pub proof fn kinds_show_their_shapes(kind: u32, size: Seq<FloatBits>, other: Seq<FloatBits>)
    requires
        size.len() == 3,
        other.len() == 3,
    ensures
        kind == 0 && lt(0, size[0]) && lt(0, size[1]) ==> wires_of(kind, size) == plane_wires(
            size[0],
            size[1],
        ),
        kind == 0 && !lt(0, size[0]) && !lt(0, size[1]) ==> wires_of(kind, size) == plane_wires(
            0x4040_0000,
            0x4040_0000,
        ),
        kind == 0 && lt(0, size[0]) && !lt(0, size[1]) ==> wires_of(kind, size) == plane_wires(
            size[0],
            0x4040_0000,
        ),
        kind == 0 && !lt(0, size[0]) && lt(0, size[1]) ==> wires_of(kind, size) == plane_wires(
            0x4040_0000,
            size[1],
        ),
        kind == 2 ==> wires_of(kind, size) == sphere_wires(size[0]),
        kind == 3 || kind == 5 ==> wires_of(kind, size) == cylinder_wires(size[0], size[1]),
        kind == 6 ==> wires_of(kind, size) == box_wires(size[0], size[1], size[2]),
        kind == 7 ==> wires_of(kind, size).len() == 0,
        kind != 0 && kind != 2 && kind != 3 && kind != 5 && kind != 6 && kind != 7 ==> wires_of(
            kind,
            size,
        ) == cross_wires() && wires_of(kind, other) == wires_of(kind, size),
{
}

/// What points up in the simulation points up in the engine, what points right stays,
/// and what points away from the viewer there points towards them here: no coordinate
/// is lost, and only one changes its sign.
pub proof fn up_stays_up(v: Vec3, w: Vec3)
    ensures
        to_engine(v).y == v.z,
        to_engine(v).x == v.x,
        to_engine(v).z % 0x8000_0000 == v.y % 0x8000_0000,
        (to_engine(v).z >= 0x8000_0000) != (v.y >= 0x8000_0000),
        v != w ==> to_engine(v) != to_engine(w),
{
}

/// The axes of a geom are the columns of its matrix, turned into the engine's frame:
/// each holds its column's first number, then its third, and then its second with the
/// other sign.
pub proof fn axes_are_columns(xmat: [FloatBits; 9], r: (Vec3, Vec3, Vec3))
    requires
        call_ensures(mj_basis, (&xmat,), r),
    ensures
        r.0.x == xmat@[0] && r.0.y == xmat@[6],
        r.1.x == xmat@[1] && r.1.y == xmat@[7],
        r.2.x == xmat@[2] && r.2.y == xmat@[8],
        r.0.z % 0x8000_0000 == xmat@[3] % 0x8000_0000 && r.0.z != xmat@[3],
        r.1.z % 0x8000_0000 == xmat@[4] % 0x8000_0000 && r.1.z != xmat@[4],
        r.2.z % 0x8000_0000 == xmat@[5] % 0x8000_0000 && r.2.z != xmat@[5],
{
}

/// A scene steps only while it plays, never before a whole step of time has gone by,
/// and at most eight times in a frame; while it plays it does step then.
pub proof fn scenes_step_in_time(scene: MujocoScene, timestep: FloatBits, steps: u32, r: bool)
    requires
        call_ensures(MujocoScene::step_due, (&scene, timestep, steps), r),
    ensures
        r ==> scene.playing && !lt(scene.sim_time_accum, timestep) && steps < 8,
        scene.playing && le(timestep, scene.sim_time_accum) && steps < 8 ==> r,
{
}

proof fn lemma_named_prefix(list: Seq<JointInfo>, x: JointInfo, n: int)
    requires
        n <= list.len(),
    ensures
        named_joints(list.push(x), n) == named_joints(list, n),
    decreases n,
{
    if n > 0 {
        lemma_named_prefix(list, x, n - 1);
    }
}

/// Joint by joint: one more joint of a model adds its track behind those of the others
/// where it has a name, and nothing where it has none. A free joint takes seven values,
/// a ball four, a slide and a hinge one each.
pub proof fn named_joints_become_tracks(
    list: Vec<JointInfo>,
    more: Vec<JointInfo>,
    joint: JointInfo,
    r: Vec<JointTrack>,
    s: Vec<JointTrack>,
)
    requires
        call_ensures(joint_tracks, (&list,), r),
        call_ensures(joint_tracks, (&more,), s),
        more@ == list@.push(joint),
    ensures
        list@.len() == 0 ==> r@.len() == 0,
        joint.name is None ==> joints_view(s@) == joints_view(r@),
        joint.name matches Some(name) ==> {
            &&& s@.len() == r@.len() + 1
            &&& joints_view(s@).drop_last() == joints_view(r@)
            &&& s@.last().name@ == name@
            &&& joint.kind == JointKind::Free ==> s@.last().dofs == 7
            &&& joint.kind == JointKind::Ball ==> s@.last().dofs == 4
            &&& joint.kind == JointKind::Slide || joint.kind == JointKind::Hinge
                ==> s@.last().dofs == 1
        },
{
    lemma_named_prefix(list@, joint, list@.len() as int);
    assert(joints_view(r@).len() == r@.len());
    assert(joints_view(s@).len() == s@.len());
    if joint.name is Some {
        assert(joints_view(s@).last() == s@.last()@);
        assert(joints_view(s@).drop_last() =~= joints_view(r@));
    }
}

/// Playing a frame writes into each joint as many values as it takes, the ones that
/// stand in the frame behind those of the joints before it. A joint is left out exactly
/// where the frame ends before its values do.
pub proof fn joints_get_their_values(
    clip: RetargetedClip,
    frame: usize,
    r: Option<Vec<JointWrite>>,
    k: int,
)
    requires
        call_ensures(apply_trajectory_frame, (&clip, frame), r),
        0 <= k < clip.joints@.len(),
    ensures
        r is Some <==> frame < clip.frames@.len(),
        r matches Some(writes) ==> {
            let values = clip.frames@[frame as int]@;
            let at = offset(joints_view(clip.joints@), k) as int;
            let width = clip.joints@[k].dofs as int;
            &&& k < writes@.len() <==> at + width <= values.len()
            &&& k < writes@.len() ==> {
                &&& writes@[k].name@ == clip.joints@[k].name@
                &&& writes@[k].values@.len() == width
                &&& forall|d: int|
                    0 <= d < width ==> #[trigger] writes@[k].values@[d] == values[at + d]
            }
        },
{
    let joints = joints_view(clip.joints@);
    assert(joints[k] == clip.joints@[k]@);
    offsets_add_up(joints, k);
    if let Some(writes) = r {
        if k < writes@.len() {
            assert(writes@[k].name@ == joints[k].name);
        } else {
            assert(end(joints, k) > clip.frames@[frame as int]@.len());
        }
    }
}

/// A geom is drawn as a mesh exactly where it is one, its mesh has a name, and a path is
/// known for that name; it is drawn from there, once, in its material's color or else in
/// its own, and the geoms stand in the model's order.
pub proof fn known_meshes_are_drawn(
    scene: MujocoScene,
    geoms: Vec<GeomInfo>,
    r: Vec<MeshGeom>,
    g: int,
    i: int,
    j: int,
)
    requires
        call_ensures(MujocoScene::mesh_geoms, (&scene, &geoms), r),
        0 <= g < geoms@.len(),
    ensures
        (exists|k: int| 0 <= k < r@.len() && (#[trigger] r@[k]).geom == g) <==> {
            let info = geoms@[g];
            info.kind == 7 && (info.mesh_name matches Some(n) && scene.mesh_paths@.contains_key(n@))
        },
        0 <= i < j < r@.len() ==> r@[i].geom < r@[j].geom,
        0 <= i < r@.len() ==> {
            let info = geoms@[r@[i].geom as int];
            &&& r@[i].geom < geoms@.len()
            &&& info.mesh_name is Some
            &&& r@[i].mesh_path@ == scene.mesh_paths@[info.mesh_name->0@]@
            &&& r@[i].rgba == if info.material_rgba is Some {
                info.material_rgba->0
            } else {
                info.rgba
            }
        },
{
    if exists|k: int| 0 <= k < r@.len() && (#[trigger] r@[k]).geom == g {
        let k = choose|k: int| 0 <= k < r@.len() && (#[trigger] r@[k]).geom == g;
        assert(mesh_path_of(geoms@[r@[k].geom as int], scene.mesh_paths@) is Some);
    }
    if mesh_path_of(geoms@[g], scene.mesh_paths@) is Some {
        let k = choose|k: int| 0 <= k < r@.len() && (#[trigger] r@[k]).geom == g;
        assert(r@[k].geom == g);
    }
}

proof fn lemma_actions_prefix(nodes: Seq<NodeModel>, x: NodeModel, n: int)
    requires
        n <= nodes.len(),
    ensures
        node_actions(nodes.push(x), n) == node_actions(nodes, n),
    decreases n,
{
    if n > 0 {
        lemma_actions_prefix(nodes, x, n - 1);
    }
}

/// Node by node: one more node of a model file adds what it asks behind what the others
/// ask. A compiler's mesh directory, a mesh's file and another model's file are asked
/// for where their attribute is there; any other node asks for nothing.
pub proof fn nodes_ask_in_order(
    nodes: Vec<XmlNode>,
    more: Vec<XmlNode>,
    node: XmlNode,
    r: Vec<MeshAction>,
    s: Vec<MeshAction>,
)
    requires
        call_ensures(mesh_actions, (&nodes,), r),
        call_ensures(mesh_actions, (&more,), s),
        more@ == nodes@.push(node),
    ensures
        ({
            let directory = node.is_element && node.tag@ == "compiler"@ && node.meshdir is Some;
            let mesh = node.is_element && node.tag@ == "mesh"@ && node.file is Some;
            let opens = node.is_element && node.tag@ == "include"@ && node.file is Some;
            let before = actions_view(r@);
            let after = actions_view(s@);
            &&& nodes@.len() == 0 ==> before.len() == 0
            &&& directory ==> after == before.push(ActionModel::MeshDir(node.meshdir->0@))
            &&& mesh ==> after == before.push(
                ActionModel::Mesh { name: text_of(node.name), file: node.file->0@ },
            )
            &&& opens ==> after == before.push(ActionModel::Open(node.file->0@))
            &&& !directory && !mesh && !opens ==> after == before
        }),
{
    reveal_strlit("compiler");
    reveal_strlit("mesh");
    reveal_strlit("include");
    assert("compiler"@.len() == 8 && "mesh"@.len() == 4 && "include"@.len() == 7);
    lemma_actions_prefix(nodes_view(nodes@), node@, nodes@.len() as int);
    assert(nodes_view(more@) =~= nodes_view(nodes@).push(node@));
}

proof fn lemma_steps_prefix(actions: Seq<ActionModel>, x: ActionModel, n: int)
    requires
        n <= actions.len(),
    ensures
        steps_of(actions.push(x), n) == steps_of(actions, n),
        dir_in_force(actions.push(x), n) == dir_in_force(actions, n),
    decreases n,
{
    if n > 0 {
        lemma_steps_prefix(actions, x, n - 1);
    }
}

proof fn lemma_dir_in_force(actions: Seq<ActionModel>, n: int)
    requires
        0 <= n <= actions.len(),
    ensures
        match dir_in_force(actions, n) {
            Some(d) => exists|k: int|
                0 <= k < n && #[trigger] actions[k] == ActionModel::MeshDir(d) && forall|l: int|
                    k < l < n ==> !(#[trigger] actions[l] is MeshDir),
            None => forall|l: int| 0 <= l < n ==> !(#[trigger] actions[l] is MeshDir),
        },
    decreases n,
{
    if n > 0 {
        lemma_dir_in_force(actions, n - 1);
        if actions[n - 1] is MeshDir {
            assert(actions[n - 1] == ActionModel::MeshDir(dir_in_force(actions, n)->0));
        } else if dir_in_force(actions, n) is Some {
            let d = dir_in_force(actions, n)->0;
            let k = choose|k: int|
                0 <= k < n - 1 && #[trigger] actions[k] == ActionModel::MeshDir(d) && forall|l: int|
                    k < l < n - 1 ==> !(#[trigger] actions[l] is MeshDir);
            assert(actions[k] == ActionModel::MeshDir(d));
        }
    }
}

/// Action by action: a directory takes no step of its own; a mesh lies in the directory
/// that was named last before it, and in the model's own where none was; another file is
/// opened.
pub proof fn meshes_lie_in_the_last_directory(
    actions: Vec<MeshAction>,
    more: Vec<MeshAction>,
    action: MeshAction,
    r: Vec<MeshStep>,
    s: Vec<MeshStep>,
    k: int,
)
    requires
        call_ensures(mesh_steps, (&actions,), r),
        call_ensures(mesh_steps, (&more,), s),
        more@ == actions@.push(action),
    ensures
        ({
            let before = steps_view(r@);
            let after = steps_view(s@);
            let last = 0 <= k < actions@.len() && actions@[k] is MeshDir && forall|l: int|
                k < l < actions@.len() ==> !((#[trigger] actions@[l]) is MeshDir);
            let none = forall|l: int|
                0 <= l < actions@.len() ==> !((#[trigger] actions@[l]) is MeshDir);
            &&& actions@.len() == 0 ==> before.len() == 0
            &&& action is MeshDir ==> after == before
            &&& action matches MeshAction::Open(f) ==> after == before.push(StepModel::Open(f@))
            &&& action matches MeshAction::Mesh { name, file } ==> {
                &&& after.len() == before.len() + 1
                &&& after.drop_last() == before
                &&& last ==> after.last() == (StepModel::Mesh {
                    dir: Some(actions@[k]->MeshDir_0@),
                    name: text_of(name),
                    file: file@,
                })
                &&& none ==> after.last() == (StepModel::Mesh {
                    dir: None,
                    name: text_of(name),
                    file: file@,
                })
            }
        }),
{
    let n = actions@.len() as int;
    let all = actions_view(actions@);
    lemma_steps_prefix(all, action@, n);
    lemma_dir_in_force(all, n);
    assert(actions_view(more@) =~= all.push(action@));
    assert(steps_view(s@) == steps_of(all.push(action@), n + 1));
    if action is Mesh {
        assert(steps_view(s@).drop_last() =~= steps_view(r@));
        let last = 0 <= k < n && actions@[k] is MeshDir && forall|l: int|
            k < l < n ==> !((#[trigger] actions@[l]) is MeshDir);
        if last {
            assert(all[k] == ActionModel::MeshDir(actions@[k]->MeshDir_0@));
            assert(all[k] is MeshDir);
            assert forall|l: int| k < l < n implies !(#[trigger] all[l] is MeshDir) by {
                assert(!(actions@[l] is MeshDir));
            }
            let d = dir_in_force(all, n)->0;
            let m = choose|m: int|
                0 <= m < n && #[trigger] all[m] == ActionModel::MeshDir(d) && forall|l: int|
                    m < l < n ==> !(#[trigger] all[l] is MeshDir);
            assert(all[m] is MeshDir);
            assert(m == k);
        }
        if forall|l: int| 0 <= l < n ==> !((#[trigger] actions@[l]) is MeshDir) {
            assert forall|l: int| 0 <= l < n implies !(#[trigger] all[l] is MeshDir) by {
                assert(!(actions@[l] is MeshDir));
            }
            if dir_in_force(all, n) is Some {
                let d = dir_in_force(all, n)->0;
                let m = choose|m: int|
                    0 <= m < n && #[trigger] all[m] == ActionModel::MeshDir(d) && forall|l: int|
                        m < l < n ==> !(#[trigger] all[l] is MeshDir);
                assert(all[m] is MeshDir);
            }
        }
    }
}

/// A mesh without a name is named after its file, without directories and without its
/// extension; one with a name keeps it.
pub proof fn meshes_are_named_after_their_files(
    name: Option<String>,
    file: &str,
    r: String,
    dir: Seq<char>,
    base: Seq<char>,
    extension: Seq<char>,
)
    requires
        call_ensures(mesh_name, (&name, file), r),
        base.len() > 0,
        !base.contains('/'),
        !extension.contains('.'),
        !extension.contains('/'),
    ensures
        name matches Some(n) ==> r@ == n@,
        name is None && plain_path(file@) && file@ == dir + seq!['/'] + (base + seq!['.']
            + extension) ==> r@ == base,
        name is None && plain_path(file@) && file@ == base + seq!['.'] + extension ==> r@ == base,
{
    let whole = base + seq!['.'] + extension;
    assert(!whole.contains('/')) by {
        if whole.contains('/') {
            let i = choose|i: int| 0 <= i < whole.len() && whole[i] == '/';
            if i < base.len() {
                assert(base[i] == '/');
            } else if i > base.len() {
                assert(extension[i - base.len() - 1] == '/');
            }
        }
    }
    directories_do_not_count(dir, whole);
    one_extension_is_taken_off(base, extension);
}

/// A file is walked the first time that it is met and never again, and the others are
/// not forgotten.
pub proof fn files_are_walked_once(
    meshes: &mut MeshPaths,
    path: &str,
    r: bool,
    other: Seq<char>,
)
    requires
        call_ensures(MeshPaths::enter, (meshes, path), r),
    ensures
        r <==> !views(old(meshes).visited@).contains(path@),
        views(final(meshes).visited@).contains(path@),
        other != path@ ==> (views(final(meshes).visited@).contains(other) <==> views(
            old(meshes).visited@,
        ).contains(other)),
        final(meshes).paths == old(meshes).paths,
{
    let before = views(old(meshes).visited@);
    let after = views(final(meshes).visited@);
    if r {
        assert(after[before.len() as int] == path@);
        if before.contains(other) {
            let i = choose|i: int| 0 <= i < before.len() && before[i] == other;
            assert(after[i] == other);
        }
        if after.contains(other) && other != path@ {
            let i = choose|i: int| 0 <= i < after.len() && after[i] == other;
            assert(before[i] == other);
        }
    }
}

/// The arrays of a frame are taken in geom by geom, number by number, where they belong
/// together; where they do not, the geoms stay as they were.
pub proof fn geoms_are_cut_from_their_arrays(
    bridge: &mut MujocoBridge,
    types: &[u32],
    sizes: &[FloatBits],
    rgba: &[FloatBits],
    xpos: &[FloatBits],
    xmat: &[FloatBits],
    i: int,
    k: int,
)
    requires
        call_ensures(
            MujocoBridge::mj_bridge_set_geoms,
            (bridge, types, sizes, rgba, xpos, xmat),
            (),
        ),
    ensures
        ({
            let n = types@.len();
            let whole = sizes@.len() == 3 * n && rgba@.len() == 4 * n && xpos@.len() == 3 * n
                && xmat@.len() == 9 * n;
            let geoms = final(bridge).geoms@;
            &&& !whole ==> *final(bridge) == *old(bridge)
            &&& whole ==> geoms.len() == n
            &&& whole && 0 <= i < n ==> {
                &&& geoms[i].kind == types@[i]
                &&& 0 <= k < 3 ==> geoms[i].size@[k] == sizes@[3 * i + k]
                &&& 0 <= k < 4 ==> geoms[i].rgba@[k] == rgba@[4 * i + k]
                &&& 0 <= k < 3 ==> geoms[i].xpos@[k] == xpos@[3 * i + k]
                &&& 0 <= k < 9 ==> geoms[i].xmat@[k] == xmat@[9 * i + k]
            }
        }),
{
}

/// A watched geom is found where the last frame has it under its reported number, with
/// up along y and the other horizontal axis reversed; until both are known it is not
/// found.
pub proof fn watched_geoms_are_found(bridge: MujocoBridge, name: &str, r: Option<Vec3>)
    requires
        call_ensures(MujocoBridge::geom_world_pos, (&bridge, name), r),
    ensures
        ({
            let table = bridge.watched_geoms@;
            let known = table.contains_key(name@) && table[name@] is Some && table[name@]->0
                < bridge.geoms@.len();
            &&& r is Some <==> known
            &&& r matches Some(p) ==> {
                let at = bridge.geoms@[table[name@]->0 as int].xpos@;
                &&& p.x == at[0]
                &&& p.y == at[2]
                &&& p.z % 0x8000_0000 == at[1] % 0x8000_0000
                &&& p.z != at[1]
            }
        }),
{
}

/// Watching a geom that is not watched yet notes it without a number; watching it again
/// keeps the number that was reported. No other geom is touched.
pub proof fn watching_keeps_reports(bridge: &mut MujocoBridge, name: &str, other: Seq<char>)
    requires
        call_ensures(MujocoBridge::watch_geom, (bridge, name), ()),
    ensures
        ({
            let before = old(bridge).watched_geoms@;
            let after = final(bridge).watched_geoms@;
            &&& after.contains_key(name@)
            &&& after[name@] == if before.contains_key(name@) {
                before[name@]
            } else {
                None
            }
            &&& other != name@ ==> (after.contains_key(other) <==> before.contains_key(other))
                && after[other] == before[other]
            &&& final(bridge).watched_joints == old(bridge).watched_joints
        }),
{
}

/// The same holds of joints.
pub proof fn watching_joints_keeps_reports(bridge: &mut MujocoBridge, name: &str, other: Seq<char>)
    requires
        call_ensures(MujocoBridge::watch_joint, (bridge, name), ()),
    ensures
        ({
            let before = old(bridge).watched_joints@;
            let after = final(bridge).watched_joints@;
            &&& after.contains_key(name@)
            &&& after[name@] == if before.contains_key(name@) {
                before[name@]
            } else {
                None
            }
            &&& other != name@ ==> (after.contains_key(other) <==> before.contains_key(other))
                && after[other] == before[other]
            &&& final(bridge).watched_geoms == old(bridge).watched_geoms
        }),
{
}

/// A request is taken once: it is answered if it was made since, and then gone.
pub proof fn requests_are_taken_once(bridge: &mut MujocoBridge, r: bool)
    requires
        call_ensures(MujocoBridge::mj_bridge_take_single_step_requested, (bridge,), r),
    ensures
        r <==> old(bridge).single_step_requested,
        !final(bridge).single_step_requested,
        final(bridge).reset_requested == old(bridge).reset_requested,
        final(bridge).playing == old(bridge).playing,
{
}

/// The same holds of a reset.
pub proof fn resets_are_taken_once(bridge: &mut MujocoBridge, r: bool)
    requires
        call_ensures(MujocoBridge::mj_bridge_take_reset_requested, (bridge,), r),
    ensures
        r <==> old(bridge).reset_requested,
        !final(bridge).reset_requested,
        final(bridge).single_step_requested == old(bridge).single_step_requested,
        final(bridge).playing == old(bridge).playing,
{
}

/// A wireframe has its geom's color, and hides what is behind it whatever the geom's
/// own alpha is.
pub proof fn wires_are_opaque(rgba: [FloatBits; 4], r: Vec4)
    requires
        call_ensures(wire_color, (&rgba,), r),
    ensures
        r.x == rgba@[0] && r.y == rgba@[1] && r.z == rgba@[2],
        r.w == 0x3f80_0000,
{
}

/// A scene starts playing at its own speed with no time owed; pausing, speeding up and
/// resetting each change what they say and nothing else.
pub proof fn scenes_start_playing(paths: NameTable<String>, r: MujocoScene)
    requires
        call_ensures(MujocoScene::new, (paths,), r),
    ensures
        r.playing,
        r.speed == 0x3f80_0000,
        r.sim_time_accum == 0,
        r.mesh_paths == paths,
{
}

/// Pausing or playing on changes that alone.
pub proof fn pausing_keeps_the_time(scene: &mut MujocoScene, playing: bool)
    requires
        call_ensures(MujocoScene::set_playing, (scene, playing), ()),
    ensures
        final(scene).playing == playing,
        final(scene).speed == old(scene).speed,
        final(scene).sim_time_accum == old(scene).sim_time_accum,
        final(scene).mesh_paths == old(scene).mesh_paths,
{
}

/// A reset forgets the time that is owed, and goes on as before.
pub proof fn resets_forget_the_time(scene: &mut MujocoScene)
    requires
        call_ensures(MujocoScene::reset, (scene,), ()),
    ensures
        final(scene).sim_time_accum == 0,
        final(scene).playing == old(scene).playing,
        final(scene).speed == old(scene).speed,
        final(scene).mesh_paths == old(scene).mesh_paths,
{
}

/// What is reported of a geom is what is known of it from then on; nothing is lost of
/// the others.
pub proof fn reports_are_kept(bridge: &mut MujocoBridge, name: &str, id: u32, other: Seq<char>)
    requires
        call_ensures(MujocoBridge::mj_bridge_report_geom_id, (bridge, name, id), ()),
    ensures
        final(bridge).watched_geoms@.contains_key(name@),
        final(bridge).watched_geoms@[name@] == Some(id),
        other != name@ ==> (final(bridge).watched_geoms@.contains_key(other) <==> old(
            bridge,
        ).watched_geoms@.contains_key(other)) && final(bridge).watched_geoms@[other] == old(
            bridge,
        ).watched_geoms@[other],
        final(bridge).watched_joints == old(bridge).watched_joints,
        final(bridge).geoms == old(bridge).geoms,
{
}

/// The same holds of joints.
pub proof fn joint_reports_are_kept(
    bridge: &mut MujocoBridge,
    name: &str,
    dof: u32,
    other: Seq<char>,
)
    requires
        call_ensures(MujocoBridge::mj_bridge_report_joint_dof, (bridge, name, dof), ()),
    ensures
        final(bridge).watched_joints@.contains_key(name@),
        final(bridge).watched_joints@[name@] == Some(dof),
        other != name@ ==> (final(bridge).watched_joints@.contains_key(other) <==> old(
            bridge,
        ).watched_joints@.contains_key(other)) && final(bridge).watched_joints@[other] == old(
            bridge,
        ).watched_joints@[other],
        final(bridge).watched_geoms == old(bridge).watched_geoms,
        final(bridge).geoms == old(bridge).geoms,
{
}

/// What is known of a geom is what was reported of it; nothing is known of one that is
/// not watched.
pub proof fn reports_are_read_back(
    bridge: MujocoBridge,
    name: &str,
    geom: Option<u32>,
    joint: Option<u32>,
)
    requires
        call_ensures(MujocoBridge::named_geom_id, (&bridge, name), geom),
        call_ensures(MujocoBridge::named_joint_dof, (&bridge, name), joint),
    ensures
        bridge.watched_geoms@.contains_key(name@) ==> geom == bridge.watched_geoms@[name@],
        !bridge.watched_geoms@.contains_key(name@) ==> geom is None,
        bridge.watched_joints@.contains_key(name@) ==> joint == bridge.watched_joints@[name@],
        !bridge.watched_joints@.contains_key(name@) ==> joint is None,
{
}

/// Every edge of a box that is drawn joins two corners of it that differ in one sign;
/// see `box_edges_change_one_sign`. The lines are twelve.
pub proof fn boxes_are_drawn_edge_by_edge(
    hx: FloatBits,
    hy: FloatBits,
    hz: FloatBits,
    r: Vec<Wire>,
    e: int,
)
    requires
        call_ensures(draw_wire_box, (hx, hy, hz), r),
        0 <= e < 12,
    ensures
        r@.len() == 12,
        r@[e] matches Wire::Line { from, to, .. } && {
            &&& signs_apart(from, to) == 1
            &&& is_signed(from.x, hx) && is_signed(from.y, hy) && is_signed(from.z, hz)
            &&& is_signed(to.x, hx) && is_signed(to.y, hy) && is_signed(to.z, hz)
        },
{
    assert(r@[e] == box_wires(hx, hy, hz)[e]);
}

/// What a text asks is what its nodes ask, read with their mesh directories, files and
/// names; a text that is no XML asks nothing.
pub proof fn texts_ask_what_their_nodes_ask(
    text: &str,
    r: Option<Vec<MeshAction>>,
    nodes: Vec<XmlNode>,
    asked: Vec<MeshAction>,
)
    requires
        call_ensures(mesh_actions_of_text, (text,), r),
        call_ensures(mesh_actions, (&nodes,), asked),
    ensures
        r is Some <==> xml_nodes(text@, "meshdir"@, "file"@, "name"@) is Some,
        xml_nodes(text@, "meshdir"@, "file"@, "name"@) == Some(nodes_view(nodes@)) ==> r is Some
            && actions_view(r->0@) == actions_view(asked@),
{
    assert(nodes_view(nodes@).len() == nodes@.len());
}

} // verus!
