//! Collision shapes and ray casts.

use vstd::prelude::*;

use crate::float_bits::{
    float_le, float_lt, float_max, float_min, le, lt, max_of, min_of, negated, FloatBits, Vec3,
    Vec4, ONE,
};
#[allow(unused_imports)]
use crate::float_bits::{is_nan, neg};
use crate::handles::{due_index, AssetMappings, CollisionHandle, MappingsModel, INVALID_INDEX};

verus! {

/// The largest finite number.
pub const FLOAT_MAX: FloatBits = 0x7f7f_ffff;

#[derive(Clone, Copy, PartialEq, Eq, Structural)]
pub struct CollisionSphere {
    pub position: Vec3,
    pub radius: FloatBits,
}

/// An axis-aligned box around `position`.
#[derive(Clone, Copy, PartialEq, Eq, Structural)]
pub struct CollisionAABB {
    pub position: Vec3,
    pub extents: Vec3,
    pub block: bool,
}

#[derive(Clone, Copy, PartialEq, Eq, Structural)]
pub enum CollisionShape {
    Sphere(CollisionSphere),
    AABB(CollisionAABB),
}

/// When a ray enters a box, if it does so ahead of its start. `t_min` and `t_max`
/// are the times at which it meets the two planes of each axis.
pub open spec fn entry_time(t_min: Vec3, t_max: Vec3) -> Option<FloatBits> {
    let first_exit = min_of(
        min_of(max_of(t_min.x, t_max.x), max_of(t_min.y, t_max.y)),
        max_of(t_min.z, t_max.z),
    );
    let last_entry = max_of(
        max_of(min_of(t_min.x, t_max.x), min_of(t_min.y, t_max.y)),
        min_of(t_min.z, t_max.z),
    );
    if lt(0, last_entry) && le(last_entry, first_exit) {
        Some(last_entry)
    } else {
        None
    }
}

/// When a ray enters a box; see `entry_time`.
pub fn slab_test(t_min: &Vec3, t_max: &Vec3) -> (r: Option<FloatBits>)
    ensures
        r == entry_time(*t_min, *t_max),
{
    let first_exit = float_min(
        float_min(float_max(t_min.x, t_max.x), float_max(t_min.y, t_max.y)),
        float_max(t_min.z, t_max.z),
    );
    let last_entry = float_max(
        float_max(float_min(t_min.x, t_max.x), float_min(t_min.y, t_max.y)),
        float_min(t_min.z, t_max.z),
    );
    if float_lt(0, last_entry) && float_le(last_entry, first_exit) {
        Some(last_entry)
    } else {
        None
    }
}

/// What a ray hits first.
pub struct RayHit {
    /// When; the largest finite number where nothing is hit.
    pub time: FloatBits,
    /// What; invalid where nothing is hit.
    pub handle: CollisionHandle,
    /// Whether it blocks; `None` where nothing is hit.
    pub block: Option<bool>,
}

/// Of the boxes among `shapes`, met at `times`, `hit` is one that is entered first;
/// boxes that are entered at the largest finite number or later do not count.
pub open spec fn is_closest(
    hit: RayHit,
    shapes: Map<u32, CollisionShape>,
    times: Map<u32, (Vec3, Vec3)>,
) -> bool {
    &&& forall|k: u32| #[trigger]
        shapes.contains_key(k) && shapes[k] is AABB ==> (entry_time(times[k].0, times[k].1) matches Some(
            t,
        ) ==> !lt(t, hit.time))
    &&& if hit.handle.valid() {
        &&& shapes.contains_key(hit.handle.index)
        &&& shapes[hit.handle.index] matches CollisionShape::AABB(b) && hit.block == Some(b.block)
        &&& entry_time(times[hit.handle.index].0, times[hit.handle.index].1) == Some(hit.time)
        &&& lt(hit.time, FLOAT_MAX)
    } else {
        &&& hit.time == FLOAT_MAX
        &&& hit.block is None
    }
}

/// The planes of the boxes that were met by a ray, as `planes` gave them.
pub open spec fn times_of<Q: Fn(&CollisionAABB) -> (Vec3, Vec3)>(
    planes: Q,
    shapes: Map<u32, CollisionShape>,
    times: Map<u32, (Vec3, Vec3)>,
) -> bool {
    forall|k: u32| #[trigger]
        shapes.contains_key(k) ==> (shapes[k] matches CollisionShape::AABB(b) ==> call_ensures(
            planes,
            (&b,),
            times[k],
        ))
}

/// All collision shapes.
pub struct CollisionManager {
    pub collision_objects: AssetMappings<CollisionShape>,
}

impl Default for CollisionManager {
    fn default() -> (r: Self)
        ensures
            r.wf(),
            r.shapes() == Map::<u32, CollisionShape>::empty(),
            r.collision_objects@ == MappingsModel::<CollisionShape>::empty(),
    {
        Self::new()
    }
}

impl CollisionManager {
    /// The shapes by handle index.
    pub open spec fn shapes(&self) -> Map<u32, CollisionShape> {
        self.collision_objects@.assets
    }

    /// Every shape has a valid handle.
    pub open spec fn wf(&self) -> bool {
        !self.shapes().contains_key(INVALID_INDEX)
    }

    pub fn new() -> (r: Self)
        ensures
            r.wf(),
            r.shapes() == Map::<u32, CollisionShape>::empty(),
            r.collision_objects@ == MappingsModel::<CollisionShape>::empty(),
    {
        CollisionManager { collision_objects: AssetMappings::new() }
    }

    pub fn add_collision(&mut self, collision: &CollisionShape) -> (r: CollisionHandle)
        requires
            old(self).wf(),
        ensures
            final(self).wf(),
            r.valid(),
            r.index == due_index(old(self).collision_objects@.next),
            final(self).collision_objects@ == old(self).collision_objects@.with_asset(*collision),
    {
        let index = self.collision_objects.store(*collision);
        CollisionHandle { index }
    }

    /// Removes a shape; a handle that names none is ignored.
    pub fn remove_collision(&mut self, handle: &CollisionHandle)
        requires
            old(self).wf(),
        ensures
            final(self).wf(),
            final(self).collision_objects@ == (MappingsModel {
                assets: old(self).shapes().remove(handle.index),
                ..old(self).collision_objects@
            }),
    {
        self.collision_objects.remove(handle.index);
    }

    pub fn get_collision(&self, handle: &CollisionHandle) -> (r: CollisionShape)
        requires
            self.shapes().contains_key(handle.index),
        ensures
            r == self.shapes()[handle.index],
    {
        *self.collision_objects.get(handle.index).unwrap()
    }

    /// The shape at another place.
    pub open spec fn moved(shape: CollisionShape, position: Vec3) -> CollisionShape {
        match shape {
            CollisionShape::Sphere(s) => CollisionShape::Sphere(CollisionSphere { position, ..s }),
            CollisionShape::AABB(b) => CollisionShape::AABB(CollisionAABB { position, ..b }),
        }
    }

    /// Moves a shape and leaves everything else about it as it is.
    pub fn update_collision_position(&mut self, handle: &CollisionHandle, new_pos: &Vec3)
        requires
            old(self).wf(),
            old(self).shapes().contains_key(handle.index),
        ensures
            final(self).wf(),
            final(self).collision_objects@ == (MappingsModel {
                assets: old(self).shapes().insert(
                    handle.index,
                    Self::moved(old(self).shapes()[handle.index], *new_pos),
                ),
                ..old(self).collision_objects@
            }),
    {
        let moved = match self.get_collision(handle) {
            CollisionShape::Sphere(s) => CollisionShape::Sphere(
                CollisionSphere { position: *new_pos, radius: s.radius },
            ),
            CollisionShape::AABB(b) => CollisionShape::AABB(
                CollisionAABB { position: *new_pos, extents: b.extents, block: b.block },
            ),
        };
        self.collision_objects.replace(handle.index, moved);
    }

    /// Casts a ray against all boxes; spheres are passed through. `planes` gives
    /// the times at which the ray meets the lower and the upper planes of a box.
    /// Of boxes that are entered at the same time any one may be returned.
    pub fn cast_ray<Q: Fn(&CollisionAABB) -> (Vec3, Vec3)>(&self, planes: &Q) -> (r: RayHit)
        requires
            self.wf(),
            forall|b: &CollisionAABB| call_requires(*planes, (b,)),
        ensures
            exists|times: Map<u32, (Vec3, Vec3)>| #[trigger]
                times_of(*planes, self.shapes(), times) && is_closest(r, self.shapes(), times),
    {
        let all = self.collision_objects.indices();
        let mut hit = RayHit {
            time: FLOAT_MAX,
            handle: CollisionHandle { index: INVALID_INDEX },
            block: None,
        };
        let ghost mut times: Map<u32, (Vec3, Vec3)> = Map::empty();
        let ghost shapes = self.shapes();
        let ghost mut seen: Map<u32, CollisionShape> = Map::empty();
        let mut i: usize = 0;
        while i < all.len()
            invariant
                i <= all.len(),
                self.wf(),
                shapes == self.shapes(),
                all@.no_duplicates(),
                forall|k: u32| #[trigger] all@.contains(k) <==> shapes.contains_key(k),
                forall|b: &CollisionAABB| call_requires(*planes, (b,)),
                forall|k: u32| #[trigger] seen.contains_key(k) <==> all@.take(i as int).contains(k),
                forall|k: u32| #[trigger]
                    seen.contains_key(k) ==> shapes.contains_key(k) && seen[k] == shapes[k],
                times_of(*planes, seen, times),
                is_closest(hit, seen, times),
            decreases all.len() - i,
        {
            let index: u32 = all[i];
            assert(all@.contains(index));
            assert(!all@.take(i as int).contains(index)) by {
                if all@.take(i as int).contains(index) {
                    let j = choose|j: int| 0 <= j < i && all@.take(i as int)[j] == index;
                    assert(all@[j] == all@[i as int]);
                }
            }
            let shape = self.get_collision(&CollisionHandle { index });
            let ghost before = hit;
            let ghost old_times = times;
            let ghost old_seen = seen;
            if let CollisionShape::AABB(b) = shape {
                let (t_min, t_max) = planes(&b);
                proof {
                    times = times.insert(index, (t_min, t_max));
                }
                if let Some(t) = slab_test(&t_min, &t_max) {
                    if float_lt(t, hit.time) {
                        hit = RayHit {
                            time: t,
                            handle: CollisionHandle { index },
                            block: Some(b.block),
                        };
                    }
                }
            }
            proof {
                seen = seen.insert(index, shape);
                assert forall|k: u32| #[trigger] seen.contains_key(k) <==> all@.take(
                    i + 1,
                ).contains(k) by {
                    assert(all@.take(i + 1) == all@.take(i as int).push(index));
                    if all@.take(i as int).contains(k) {
                        let j = choose|j: int| 0 <= j < i && all@.take(i as int)[j] == k;
                        assert(all@.take(i + 1)[j] == k);
                    }
                    assert(all@.take(i + 1)[i as int] == index);
                    if all@.take(i + 1).contains(k) && k != index {
                        let next = all@.take(i + 1);
                        let j = choose|j: int| 0 <= j < i + 1 && next[j] == k;
                        assert(all@.take(i as int)[j] == k);
                    }
                }
                assert forall|k: u32| #[trigger]
                    seen.contains_key(k) && seen[k] is AABB implies (entry_time(
                    times[k].0,
                    times[k].1,
                ) matches Some(t) ==> !lt(t, hit.time)) by {
                    if k != index {
                        assert(old_seen.contains_key(k) && old_seen[k] is AABB);
                        assert(times[k] == old_times[k]);
                    }
                }
                assert forall|k: u32| #[trigger] seen.contains_key(k) implies (
                seen[k] matches CollisionShape::AABB(b) ==> call_ensures(
                    *planes,
                    (&b,),
                    times[k],
                )) by {
                    if k != index {
                        assert(old_seen.contains_key(k));
                    }
                }
                assert(is_closest(hit, seen, times));
            }
            i += 1;
        }
        proof {
            assert(all@.take(all@.len() as int) == all@);
            assert(seen =~= shapes);
            assert(times_of(*planes, shapes, times));
        }
        hit
    }

    pub fn num_collision_objects(&self) -> (r: usize)
        ensures
            r == self.shapes().dom().len(),
    {
        self.collision_objects.len()
    }
}

/// Corner `i` of a box, seen from its middle: the first four corners go round the
/// front side, the last four round the back side.
pub open spec fn corner(extents: Vec3, i: int) -> Vec3 {
    Vec3 {
        x: if i % 4 == 0 || i % 4 == 3 {
            neg(extents.x)
        } else {
            extents.x
        },
        y: if i % 4 >= 2 {
            neg(extents.y)
        } else {
            extents.y
        },
        z: if i >= 4 {
            neg(extents.z)
        } else {
            extents.z
        },
    }
}

/// The corners that edge `e` joins: four round the front, four round the back,
/// and four between the two.
pub open spec fn edge_ends(e: int) -> (int, int) {
    if e < 4 {
        (e, (e + 1) % 4)
    } else if e < 8 {
        (e, 4 + (e + 1) % 4)
    } else {
        (e - 8, e - 4)
    }
}

/// The corners that edge `e` joins; see `edge_ends`.
pub fn ends_of_edge(e: usize) -> (r: (usize, usize))
    requires
        e < 12,
    ensures
        r.0 == edge_ends(e as int).0,
        r.1 == edge_ends(e as int).1,
        r.0 < 8,
        r.1 < 8,
{
    if e < 4 {
        (e, (e + 1) % 4)
    } else if e < 8 {
        (e, 4 + (e + 1) % 4)
    } else {
        (e - 8, e - 4)
    }
}

fn box_corner(extents: &Vec3, i: usize) -> (r: Vec3)
    requires
        i < 8,
    ensures
        r == corner(*extents, i as int),
{
    Vec3 {
        x: if i % 4 == 0 || i % 4 == 3 {
            negated(extents.x)
        } else {
            extents.x
        },
        y: if i % 4 >= 2 {
            negated(extents.y)
        } else {
            extents.y
        },
        z: if i >= 4 {
            negated(extents.z)
        } else {
            extents.z
        },
    }
}

/// The twelve edges of a box as pairs of points seen from its middle.
pub fn box_edges(extents: &Vec3) -> (r: Vec<(Vec3, Vec3)>)
    ensures
        r@.len() == 12,
        forall|e: int|
            0 <= e < 12 ==> #[trigger] r@[e] == (
                corner(*extents, edge_ends(e).0),
                corner(*extents, edge_ends(e).1),
            ),
{
    let mut out: Vec<(Vec3, Vec3)> = Vec::new();
    let mut e: usize = 0;
    while e < 12
        invariant
            e <= 12,
            out@.len() == e,
            forall|k: int|
                0 <= k < e ==> #[trigger] out@[k] == (
                    corner(*extents, edge_ends(k).0),
                    corner(*extents, edge_ends(k).1),
                ),
        decreases 12 - e,
    {
        let (a, b) = ends_of_edge(e);
        out.push((box_corner(extents, a), box_corner(extents, b)));
        e += 1;
    }
    out
}

/// Each edge runs along one axis: its ends differ in exactly one coordinate, which
/// changes its sign.
pub proof fn edges_run_along_one_axis(extents: Vec3, e: int)
    requires
        0 <= e < 12,
    ensures
        ({
            let a = corner(extents, edge_ends(e).0);
            let b = corner(extents, edge_ends(e).1);
            ||| b.x == neg(a.x) && b.y == a.y && b.z == a.z
            ||| b.x == a.x && b.y == neg(a.y) && b.z == a.z
            ||| b.x == a.x && b.y == a.y && b.z == neg(a.z)
        }),
{
}

/// The shapes that debug drawing outlines: the boxes, in no particular order.
pub open spec fn outlined(shapes: Map<u32, CollisionShape>, list: Seq<(u32, CollisionAABB)>) -> bool {
    &&& forall|i: int|
        0 <= i < list.len() ==> shapes.contains_key((#[trigger] list[i]).0) && shapes[list[i].0]
            == CollisionShape::AABB(list[i].1)
    &&& forall|i: int, j: int| 0 <= i < j < list.len() ==> (#[trigger] list[i]).0 != (#[trigger] list[j]).0
    &&& forall|k: u32| #[trigger]
        shapes.contains_key(k) && shapes[k] is AABB ==> exists|i: int|
            0 <= i < list.len() && (#[trigger] list[i]).0 == k
}

/// A line of an outline: its ends are seen from `center`.
#[derive(Clone, Copy, PartialEq, Eq, Structural)]
pub struct BoxLine {
    pub center: Vec3,
    pub from: Vec3,
    pub to: Vec3,
    pub color: Vec4,
    pub thickness: FloatBits,
    pub duration: FloatBits,
}

/// 0.05.
pub const OUTLINE_THICKNESS: FloatBits = 0x3d4c_cccd;

/// 0.001.
pub const OUTLINE_DURATION: FloatBits = 0x3a83_126f;

/// The line along edge `e` of a box. It is yellow.
pub open spec fn box_line(b: CollisionAABB, e: int) -> BoxLine {
    BoxLine {
        center: b.position,
        from: corner(b.extents, edge_ends(e).0),
        to: corner(b.extents, edge_ends(e).1),
        color: Vec4 { x: ONE, y: ONE, z: 0, w: ONE },
        thickness: OUTLINE_THICKNESS,
        duration: OUTLINE_DURATION,
    }
}

/// The twelve lines of each box, box after box.
pub open spec fn box_lines(list: Seq<(u32, CollisionAABB)>) -> Seq<BoxLine> {
    Seq::new(12 * list.len(), |k: int| box_line(list[k / 12].1, k % 12))
}

impl CollisionManager {
    /// The lines that debug drawing shows: the edges of every box. Spheres have no
    /// outline.
    pub fn debug_draw(&self) -> (r: Vec<BoxLine>)
        ensures
            exists|boxes: Seq<(u32, CollisionAABB)>| #[trigger]
                outlined(self.shapes(), boxes) && r@ == box_lines(boxes),
    {
        let boxes = self.outlined_boxes();
        let mut out: Vec<BoxLine> = Vec::new();
        let mut i: usize = 0;
        while i < boxes.len()
            invariant
                i <= boxes.len(),
                out@ == box_lines(boxes@.take(i as int)),
            decreases boxes.len() - i,
        {
            let b = boxes[i].1;
            let edges = box_edges(&b.extents);
            let ghost before = out@;
            let mut e: usize = 0;
            while e < 12
                invariant
                    e <= 12,
                    edges@.len() == 12,
                    forall|k: int|
                        0 <= k < 12 ==> #[trigger] edges@[k] == (
                            corner(b.extents, edge_ends(k).0),
                            corner(b.extents, edge_ends(k).1),
                        ),
                    out@ == before + Seq::new(e as nat, |k: int| box_line(b, k)),
                decreases 12 - e,
            {
                let (from, to) = edges[e];
                out.push(
                    BoxLine {
                        center: b.position,
                        from,
                        to,
                        color: Vec4 { x: ONE, y: ONE, z: 0, w: ONE },
                        thickness: OUTLINE_THICKNESS,
                        duration: OUTLINE_DURATION,
                    },
                );
                assert(out@ == before + Seq::new((e + 1) as nat, |k: int| box_line(b, k)));
                e += 1;
            }
            proof {
                let next = box_lines(boxes@.take(i + 1));
                assert(out@.len() == next.len());
                assert forall|k: int| 0 <= k < out@.len() implies out@[k] == next[k] by {
                    if k < 12 * i {
                        assert(boxes@.take(i + 1)[k / 12] == boxes@.take(i as int)[k / 12]);
                    } else {
                        assert(k / 12 == i && k % 12 == k - 12 * i);
                    }
                }
                assert(out@ == next);
            }
            i += 1;
        }
        assert(boxes@.take(boxes@.len() as int) == boxes@);
        out
    }

    /// The boxes that debug drawing outlines.
    fn outlined_boxes(&self) -> (r: Vec<(u32, CollisionAABB)>)
        ensures
            outlined(self.shapes(), r@),
    {
        let all = self.collision_objects.indices();
        let mut out: Vec<(u32, CollisionAABB)> = Vec::new();
        let mut i: usize = 0;
        let ghost shapes = self.shapes();
        while i < all.len()
            invariant
                i <= all.len(),
                shapes == self.shapes(),
                all@.no_duplicates(),
                forall|k: u32| #[trigger] all@.contains(k) <==> shapes.contains_key(k),
                forall|j: int|
                    0 <= j < out@.len() ==> shapes.contains_key((#[trigger] out@[j]).0)
                        && shapes[out@[j].0] == CollisionShape::AABB(out@[j].1)
                        && all@.take(i as int).contains(out@[j].0),
                forall|j: int, k: int|
                    0 <= j < k < out@.len() ==> (#[trigger] out@[j]).0 != (#[trigger] out@[k]).0,
                forall|j: int|
                    0 <= j < i && shapes[#[trigger] all@[j]] is AABB ==> exists|n: int|
                        0 <= n < out@.len() && (#[trigger] out@[n]).0 == all@[j],
            decreases all.len() - i,
        {
            let index: u32 = all[i];
            assert(all@.contains(index));
            let ghost before = out@;
            assert(!all@.take(i as int).contains(index)) by {
                if all@.take(i as int).contains(index) {
                    let j = choose|j: int| 0 <= j < i && all@.take(i as int)[j] == index;
                    assert(all@[j] == all@[i as int]);
                }
            }
            if let CollisionShape::AABB(b) = self.get_collision(&CollisionHandle { index }) {
                out.push((index, b));
                assert(out@[before.len() as int].0 == index);
            }
            proof {
                assert(all@.take(i + 1)[i as int] == index);
                assert forall|j: int| 0 <= j < out@.len() implies all@.take(i + 1).contains(
                    (#[trigger] out@[j]).0,
                ) by {
                    if j < before.len() {
                        assert(all@.take(i as int).contains(before[j].0));
                        let n = choose|n: int|
                            0 <= n < i && all@.take(i as int)[n] == before[j].0;
                        assert(all@.take(i + 1)[n] == before[j].0);
                    }
                }
                assert forall|j: int|
                    0 <= j < i + 1 && shapes[#[trigger] all@[j]] is AABB implies exists|n: int|
                    0 <= n < out@.len() && (#[trigger] out@[n]).0 == all@[j] by {
                    if j < i {
                        let n = choose|n: int|
                            0 <= n < before.len() && (#[trigger] before[n]).0 == all@[j];
                        assert(out@[n].0 == all@[j]);
                    }
                }
            }
            i += 1;
        }
        proof {
            assert forall|k: u32| #[trigger]
                shapes.contains_key(k) && shapes[k] is AABB implies exists|n: int|
                0 <= n < out@.len() && (#[trigger] out@[n]).0 == k by {
                assert(all@.contains(k));
                let j = choose|j: int| 0 <= j < all@.len() && all@[j] == k;
                assert(shapes[all@[j]] is AABB);
            }
        }
        out
    }
}

/// No edge is drawn twice, in either direction.
pub proof fn edges_are_distinct(e: int, f: int)
    requires
        0 <= e < f < 12,
    ensures
        edge_ends(e) != edge_ends(f),
        edge_ends(e) != (edge_ends(f).1, edge_ends(f).0),
{
}

/// Debug drawing shows twelve lines for each box, and none for a sphere.
pub proof fn each_box_has_twelve_lines(
    shapes: Map<u32, CollisionShape>,
    boxes: Seq<(u32, CollisionAABB)>,
)
    requires
        outlined(shapes, boxes),
    ensures
        box_lines(boxes).len() == 12 * shapes.dom().filter(|k: u32| shapes[k] is AABB).len(),
{
    let keys = boxes.map_values(|b: (u32, CollisionAABB)| b.0);
    let drawn = shapes.dom().filter(|k: u32| shapes[k] is AABB);
    assert(keys.no_duplicates()) by {
        assert forall|i: int, j: int|
            0 <= i < keys.len() && 0 <= j < keys.len() && i != j implies keys[i] != keys[j] by {
            assert(keys[i] == boxes[i].0 && keys[j] == boxes[j].0);
        }
    }
    assert forall|k: u32| #[trigger] keys.to_set().contains(k) <==> drawn.contains(k) by {
        if keys.contains(k) {
            let i = choose|i: int| 0 <= i < keys.len() && keys[i] == k;
            assert(boxes[i].0 == k);
        }
        if drawn.contains(k) {
            assert(shapes.contains_key(k) && shapes[k] is AABB);
            let i = choose|i: int| 0 <= i < boxes.len() && (#[trigger] boxes[i]).0 == k;
            assert(keys[i] == k);
        }
    }
    assert(keys.to_set() =~= drawn);
    keys.unique_seq_to_set();
}

/// Something that is done to the shapes.
pub enum ShapeChange {
    Add(CollisionShape),
    Remove(u32),
    Move(u32, Vec3),
}

/// What `add_collision`, `remove_collision` and `update_collision_position` make of
/// the shapes.
pub open spec fn changed(
    m: MappingsModel<CollisionShape>,
    change: ShapeChange,
) -> MappingsModel<CollisionShape> {
    match change {
        ShapeChange::Add(shape) => m.with_asset(shape),
        ShapeChange::Remove(index) => MappingsModel { assets: m.assets.remove(index), ..m },
        ShapeChange::Move(index, position) => if m.assets.contains_key(index) {
            MappingsModel {
                assets: m.assets.insert(
                    index,
                    CollisionManager::moved(m.assets[index], position),
                ),
                ..m
            }
        } else {
            m
        },
    }
}

/// The shapes of a new manager after a run of changes.
pub open spec fn after_run(run: Seq<ShapeChange>) -> MappingsModel<CollisionShape>
    decreases run.len(),
{
    if run.len() == 0 {
        MappingsModel::empty()
    } else {
        changed(after_run(run.drop_last()), run.last())
    }
}

/// How many shapes a run added.
pub open spec fn added(run: Seq<ShapeChange>) -> nat
    decreases run.len(),
{
    if run.len() == 0 {
        0
    } else {
        added(run.drop_last()) + if run.last() is Add {
            1nat
        } else {
            0
        }
    }
}

/// The handles that a run gave out count up from zero, whatever was removed in
/// between.
pub proof fn handles_count_up(run: Seq<ShapeChange>)
    requires
        added(run) < u32::MAX,
    ensures
        due_index(after_run(run).next) == added(run),
        after_run(run).fresh_ahead(),
        after_run(run).assets.dom().finite(),
    decreases run.len(),
{
    if run.len() > 0 {
        handles_count_up(run.drop_last());
    }
}

proof fn lemma_added_grows(run: Seq<ShapeChange>, i: int)
    requires
        0 <= i <= run.len(),
    ensures
        added(run.take(i)) <= added(run),
    decreases run.len(),
{
    if i == run.len() {
        assert(run.take(i) == run);
    } else {
        assert(run.drop_last().take(i) == run.take(i));
        lemma_added_grows(run.drop_last(), i);
    }
}

/// No handle is given out twice, that of a removed shape included, until all were
/// given out once.
pub proof fn handles_never_repeat(run: Seq<ShapeChange>, i: int, j: int)
    requires
        0 <= i < j < run.len(),
        run[i] is Add,
        run[j] is Add,
        added(run.take(j)) < u32::MAX,
    ensures
        due_index(after_run(run.take(i)).next) < due_index(after_run(run.take(j)).next),
{
    let past = run.take(i + 1);
    assert(past.drop_last() == run.take(i));
    assert(past.last() is Add);
    assert(run.take(j).take(i + 1) == past);
    lemma_added_grows(run.take(j), i + 1);
    handles_count_up(run.take(i));
    handles_count_up(run.take(j));
}

/// Adding a shape makes one more, under a valid handle, and leaves the others;
/// removing it again restores the shapes; and removing what is not there, or what was
/// removed before, changes nothing.
pub proof fn removing_undoes_adding(run: Seq<ShapeChange>, shape: CollisionShape, absent: u32)
    requires
        added(run) < u32::MAX,
        !after_run(run).assets.contains_key(absent),
    ensures
        ({
            let m = after_run(run);
            let handle = due_index(m.next);
            let more = changed(m, ShapeChange::Add(shape));
            let back = changed(more, ShapeChange::Remove(handle));
            &&& handle != INVALID_INDEX
            &&& more.assets.dom().len() == m.assets.dom().len() + 1
            &&& more.assets[handle] == shape
            &&& forall|k: u32| #[trigger]
                m.assets.contains_key(k) ==> more.assets.contains_key(k) && more.assets[k]
                    == m.assets[k]
            &&& back.assets == m.assets
            &&& changed(back, ShapeChange::Remove(handle)) == back
            &&& changed(m, ShapeChange::Remove(absent)) == m
        }),
{
    handles_count_up(run);
    let m = after_run(run);
    let more = changed(m, ShapeChange::Add(shape));
    assert(!m.assets.contains_key(due_index(m.next)));
    assert(more.assets.dom() =~= m.assets.dom().insert(due_index(m.next)));
    let back = changed(more, ShapeChange::Remove(due_index(m.next)));
    assert(back.assets =~= m.assets);
    assert(changed(back, ShapeChange::Remove(due_index(m.next))).assets =~= back.assets);
    assert(changed(m, ShapeChange::Remove(absent)).assets =~= m.assets);
}

/// A time lies between the two times at which an axis' planes are met, in either order.
pub open spec fn within_slab(t: FloatBits, a: FloatBits, b: FloatBits) -> bool {
    (le(a, t) && le(t, b)) || (le(b, t) && le(t, a))
}

/// A time is the earlier one of the two at which an axis' planes are met.
pub open spec fn enters_slab(t: FloatBits, a: FloatBits, b: FloatBits) -> bool {
    (t == a && le(a, b)) || (t == b && le(b, a))
}

/// A ray enters a box at `t` where that is ahead of its start, inside the slabs of all
/// three axes, and the moment at which one of them is entered.
pub open spec fn enters_box(t: FloatBits, t_min: Vec3, t_max: Vec3) -> bool {
    &&& lt(0, t)
    &&& within_slab(t, t_min.x, t_max.x)
    &&& within_slab(t, t_min.y, t_max.y)
    &&& within_slab(t, t_min.z, t_max.z)
    &&& enters_slab(t, t_min.x, t_max.x) || enters_slab(t, t_min.y, t_max.y) || enters_slab(
        t,
        t_min.z,
        t_max.z,
    )
}

/// All six plane times are numbers.
pub open spec fn times_are_numbers(t_min: Vec3, t_max: Vec3) -> bool {
    &&& !is_nan(t_min.x) && !is_nan(t_min.y) && !is_nan(t_min.z)
    &&& !is_nan(t_max.x) && !is_nan(t_max.y) && !is_nan(t_max.z)
}

/// The time that is found is one at which the ray enters the box; every other such time
/// is the same; no positive time before it is inside all three slabs; and where none is
/// found there is none.
pub proof fn boxes_are_entered_where_all_slabs_are(t_min: Vec3, t_max: Vec3, t: FloatBits)
    requires
        times_are_numbers(t_min, t_max),
    ensures
        entry_time(t_min, t_max) matches Some(found) ==> {
            &&& enters_box(found, t_min, t_max)
            &&& enters_box(t, t_min, t_max) ==> t == found
            &&& lt(t, found) ==> !(within_slab(t, t_min.x, t_max.x) && within_slab(
                t,
                t_min.y,
                t_max.y,
            ) && within_slab(t, t_min.z, t_max.z))
        },
        entry_time(t_min, t_max) is None ==> !enters_box(t, t_min, t_max),
{
}

/// A plane time that is no number, as for a ray that runs in the plane it starts from,
/// does not count: its axis goes by the other time alone.
pub proof fn missing_times_do_not_count(t_min: Vec3, t_max: Vec3)
    ensures
        is_nan(t_min.x) ==> entry_time(t_min, t_max) == entry_time(
            (Vec3 { x: t_max.x, ..t_min }),
            t_max,
        ),
        is_nan(t_max.x) && !is_nan(t_min.x) ==> entry_time(t_min, t_max) == entry_time(
            t_min,
            (Vec3 { x: t_min.x, ..t_max }),
        ),
        is_nan(t_min.y) ==> entry_time(t_min, t_max) == entry_time(
            (Vec3 { y: t_max.y, ..t_min }),
            t_max,
        ),
        is_nan(t_max.y) && !is_nan(t_min.y) ==> entry_time(t_min, t_max) == entry_time(
            t_min,
            (Vec3 { y: t_min.y, ..t_max }),
        ),
        is_nan(t_min.z) ==> entry_time(t_min, t_max) == entry_time(
            (Vec3 { z: t_max.z, ..t_min }),
            t_max,
        ),
        is_nan(t_max.z) && !is_nan(t_min.z) ==> entry_time(t_min, t_max) == entry_time(
            t_min,
            (Vec3 { z: t_min.z, ..t_max }),
        ),
{
}

/// An axis of which neither time is a number does not count at all.
pub proof fn missing_axes_do_not_count(t_min: Vec3, t_max: Vec3)
    ensures
        is_nan(t_min.x) && is_nan(t_max.x) ==> entry_time(t_min, t_max) == entry_time(
            (Vec3 { x: t_min.y, ..t_min }),
            (Vec3 { x: t_max.y, ..t_max }),
        ),
        is_nan(t_min.y) && is_nan(t_max.y) ==> entry_time(t_min, t_max) == entry_time(
            (Vec3 { y: t_min.x, ..t_min }),
            (Vec3 { y: t_max.x, ..t_max }),
        ),
        is_nan(t_min.z) && is_nan(t_max.z) ==> entry_time(t_min, t_max) == entry_time(
            (Vec3 { z: t_min.x, ..t_min }),
            (Vec3 { z: t_max.x, ..t_max }),
        ),
{
}

/// A ray that enters some box before the largest finite time hits one: a box of those
/// there are, at the time at which it is entered, none of them earlier, and with that
/// box's own word on whether it blocks.
pub proof fn the_nearest_box_is_hit(
    hit: RayHit,
    shapes: Map<u32, CollisionShape>,
    times: Map<u32, (Vec3, Vec3)>,
    k: u32,
    b: CollisionAABB,
    t: FloatBits,
)
    requires
        is_closest(hit, shapes, times),
        shapes.contains_key(k),
        shapes[k] == CollisionShape::AABB(b),
        entry_time(times[k].0, times[k].1) == Some(t),
        lt(t, 0x7f7f_ffff),
    ensures
        ({
            let h = hit.handle.index;
            &&& h != u32::MAX
            &&& shapes.contains_key(h)
            &&& shapes[h] matches CollisionShape::AABB(nearest) && hit.block == Some(nearest.block)
            &&& entry_time(times[h].0, times[h].1) == Some(hit.time)
            &&& !lt(t, hit.time)
        }),
{
    lemma_entry_is_ahead(times[k].0, times[k].1);
}

proof fn lemma_entry_is_ahead(t_min: Vec3, t_max: Vec3)
    ensures
        entry_time(t_min, t_max) matches Some(t) ==> !is_nan(t) && lt(0, t),
{
}

/// A ray that enters no box before the largest finite time hits nothing, whatever
/// spheres stand in its way: the time is the largest finite one, the handle names
/// nothing, and there is no word on blocking.
pub proof fn without_an_entered_box_nothing_is_hit(
    hit: RayHit,
    shapes: Map<u32, CollisionShape>,
    times: Map<u32, (Vec3, Vec3)>,
)
    requires
        is_closest(hit, shapes, times),
        forall|k: u32| #[trigger]
            shapes.contains_key(k) && shapes[k] is AABB ==> (entry_time(times[k].0, times[k].1) matches Some(
                t,
            ) ==> !lt(t, 0x7f7f_ffff)),
    ensures
        hit.handle.index == u32::MAX,
        hit.time == 0x7f7f_ffff,
        hit.block is None,
{
}

/// The eight corners of a box are the eight ways to choose, for each axis, between its
/// extent and its extent's negation. No two corners are the same choice.
pub proof fn corners_are_all_choices_of_signs(extents: Vec3, c: Vec3, i: int, j: int)
    requires
        c.x == extents.x || c.x == neg(extents.x),
        c.y == extents.y || c.y == neg(extents.y),
        c.z == extents.z || c.z == neg(extents.z),
        0 <= i < j < 8,
    ensures
        exists|k: int| 0 <= k < 8 && #[trigger] corner(extents, k) == c,
        corner(extents, i) != corner(extents, j),
        corner(extents, i).x == extents.x || corner(extents, i).x == neg(extents.x),
        corner(extents, i).y == extents.y || corner(extents, i).y == neg(extents.y),
        corner(extents, i).z == extents.z || corner(extents, i).z == neg(extents.z),
{
    assert(corner(extents, 0) == c || corner(extents, 1) == c || corner(extents, 2) == c || corner(
        extents,
        3,
    ) == c || corner(extents, 4) == c || corner(extents, 5) == c || corner(extents, 6) == c
        || corner(extents, 7) == c);
}

/// Every corner of a box is the end of three of its edges, one along each axis.
pub proof fn three_edges_meet_at_a_corner(i: int)
    requires
        0 <= i < 8,
    ensures
        exists|e: int, f: int, g: int|
            0 <= e < f < g < 12 && #[trigger] touches(e, i) && #[trigger] touches(f, i)
                && #[trigger] touches(g, i),
{
    assert(touches(0, 0) && touches(3, 0) && touches(8, 0));
    assert(touches(0, 1) && touches(1, 1) && touches(9, 1));
    assert(touches(1, 2) && touches(2, 2) && touches(10, 2));
    assert(touches(2, 3) && touches(3, 3) && touches(11, 3));
    assert(touches(4, 4) && touches(7, 4) && touches(8, 4));
    assert(touches(4, 5) && touches(5, 5) && touches(9, 5));
    assert(touches(5, 6) && touches(6, 6) && touches(10, 6));
    assert(touches(6, 7) && touches(7, 7) && touches(11, 7));
}

/// Edge `e` ends in corner `i`.
pub open spec fn touches(e: int, i: int) -> bool {
    edge_ends(e).0 == i || edge_ends(e).1 == i
}

/// What `slab_test` finds is when the ray enters the box, and it finds it wherever the
/// ray does; see `enters_box`.
pub proof fn entered_boxes_are_found(
    t_min: Vec3,
    t_max: Vec3,
    r: Option<FloatBits>,
    t: FloatBits,
)
    requires
        times_are_numbers(t_min, t_max),
        call_ensures(slab_test, (&t_min, &t_max), r),
    ensures
        r matches Some(found) ==> enters_box(found, t_min, t_max),
        enters_box(t, t_min, t_max) ==> r == Some(t),
{
    boxes_are_entered_where_all_slabs_are(t_min, t_max, t);
}

/// A ray whose plane times are `f` hits a box where it enters one before the largest
/// finite time: it hits it when it is entered, and enters no box earlier. It hits no
/// sphere, and where it enters no box it hits nothing.
pub proof fn rays_hit_the_first_box<Q: Fn(&CollisionAABB) -> (Vec3, Vec3)>(
    manager: CollisionManager,
    planes: Q,
    f: spec_fn(CollisionAABB) -> (Vec3, Vec3),
    r: RayHit,
    k: u32,
    b: CollisionAABB,
    t: FloatBits,
)
    requires
        manager.wf(),
        forall|b: CollisionAABB, p: (Vec3, Vec3)| #[trigger]
            call_ensures(planes, (&b,), p) ==> p == f(b),
        forall|b: CollisionAABB| times_are_numbers((#[trigger] f(b)).0, f(b).1),
        call_ensures(CollisionManager::cast_ray::<Q>, (&manager, &planes), r),
        manager.shapes().contains_key(k),
        manager.shapes()[k] == CollisionShape::AABB(b),
    ensures
        enters_box(t, f(b).0, f(b).1) ==> !lt(t, r.time),
        enters_box(t, f(b).0, f(b).1) && lt(t, 0x7f7f_ffff) ==> r.handle.index != 0xffff_ffff,
        r.handle.index == 0xffff_ffff ==> r.time == 0x7f7f_ffff && r.block is None,
        r.handle.index != 0xffff_ffff ==> {
            &&& manager.shapes().contains_key(r.handle.index)
            &&& manager.shapes()[r.handle.index] matches CollisionShape::AABB(hit) && {
                &&& enters_box(r.time, f(hit).0, f(hit).1)
                &&& r.block == Some(hit.block)
            }
        },
{
    let shapes = manager.shapes();
    let times = choose|times: Map<u32, (Vec3, Vec3)>| #[trigger]
        times_of(planes, shapes, times) && is_closest(r, shapes, times);
    assert(call_ensures(planes, (&b,), times[k]));
    assert(times[k] == f(b));
    boxes_are_entered_where_all_slabs_are(f(b).0, f(b).1, t);
    if r.handle.index != 0xffff_ffff {
        assert(r.handle.valid());
        let h = r.handle.index;
        assert(shapes.contains_key(h));
        let hit = shapes[h]->AABB_0;
        assert(call_ensures(planes, (&hit,), times[h]));
        assert(times[h] == f(hit));
        boxes_are_entered_where_all_slabs_are(f(hit).0, f(hit).1, r.time);
    }
}

/// A shape that is moved stands at its new place with its own size, and blocks as
/// before; no other shape moves.
pub proof fn moved_shapes_keep_their_size(
    manager: &mut CollisionManager,
    handle: CollisionHandle,
    place: Vec3,
    other: u32,
)
    requires
        old(manager).wf(),
        old(manager).shapes().contains_key(handle.index),
        call_ensures(
            CollisionManager::update_collision_position,
            (manager, &handle, &place),
            (),
        ),
    ensures
        ({
            let before = old(manager).shapes();
            let after = final(manager).shapes();
            &&& after.contains_key(other) <==> before.contains_key(other)
            &&& other != handle.index ==> after[other] == before[other]
            &&& before[handle.index] matches CollisionShape::Sphere(s) ==> {
                &&& after[handle.index] matches CollisionShape::Sphere(m) && m.position == place
                    && m.radius == s.radius
            }
            &&& before[handle.index] matches CollisionShape::AABB(b) ==> {
                &&& after[handle.index] matches CollisionShape::AABB(m) && m.position == place
                    && m.extents == b.extents && m.block == b.block
            }
        }),
{
}

/// A shape that is added is found under its handle, and every other shape as before.
pub proof fn added_shapes_are_found(
    manager: &mut CollisionManager,
    shape: CollisionShape,
    r: CollisionHandle,
    other: u32,
)
    requires
        old(manager).wf(),
        call_ensures(CollisionManager::add_collision, (manager, &shape), r),
    ensures
        r.index != 0xffff_ffff,
        final(manager).shapes().contains_key(r.index),
        final(manager).shapes()[r.index] == shape,
        other != r.index ==> (final(manager).shapes().contains_key(other) <==> old(
            manager,
        ).shapes().contains_key(other)) && final(manager).shapes()[other] == old(
            manager,
        ).shapes()[other],
{
}

/// A shape that is removed is gone, and every other shape as before.
pub proof fn removed_shapes_are_gone(
    manager: &mut CollisionManager,
    handle: CollisionHandle,
    other: u32,
)
    requires
        old(manager).wf(),
        call_ensures(CollisionManager::remove_collision, (manager, &handle), ()),
    ensures
        !final(manager).shapes().contains_key(handle.index),
        other != handle.index ==> (final(manager).shapes().contains_key(other) <==> old(
            manager,
        ).shapes().contains_key(other)) && final(manager).shapes()[other] == old(
            manager,
        ).shapes()[other],
{
}

/// Two points are the ends of an edge of a box seen from its middle: every coordinate is
/// the extent or its negation, and they differ in exactly one of them.
pub open spec fn is_edge(extents: Vec3, from: Vec3, to: Vec3) -> bool {
    &&& from.x == extents.x || from.x == neg(extents.x)
    &&& from.y == extents.y || from.y == neg(extents.y)
    &&& from.z == extents.z || from.z == neg(extents.z)
    &&& {
        ||| to.x == neg(from.x) && to.y == from.y && to.z == from.z
        ||| to.x == from.x && to.y == neg(from.y) && to.z == from.z
        ||| to.x == from.x && to.y == from.y && to.z == neg(from.z)
    }
}

/// The lines of a box are twelve edges, and every edge is among them, from one end or
/// from the other.
pub proof fn every_edge_is_drawn(
    extents: Vec3,
    r: Vec<(Vec3, Vec3)>,
    from: Vec3,
    to: Vec3,
    e: int,
)
    requires
        call_ensures(box_edges, (&extents,), r),
        is_edge(extents, from, to),
    ensures
        r@.len() == 12,
        0 <= e < 12 ==> is_edge(extents, r@[e].0, r@[e].1),
        exists|k: int|
            0 <= k < 12 && (#[trigger] r@[k] == (from, to) || r@[k] == (to, from)),
{
    if 0 <= e < 12 {
        edges_run_along_one_axis(extents, e);
        let (a, b) = edge_ends(e);
        assert(r@[e] == (corner(extents, a), corner(extents, b)));
    }
    let p = |k: int| r@[k] == (from, to) || r@[k] == (to, from);
    assert(p(0) || p(1) || p(2) || p(3) || p(4) || p(5) || p(6) || p(7) || p(8) || p(9) || p(10)
        || p(11));
}

/// A line of an outline belongs to a box that is there: it is one of its edges about
/// the box's own place, thin, yellow and gone with the next frame. The lines come in
/// twelves, and every box has its twelve.
pub proof fn outlines_show_the_boxes(
    manager: CollisionManager,
    r: Vec<BoxLine>,
    i: int,
    k: u32,
    b: CollisionAABB,
)
    requires
        call_ensures(CollisionManager::debug_draw, (&manager,), r),
        manager.shapes().contains_key(k),
        manager.shapes()[k] == CollisionShape::AABB(b),
    ensures
        r@.len() % 12 == 0,
        0 <= i < r@.len() ==> {
            let line = r@[i];
            &&& exists|h: u32| #[trigger]
                manager.shapes().contains_key(h) && (
                manager.shapes()[h] matches CollisionShape::AABB(owner) && line.center
                    == owner.position && is_edge(owner.extents, line.from, line.to))
            &&& line.color == (Vec4 { x: 0x3f80_0000, y: 0x3f80_0000, z: 0, w: 0x3f80_0000 })
            &&& line.thickness == 0x3d4c_cccd
            &&& line.duration == 0x3a83_126f
        },
        exists|n: int|
            0 <= n && #[trigger] r@[12 * n].center == b.position && 12 * n + 12 <= r@.len()
                && forall|e: int|
                0 <= e < 12 ==> (#[trigger] r@[12 * n + e]).center == b.position && is_edge(
                    b.extents,
                    r@[12 * n + e].from,
                    r@[12 * n + e].to,
                ),
{
    let shapes = manager.shapes();
    let boxes = choose|boxes: Seq<(u32, CollisionAABB)>| #[trigger]
        outlined(shapes, boxes) && r@ == box_lines(boxes);
    assert(r@.len() == 12 * boxes.len());
    if 0 <= i < r@.len() {
        let owner = boxes[i / 12];
        assert(0 <= i / 12 < boxes.len() && 0 <= i % 12 < 12);
        assert(shapes.contains_key(owner.0));
        assert(r@[i] == box_line(owner.1, i % 12));
        edges_run_along_one_axis(owner.1.extents, i % 12);
    }
    let n = choose|n: int| 0 <= n < boxes.len() && (#[trigger] boxes[n]).0 == k;
    assert(boxes[n].1 == b);
    assert forall|e: int| 0 <= e < 12 implies (#[trigger] r@[12 * n + e]).center == b.position
        && is_edge(b.extents, r@[12 * n + e].from, r@[12 * n + e].to) by {
        assert((12 * n + e) / 12 == n && (12 * n + e) % 12 == e);
        assert(r@[12 * n + e] == box_line(b, e));
        edges_run_along_one_axis(b.extents, e);
    }
    assert(r@[12 * n + 0].center == b.position);
    assert(r@[12 * n].center == b.position);
}

} // verus!
