//! Recorded joint trajectories and their retargeting onto another model.
//!
//! Retargeting reorders and filters joints by name. It does not account for other
//! link lengths or kinematics.

use std::collections::hash_map::DefaultHasher;
use std::hash::Hasher;

use vstd::bytes::u64_to_le_bytes;
#[allow(unused_imports)]
use vstd::bytes::{
    lemma_auto_spec_u64_to_from_le_bytes, spec_u64_from_le_bytes, spec_u64_to_le_bytes,
};
use vstd::prelude::*;
#[allow(unused_imports)]
use vstd::std_specs::hash::DefaultHasherAdditionalSpecFns;
#[allow(unused_imports)]
use vstd::utf8::{encode_utf8, encode_utf8_decode_utf8};

use crate::float_bits::{DoubleBits, FloatBits};
use crate::text::{same_text, string_of};

verus! {

/// One joint of a frame: its name, and how many consecutive values it takes (one
/// for a hinge or slide, four for a ball, seven for a free joint).
#[derive(Debug)]
pub struct JointTrack {
    pub name: String,
    pub dofs: usize,
}

/// Name and width of a joint.
pub struct JointModel {
    pub name: Seq<char>,
    pub dofs: nat,
}

impl View for JointTrack {
    type V = JointModel;

    open spec fn view(&self) -> JointModel {
        JointModel { name: self.name@, dofs: self.dofs as nat }
    }
}

/// The joints of a list.
pub open spec fn joints_view(list: Seq<JointTrack>) -> Seq<JointModel> {
    list.map_values(|j: JointTrack| j@)
}

/// The frames of a list.
pub open spec fn frames_view(list: Seq<Vec<DoubleBits>>) -> Seq<Seq<DoubleBits>> {
    list.map_values(|f: Vec<DoubleBits>| f@)
}

/// A trajectory as it was recorded: the joints in the order in which each frame
/// packs their values, and the frames.
pub struct TrajectoryClip {
    pub joints: Vec<JointTrack>,
    /// Seconds between frames.
    pub dt: FloatBits,
    pub frames: Vec<Vec<DoubleBits>>,
}

/// A trajectory for a particular model: the values of each frame line up with
/// `joints`.
pub struct RetargetedClip {
    pub dt: FloatBits,
    pub joints: Vec<JointTrack>,
    pub frames: Vec<Vec<DoubleBits>>,
    /// Free joints of the source for which the model has no joint, one frame per
    /// entry of `frames`.
    pub unmatched: Vec<JointTrack>,
    pub unmatched_frames: Vec<Vec<DoubleBits>>,
}

/// Where the values of joint `i` begin in a frame.
pub open spec fn offset(joints: Seq<JointModel>, i: int) -> nat
    decreases i,
{
    if i <= 0 {
        0
    } else {
        offset(joints, i - 1) + joints[i - 1].dofs
    }
}

/// Where the values of joint `i` end in a frame.
pub open spec fn end(joints: Seq<JointModel>, i: int) -> nat {
    offset(joints, i) + joints[i].dofs
}

/// The first joint of that name.
pub open spec fn first_named(joints: Seq<JointModel>, name: Seq<char>) -> Option<int>
    decreases joints.len(),
{
    if joints.len() == 0 {
        None
    } else {
        match first_named(joints.drop_last(), name) {
            Some(i) => Some(i),
            None => if joints.last().name == name {
                Some(joints.len() - 1)
            } else {
                None
            },
        }
    }
}

/// The source joint that drives a joint of the model: the first one of its name,
/// if that has the same width.
pub open spec fn pick(source: Seq<JointModel>, joint: JointModel) -> Option<int> {
    match first_named(source, joint.name) {
        Some(i) => if source[i].dofs == joint.dofs {
            Some(i)
        } else {
            None
        },
        None => None,
    }
}

/// The source joints that drive the model's joints, in the model's order; joints
/// of the model that nothing drives are left out.
pub open spec fn picks(source: Seq<JointModel>, target: Seq<JointModel>) -> Seq<int>
    decreases target.len(),
{
    if target.len() == 0 {
        seq![]
    } else {
        let rest = picks(source, target.drop_last());
        match pick(source, target.last()) {
            Some(i) => rest.push(i),
            None => rest,
        }
    }
}

/// The free joints among the first `n` of the source that drive no joint of the
/// model, in the source's order.
pub open spec fn leftovers(source: Seq<JointModel>, picked: Seq<int>, n: int) -> Seq<int>
    decreases n,
{
    if n <= 0 {
        seq![]
    } else {
        let rest = leftovers(source, picked, n - 1);
        if source[n - 1].dofs == 7 && !picked.contains(n - 1) {
            rest.push(n - 1)
        } else {
            rest
        }
    }
}

/// The joints at some indices.
pub open spec fn joints_at(source: Seq<JointModel>, list: Seq<int>) -> Seq<JointModel> {
    list.map_values(|i: int| source[i])
}

/// The values of some joints of a frame, one joint after the other.
pub open spec fn packed_frame(source: Seq<JointModel>, frame: Seq<DoubleBits>, list: Seq<int>) -> Seq<
    DoubleBits,
>
    decreases list.len(),
{
    if list.len() == 0 {
        seq![]
    } else {
        packed_frame(source, frame, list.drop_last()) + frame.subrange(
            offset(source, list.last()) as int,
            end(source, list.last()) as int,
        )
    }
}

/// All frames, reduced to the values of some joints.
pub open spec fn packed_frames(
    source: Seq<JointModel>,
    frames: Seq<Seq<DoubleBits>>,
    list: Seq<int>,
) -> Seq<Seq<DoubleBits>> {
    frames.map_values(|f: Seq<DoubleBits>| packed_frame(source, f, list))
}

/// The frames hold values for every joint of the list.
pub open spec fn frames_cover(
    source: Seq<JointModel>,
    frames: Seq<Seq<DoubleBits>>,
    list: Seq<int>,
) -> bool {
    forall|f: int, k: int|
        0 <= f < frames.len() && 0 <= k < list.len() ==> end(source, #[trigger] list[k]) <= (
        #[trigger] frames[f]).len()
}

proof fn lemma_first_named(joints: Seq<JointModel>, name: Seq<char>)
    ensures
        match first_named(joints, name) {
            Some(i) => 0 <= i < joints.len() && joints[i].name == name && forall|j: int|
                0 <= j < i ==> (#[trigger] joints[j]).name != name,
            None => forall|j: int| 0 <= j < joints.len() ==> (#[trigger] joints[j]).name != name,
        },
    decreases joints.len(),
{
    if joints.len() > 0 {
        lemma_first_named(joints.drop_last(), name);
        let less = joints.drop_last();
        match first_named(less, name) {
            Some(i) => {
                assert(less[i] == joints[i]);
                assert forall|j: int| 0 <= j < i implies (#[trigger] joints[j]).name != name by {
                    assert(less[j] == joints[j]);
                }
            },
            None => {
                assert forall|j: int| 0 <= j < joints.len() - 1 implies (
                #[trigger] joints[j]).name != name by {
                    assert(less[j] == joints[j]);
                }
            },
        }
    }
}

proof fn lemma_first_named_is(joints: Seq<JointModel>, name: Seq<char>, i: int)
    requires
        0 <= i < joints.len(),
        joints[i].name == name,
        forall|j: int| 0 <= j < i ==> (#[trigger] joints[j]).name != name,
    ensures
        first_named(joints, name) == Some(i),
{
    lemma_first_named(joints, name);
}

pub(crate) proof fn lemma_offset_grows(joints: Seq<JointModel>, i: int, j: int)
    requires
        0 <= i <= j,
    ensures
        offset(joints, i) <= offset(joints, j),
    decreases j,
{
    if i < j {
        lemma_offset_grows(joints, i, j - 1);
    }
}

fn find_joint(joints: &Vec<JointTrack>, name: &str) -> (r: Option<usize>)
    ensures
        match r {
            Some(i) => i < joints@.len() && first_named(joints_view(joints@), name@) == Some(
                i as int,
            ),
            None => first_named(joints_view(joints@), name@) is None,
        },
{
    let ghost all = joints_view(joints@);
    let mut i: usize = 0;
    while i < joints.len()
        invariant
            i <= joints.len(),
            all == joints_view(joints@),
            forall|j: int| 0 <= j < i ==> (#[trigger] all[j]).name != name@,
        decreases joints.len() - i,
    {
        assert(all[i as int].name == joints@[i as int].name@);
        if same_text(joints[i].name.as_str(), name) {
            proof {
                lemma_first_named_is(all, name@, i as int);
            }
            return Some(i);
        }
        i += 1;
    }
    proof {
        lemma_first_named(all, name@);
    }
    None
}

fn copy_joint(joint: &JointTrack) -> (r: JointTrack)
    ensures
        r@ == joint@,
{
    JointTrack { name: joint.name.clone(), dofs: joint.dofs }
}

/// Indices as integers.
pub open spec fn ints(list: Seq<usize>) -> Seq<int> {
    list.map_values(|i: usize| i as int)
}

impl TrajectoryClip {
    /// The joints of the clip.
    pub open spec fn source(&self) -> Seq<JointModel> {
        joints_view(self.joints@)
    }

    /// The source joints that are kept for a model.
    pub open spec fn kept(&self, target: Seq<JointTrack>) -> Seq<int> {
        picks(self.source(), joints_view(target))
    }

    /// The free joints that drive nothing in the model.
    pub open spec fn left(&self, target: Seq<JointTrack>) -> Seq<int> {
        leftovers(self.source(), self.kept(target), self.joints@.len() as int)
    }

    /// The widths of all joints can be added up.
    pub open spec fn countable(&self) -> bool {
        offset(self.source(), self.joints@.len() as int) <= usize::MAX
    }

    /// The widths can be added up, and every frame has values for the joints that a
    /// model needs.
    pub open spec fn covers(&self, target: Seq<JointTrack>) -> bool {
        &&& self.countable()
        &&& frames_cover(self.source(), frames_view(self.frames@), self.kept(target))
        &&& frames_cover(self.source(), frames_view(self.frames@), self.left(target))
    }

    /// What the clip is on a model: the kept joints with their values, and the free
    /// ones that drive nothing with theirs.
    pub open spec fn is_retargeted(&self, target: Seq<JointTrack>, r: RetargetedClip) -> bool {
        let source = self.source();
        let frames = frames_view(self.frames@);
        &&& r.dt == self.dt
        &&& joints_view(r.joints@) == joints_at(source, self.kept(target))
        &&& frames_view(r.frames@) == packed_frames(source, frames, self.kept(target))
        &&& joints_view(r.unmatched@) == joints_at(source, self.left(target))
        &&& frames_view(r.unmatched_frames@) == packed_frames(source, frames, self.left(target))
    }

    /// Where each joint begins in a frame, and its width.
    pub fn joint_offsets(&self) -> (r: Vec<(usize, usize)>)
        requires
            self.countable(),
        ensures
            r@.len() == self.joints@.len(),
            forall|i: int|
                0 <= i < r@.len() ==> (#[trigger] r@[i]).0 == offset(self.source(), i) && r@[i].1
                    == self.joints@[i].dofs,
    {
        let mut offsets: Vec<(usize, usize)> = Vec::new();
        let mut cursor: usize = 0;
        let mut i: usize = 0;
        while i < self.joints.len()
            invariant
                i <= self.joints.len(),
                self.countable(),
                cursor == offset(self.source(), i as int),
                offsets@.len() == i,
                forall|k: int|
                    0 <= k < i ==> (#[trigger] offsets@[k]).0 == offset(self.source(), k)
                        && offsets@[k].1 == self.joints@[k].dofs,
            decreases self.joints.len() - i,
        {
            proof {
                lemma_offset_grows(self.source(), i + 1, self.joints@.len() as int);
                assert(self.source()[i as int].dofs == self.joints@[i as int].dofs);
            }
            offsets.push((cursor, self.joints[i].dofs));
            cursor += self.joints[i].dofs;
            i += 1;
        }
        offsets
    }

    fn pack(&self, offsets: &Vec<(usize, usize)>, list: &Vec<usize>) -> (r: Vec<Vec<DoubleBits>>)
        requires
            offsets@.len() == self.joints@.len(),
            forall|i: int|
                0 <= i < offsets@.len() ==> (#[trigger] offsets@[i]).0 == offset(self.source(), i)
                    && offsets@[i].1 == self.joints@[i].dofs,
            forall|k: int| 0 <= k < list@.len() ==> (#[trigger] list@[k]) < self.joints@.len(),
            frames_cover(self.source(), frames_view(self.frames@), ints(list@)),
        ensures
            frames_view(r@) == packed_frames(
                self.source(),
                frames_view(self.frames@),
                ints(list@),
            ),
    {
        let ghost source = self.source();
        let ghost all = frames_view(self.frames@);
        let ghost want = packed_frames(source, all, ints(list@));
        let mut out: Vec<Vec<DoubleBits>> = Vec::new();
        let mut f: usize = 0;
        while f < self.frames.len()
            invariant
                f <= self.frames.len(),
                source == self.source(),
                all == frames_view(self.frames@),
                want == packed_frames(source, all, ints(list@)),
                offsets@.len() == self.joints@.len(),
                forall|i: int|
                    0 <= i < offsets@.len() ==> (#[trigger] offsets@[i]).0 == offset(source, i)
                        && offsets@[i].1 == self.joints@[i].dofs,
                forall|k: int| 0 <= k < list@.len() ==> (#[trigger] list@[k]) < self.joints@.len(),
                frames_cover(source, all, ints(list@)),
                out@.len() == f,
                frames_view(out@) == want.take(f as int),
            decreases self.frames.len() - f,
        {
            let frame = &self.frames[f];
            assert(all[f as int] == frame@);
            let mut values: Vec<DoubleBits> = Vec::new();
            let mut k: usize = 0;
            assert(ints(list@).take(0).len() == 0);
            while k < list.len()
                invariant
                    k <= list.len(),
                    f < self.frames.len(),
                    source == self.source(),
                    all == frames_view(self.frames@),
                    all[f as int] == frame@,
                    offsets@.len() == self.joints@.len(),
                    forall|i: int|
                        0 <= i < offsets@.len() ==> (#[trigger] offsets@[i]).0 == offset(source, i)
                            && offsets@[i].1 == self.joints@[i].dofs,
                    forall|k: int|
                        0 <= k < list@.len() ==> (#[trigger] list@[k]) < self.joints@.len(),
                    frames_cover(source, all, ints(list@)),
                    values@ == packed_frame(source, frame@, ints(list@).take(k as int)),
                decreases list.len() - k,
            {
                let i: usize = list[k];
                let (start, dofs) = offsets[i];
                proof {
                    assert(ints(list@)[k as int] == i);
                    assert(all[f as int].len() == frame@.len());
                    assert(source[i as int].dofs == dofs);
                    assert(end(source, ints(list@)[k as int]) <= all[f as int].len());
                    assert(start + dofs <= frame.len());
                    assert(ints(list@).take(k + 1).drop_last() == ints(list@).take(k as int));
                }
                values.extend_from_slice(
                    vstd::slice::slice_subrange(frame.as_slice(), start, start + dofs),
                );
                k += 1;
            }
            assert(ints(list@).take(list@.len() as int) == ints(list@));
            let ghost before = out@;
            out.push(values);
            assert(frames_view(out@) == frames_view(before).push(want[f as int]));
            assert(want.take(f + 1) == want.take(f as int).push(want[f as int]));
            f += 1;
        }
        assert(want.take(want.len() as int) == want);
        out
    }

    /// The joints that are kept for a model, and the free ones that drive nothing in
    /// it.
    fn choose_joints(&self, target_joints: &[JointTrack]) -> (r: (Vec<usize>, Vec<usize>))
        ensures
            ints(r.0@) == self.kept(target_joints@),
            ints(r.1@) == self.left(target_joints@),
            forall|k: int| 0 <= k < r.0@.len() ==> (#[trigger] r.0@[k]) < self.joints@.len(),
            forall|k: int| 0 <= k < r.1@.len() ==> (#[trigger] r.1@[k]) < self.joints@.len(),
    {
        let mut kept: Vec<usize> = Vec::new();
        let ghost source = self.source();
        let ghost target = joints_view(target_joints@);
        let mut t: usize = 0;
        assert(target.take(0).len() == 0);
        while t < target_joints.len()
            invariant
                t <= target_joints.len(),
                source == self.source(),
                target == joints_view(target_joints@),
                ints(kept@) == picks(source, target.take(t as int)),
                forall|k: int| 0 <= k < kept@.len() ==> (#[trigger] kept@[k]) < self.joints@.len(),
            decreases target_joints.len() - t,
        {
            proof {
                assert(target.take(t + 1).drop_last() == target.take(t as int));
                assert(target.take(t + 1).last() == target_joints@[t as int]@);
            }
            match find_joint(&self.joints, target_joints[t].name.as_str()) {
                Some(i) => {
                    assert(source[i as int] == self.joints@[i as int]@);
                    if self.joints[i].dofs == target_joints[t].dofs {
                        let ghost before = kept@;
                        kept.push(i);
                        assert(ints(kept@) == ints(before).push(i as int));
                    }
                },
                None => {},
            }
            t += 1;
        }
        assert(target.take(target.len() as int) == target);
        let mut left: Vec<usize> = Vec::new();
        let ghost picked = ints(kept@);
        let mut i: usize = 0;
        while i < self.joints.len()
            invariant
                i <= self.joints.len(),
                source == self.source(),
                picked == ints(kept@),
                ints(left@) == leftovers(source, picked, i as int),
                forall|k: int| 0 <= k < left@.len() ==> (#[trigger] left@[k]) < self.joints@.len(),
            decreases self.joints.len() - i,
        {
            assert(source[i as int] == self.joints@[i as int]@);
            if self.joints[i].dofs == 7 && !index_listed(&kept, i) {
                let ghost before = left@;
                left.push(i);
                assert(ints(left@) == ints(before).push(i as int));
            }
            i += 1;
        }
        (kept, left)
    }

    fn joints_of(&self, list: &Vec<usize>) -> (r: Vec<JointTrack>)
        requires
            forall|k: int| 0 <= k < list@.len() ==> (#[trigger] list@[k]) < self.joints@.len(),
        ensures
            joints_view(r@) == joints_at(self.source(), ints(list@)),
    {
        let mut out: Vec<JointTrack> = Vec::new();
        let ghost all = joints_at(self.source(), ints(list@));
        let mut k: usize = 0;
        while k < list.len()
            invariant
                k <= list.len(),
                all == joints_at(self.source(), ints(list@)),
                forall|k: int| 0 <= k < list@.len() ==> (#[trigger] list@[k]) < self.joints@.len(),
                joints_view(out@) == all.take(k as int),
            decreases list.len() - k,
        {
            let ghost before = out@;
            out.push(copy_joint(&self.joints[list[k]]));
            assert(out@.last()@ == all[k as int]);
            assert(joints_view(out@) == joints_view(before).push(all[k as int]));
            k += 1;
        }
        assert(all.take(all.len() as int) == all);
        out
    }

    /// Remaps the clip onto a model: keeps the joints that both have by name and
    /// with the same width, in the model's order. Free joints of the clip that
    /// drive nothing in the model are kept on the side.
    pub fn retarget(&self, target_joints: &[JointTrack]) -> (r: RetargetedClip)
        requires
            self.covers(target_joints@),
        ensures
            self.is_retargeted(target_joints@, r),
    {
        let offsets = self.joint_offsets();
        let (kept, left) = self.choose_joints(target_joints);
        RetargetedClip {
            dt: self.dt,
            joints: self.joints_of(&kept),
            frames: self.pack(&offsets, &kept),
            unmatched: self.joints_of(&left),
            unmatched_frames: self.pack(&offsets, &left),
        }
    }

    fn is_countable(&self) -> (r: bool)
        ensures
            r == self.countable(),
    {
        let mut sum: usize = 0;
        let mut i: usize = 0;
        while i < self.joints.len()
            invariant
                i <= self.joints.len(),
                sum == offset(self.source(), i as int),
            decreases self.joints.len() - i,
        {
            assert(self.source()[i as int].dofs == self.joints@[i as int].dofs);
            if self.joints[i].dofs > usize::MAX - sum {
                proof {
                    lemma_offset_grows(self.source(), i + 1, self.joints@.len() as int);
                }
                return false;
            }
            sum += self.joints[i].dofs;
            i += 1;
        }
        true
    }

    fn frames_hold(&self, offsets: &Vec<(usize, usize)>, list: &Vec<usize>) -> (r: bool)
        requires
            self.countable(),
            offsets@.len() == self.joints@.len(),
            forall|i: int|
                0 <= i < offsets@.len() ==> (#[trigger] offsets@[i]).0 == offset(self.source(), i)
                    && offsets@[i].1 == self.joints@[i].dofs,
            forall|k: int| 0 <= k < list@.len() ==> (#[trigger] list@[k]) < self.joints@.len(),
        ensures
            r == frames_cover(self.source(), frames_view(self.frames@), ints(list@)),
    {
        let ghost source = self.source();
        let ghost all = frames_view(self.frames@);
        let mut least: usize = 0;
        let mut k: usize = 0;
        while k < list.len()
            invariant
                k <= list.len(),
                source == self.source(),
                self.countable(),
                offsets@.len() == self.joints@.len(),
                forall|i: int|
                    0 <= i < offsets@.len() ==> (#[trigger] offsets@[i]).0 == offset(source, i)
                        && offsets@[i].1 == self.joints@[i].dofs,
                forall|k: int| 0 <= k < list@.len() ==> (#[trigger] list@[k]) < self.joints@.len(),
                forall|j: int| 0 <= j < k ==> end(source, #[trigger] ints(list@)[j]) <= least,
                least == 0 || exists|j: int|
                    0 <= j < k && end(source, #[trigger] ints(list@)[j]) == least,
            decreases list.len() - k,
        {
            let i: usize = list[k];
            proof {
                assert(ints(list@)[k as int] == i);
                assert(source[i as int].dofs == self.joints@[i as int].dofs);
                lemma_offset_grows(source, i + 1, self.joints@.len() as int);
            }
            let (start, dofs) = offsets[i];
            if start + dofs > least {
                least = start + dofs;
            }
            k += 1;
        }
        let mut f: usize = 0;
        while f < self.frames.len()
            invariant
                f <= self.frames.len(),
                source == self.source(),
                all == frames_view(self.frames@),
                forall|j: int|
                    0 <= j < list@.len() ==> end(source, #[trigger] ints(list@)[j]) <= least,
                least == 0 || exists|j: int|
                    0 <= j < list@.len() && end(source, #[trigger] ints(list@)[j]) == least,
                forall|g: int| 0 <= g < f ==> least <= (#[trigger] all[g]).len(),
            decreases self.frames.len() - f,
        {
            assert(all[f as int] == self.frames@[f as int]@);
            if self.frames[f].len() < least {
                assert(!frames_cover(source, all, ints(list@)));
                return false;
            }
            f += 1;
        }
        true
    }

    /// Remaps the clip onto a model, unless the widths of its joints cannot be added
    /// up or a frame has no values for a joint that is needed.
    pub fn try_retarget(&self, target_joints: &[JointTrack]) -> (r: Option<RetargetedClip>)
        ensures
            match r {
                Some(clip) => self.covers(target_joints@) && self.is_retargeted(
                    target_joints@,
                    clip,
                ),
                None => !self.covers(target_joints@),
            },
    {
        if !self.is_countable() {
            return None;
        }
        let offsets = self.joint_offsets();
        let (kept, left) = self.choose_joints(target_joints);
        if self.frames_hold(&offsets, &kept) && self.frames_hold(&offsets, &left) {
            Some(self.retarget(target_joints))
        } else {
            None
        }
    }
}

fn index_listed(list: &Vec<usize>, i: usize) -> (r: bool)
    ensures
        r == ints(list@).contains(i as int),
{
    let mut k: usize = 0;
    while k < list.len()
        invariant
            k <= list.len(),
            forall|j: int| 0 <= j < k ==> list@[j] != i,
        decreases list.len() - k,
    {
        if list[k] == i {
            assert(ints(list@)[k as int] == i);
            return true;
        }
        k += 1;
    }
    false
}

impl RetargetedClip {
    pub fn frame_count(&self) -> (r: usize)
        ensures
            r == self.frames@.len(),
    {
        self.frames.len()
    }
}

/// Total width of a list of joints.
pub open spec fn total_dofs(joints: Seq<JointModel>) -> nat {
    offset(joints, joints.len() as int)
}

/// The values of every retargeted frame line up with the joints that were kept:
/// a frame holds as many values as the joints take, and the values of each joint
/// are those that the source recorded for it.
pub proof fn retargeted_frames_line_up(
    source: Seq<JointModel>,
    frame: Seq<DoubleBits>,
    list: Seq<int>,
    k: int,
)
    requires
        forall|j: int| 0 <= j < list.len() ==> 0 <= #[trigger] list[j] < source.len() && end(source, list[j]) <= frame.len(),
        0 <= k < list.len(),
    ensures
        packed_frame(source, frame, list).len() == total_dofs(joints_at(source, list)),
        packed_frame(source, frame, list).subrange(
            offset(joints_at(source, list), k) as int,
            end(joints_at(source, list), k) as int,
        ) == frame.subrange(offset(source, list[k]) as int, end(source, list[k]) as int),
        end(joints_at(source, list), k) <= packed_frame(source, frame, list).len(),
    decreases list.len(),
{
    let last = list.len() - 1;
    let less = list.drop_last();
    let joints = joints_at(source, list);
    lemma_offset_prefix(joints, joints_at(source, less), last);
    lemma_packed_len(source, frame, less);
    assert(list.last() == list[last]);
    if k < last {
        assert forall|j: int| 0 <= j < less.len() implies 0 <= #[trigger] less[j] < source.len()
            && end(source, less[j]) <= frame.len() by {
            assert(less[j] == list[j]);
        }
        retargeted_frames_line_up(source, frame, less, k);
        lemma_offset_prefix(joints, joints_at(source, less), k);
        let a = packed_frame(source, frame, less);
        let lo = offset(joints, k) as int;
        let hi = end(joints, k) as int;
        assert(joints_at(source, less)[k] == joints[k]);
        assert(a.subrange(lo, hi) == packed_frame(source, frame, list).subrange(lo, hi));
    } else {
        let a = packed_frame(source, frame, less);
        let lo = offset(joints, k) as int;
        let hi = end(joints, k) as int;
        assert(lo == a.len());
        assert(packed_frame(source, frame, list).subrange(lo, hi) =~= frame.subrange(
            offset(source, list[k]) as int,
            end(source, list[k]) as int,
        ));
    }
}

proof fn lemma_packed_len(source: Seq<JointModel>, frame: Seq<DoubleBits>, list: Seq<int>)
    requires
        forall|j: int| 0 <= j < list.len() ==> 0 <= #[trigger] list[j] < source.len() && end(source, list[j]) <= frame.len(),
    ensures
        packed_frame(source, frame, list).len() == total_dofs(joints_at(source, list)),
    decreases list.len(),
{
    if list.len() > 0 {
        let less = list.drop_last();
        assert forall|j: int| 0 <= j < less.len() implies 0 <= #[trigger] less[j] < source.len()
            && end(source, less[j]) <= frame.len() by {
            assert(less[j] == list[j]);
        }
        lemma_packed_len(source, frame, less);
        lemma_offset_prefix(joints_at(source, list), joints_at(source, less), list.len() - 1);
        assert(list.last() == list[list.len() - 1]);
    }
}

proof fn lemma_offset_prefix(a: Seq<JointModel>, b: Seq<JointModel>, i: int)
    requires
        0 <= i <= a.len(),
        i <= b.len(),
        forall|j: int| 0 <= j < i ==> a[j] == b[j],
    ensures
        offset(a, i) == offset(b, i),
    decreases i,
{
    if i > 0 {
        lemma_offset_prefix(a, b, i - 1);
    }
}

/// Retargeting a clip onto its own joints changes nothing, where the joints have
/// different names and the frames hold exactly their values.
pub proof fn retargeting_onto_itself_changes_nothing(source: Seq<JointModel>, frame: Seq<DoubleBits>)
    requires
        forall|i: int, j: int|
            0 <= i < j < source.len() ==> (#[trigger] source[i]).name != (#[trigger] source[j]).name,
        frame.len() == total_dofs(source),
    ensures
        joints_at(source, picks(source, source)) == source,
        packed_frame(source, frame, picks(source, source)) == frame,
        leftovers(source, picks(source, source), source.len() as int) == Seq::<int>::empty(),
{
    lemma_own_picks(source, source.len() as int);
    assert(source.take(source.len() as int) == source);
    let all = picks(source, source);
    assert(joints_at(source, all) =~= source);
    lemma_own_frame(source, frame, source.len() as int);
    assert(all =~= Seq::new(source.len(), |i: int| i));
    assert(frame.take(frame.len() as int) == frame);
    lemma_no_leftovers(source, all, source.len() as int);
}

proof fn lemma_own_picks(source: Seq<JointModel>, n: int)
    requires
        0 <= n <= source.len(),
        forall|i: int, j: int|
            0 <= i < j < source.len() ==> (#[trigger] source[i]).name != (#[trigger] source[j]).name,
    ensures
        picks(source, source.take(n)) == Seq::new(n as nat, |i: int| i),
    decreases n,
{
    if n > 0 {
        lemma_own_picks(source, n - 1);
        assert(source.take(n).drop_last() == source.take(n - 1));
        lemma_first_named_is(source, source[n - 1].name, n - 1);
        assert(picks(source, source.take(n)) =~= Seq::new(n as nat, |i: int| i));
    } else {
        assert(picks(source, source.take(n)) =~= Seq::new(n as nat, |i: int| i));
    }
}

proof fn lemma_own_frame(source: Seq<JointModel>, frame: Seq<DoubleBits>, n: int)
    requires
        0 <= n <= source.len(),
        frame.len() == total_dofs(source),
    ensures
        packed_frame(source, frame, Seq::new(n as nat, |i: int| i)) == frame.take(
            offset(source, n) as int,
        ),
        offset(source, n) <= frame.len(),
    decreases n,
{
    lemma_offset_grows(source, n, source.len() as int);
    let list = Seq::new(n as nat, |i: int| i);
    if n > 0 {
        lemma_own_frame(source, frame, n - 1);
        assert(list.drop_last() =~= Seq::new((n - 1) as nat, |i: int| i));
        assert(packed_frame(source, frame, list) =~= frame.take(offset(source, n) as int));
    } else {
        assert(packed_frame(source, frame, list) =~= frame.take(0));
    }
}

proof fn lemma_no_leftovers(source: Seq<JointModel>, picked: Seq<int>, n: int)
    requires
        0 <= n <= source.len(),
        picked == Seq::new(source.len(), |i: int| i),
    ensures
        leftovers(source, picked, n) == Seq::<int>::empty(),
    decreases n,
{
    if n > 0 {
        lemma_no_leftovers(source, picked, n - 1);
        assert(picked[n - 1] == n - 1);
    }
}

/// Every kept joint is the first of its name, and every joint of the model that can
/// be driven is.
proof fn lemma_picks(source: Seq<JointModel>, target: Seq<JointModel>)
    ensures
        forall|m: int|
            0 <= m < picks(source, target).len() ==> 0 <= #[trigger] picks(source, target)[m]
                < source.len() && first_named(source, source[picks(source, target)[m]].name) == Some(
                picks(source, target)[m],
            ),
        forall|t: int|
            0 <= t < target.len() ==> (pick(source, #[trigger] target[t]) matches Some(i) ==> picks(
                source,
                target,
            ).contains(i)),
    decreases target.len(),
{
    if target.len() > 0 {
        let less = target.drop_last();
        let rest = picks(source, less);
        let all = picks(source, target);
        lemma_picks(source, less);
        lemma_first_named(source, target.last().name);
        assert forall|m: int| 0 <= m < all.len() implies 0 <= #[trigger] all[m] < source.len()
            && first_named(source, source[all[m]].name) == Some(all[m]) by {
            if m < rest.len() {
                assert(all[m] == rest[m]);
            }
        }
        assert forall|t: int| 0 <= t < target.len() implies (pick(
            source,
            #[trigger] target[t],
        ) matches Some(i) ==> all.contains(i)) by {
            if let Some(i) = pick(source, target[t]) {
                if t < less.len() {
                    assert(less[t] == target[t]);
                    assert(rest.contains(i));
                    let m = choose|m: int| 0 <= m < rest.len() && rest[m] == i;
                    assert(all[m] == i);
                } else {
                    assert(all[rest.len() as int] == i);
                }
            }
        }
    }
}

/// The joints that were kept for a model are kept again.
proof fn lemma_picks_again(source: Seq<JointModel>, target: Seq<JointModel>, n: int)
    requires
        0 <= n <= target.len(),
    ensures
        ({
            let first = picks(source, target);
            let again = picks(joints_at(source, first), target.take(n));
            let part = picks(source, target.take(n));
            &&& again.len() == part.len()
            &&& forall|m: int|
                0 <= m < again.len() ==> 0 <= #[trigger] again[m] < first.len() && first[again[m]]
                    == part[m]
        }),
    decreases n,
{
    if n > 0 {
        let first = picks(source, target);
        let joints = joints_at(source, first);
        let joint = target[n - 1];
        lemma_picks_again(source, target, n - 1);
        lemma_picks(source, target);
        assert(target.take(n).drop_last() == target.take(n - 1));
        assert(target.take(n).last() == joint);
        lemma_first_named(source, joint.name);
        lemma_first_named(joints, joint.name);
        if let Some(i) = pick(source, joint) {
            assert(first.contains(i));
            let m = choose|m: int| 0 <= m < first.len() && first[m] == i;
            assert(joints[m].name == joint.name);
        }
        if let Some(k) = first_named(joints, joint.name) {
            assert(joints[k] == source[first[k]]);
            assert(first_named(source, source[first[k]].name) == Some(first[k]));
        }
    }
}

/// The same values are packed from frames that were packed before.
proof fn lemma_packed_again(
    source: Seq<JointModel>,
    frame: Seq<DoubleBits>,
    first: Seq<int>,
    again: Seq<int>,
    list: Seq<int>,
)
    requires
        forall|j: int|
            0 <= j < first.len() ==> 0 <= #[trigger] first[j] < source.len() && end(
                source,
                first[j],
            ) <= frame.len(),
        again.len() == list.len(),
        forall|m: int|
            0 <= m < again.len() ==> 0 <= #[trigger] again[m] < first.len() && first[again[m]]
                == list[m],
    ensures
        packed_frame(joints_at(source, first), packed_frame(source, frame, first), again)
            == packed_frame(source, frame, list),
    decreases again.len(),
{
    if again.len() > 0 {
        let last = again.len() - 1;
        assert forall|m: int| 0 <= m < last implies 0 <= #[trigger] again.drop_last()[m]
            < first.len() && first[again.drop_last()[m]] == list.drop_last()[m] by {
            assert(again.drop_last()[m] == again[m]);
        }
        lemma_packed_again(source, frame, first, again.drop_last(), list.drop_last());
        assert(again.last() == again[last] && list.last() == list[last]);
        retargeted_frames_line_up(source, frame, first, again[last]);
    }
}

/// Where the joints of a model have different names, none is kept twice.
proof fn lemma_picks_distinct(source: Seq<JointModel>, target: Seq<JointModel>)
    requires
        forall|i: int, j: int|
            0 <= i < j < target.len() ==> (#[trigger] target[i]).name != (#[trigger] target[j]).name,
    ensures
        picks(source, target).no_duplicates(),
        forall|m: int|
            0 <= m < picks(source, target).len() ==> exists|t: int|
                0 <= t < target.len() && (#[trigger] target[t]).name == source[#[trigger] picks(
                    source,
                    target,
                )[m]].name,
    decreases target.len(),
{
    if target.len() > 0 {
        let less = target.drop_last();
        let rest = picks(source, less);
        let all = picks(source, target);
        lemma_picks_distinct(source, less);
        lemma_first_named(source, target.last().name);
        assert forall|m: int| 0 <= m < all.len() implies exists|t: int|
            0 <= t < target.len() && (#[trigger] target[t]).name == source[#[trigger] all[m]].name by {
            if m < rest.len() {
                assert(all[m] == rest[m]);
                let t = choose|t: int|
                    0 <= t < less.len() && (#[trigger] less[t]).name == source[rest[m]].name;
                assert(target[t] == less[t]);
            } else {
                assert(target[target.len() - 1].name == source[all[m]].name);
            }
        }
        assert forall|i: int, j: int| 0 <= i < all.len() && 0 <= j < all.len() && i < j implies all[i]
            != all[j] by {
            assert(all[i] == rest[i]);
            if j == rest.len() {
                let t = choose|t: int|
                    0 <= t < less.len() && (#[trigger] less[t]).name == source[rest[i]].name;
                assert(target[t].name != target[target.len() - 1].name);
            } else {
                assert(all[j] == rest[j]);
            }
        }
    }
}

proof fn lemma_leftovers_in_range(source: Seq<JointModel>, picked: Seq<int>, n: int)
    ensures
        forall|k: int|
            0 <= k < leftovers(source, picked, n).len() ==> 0 <= #[trigger] leftovers(
                source,
                picked,
                n,
            )[k] < n,
    decreases n,
{
    if n > 0 {
        let rest = leftovers(source, picked, n - 1);
        let all = leftovers(source, picked, n);
        lemma_leftovers_in_range(source, picked, n - 1);
        assert forall|k: int| 0 <= k < all.len() implies 0 <= #[trigger] all[k] < n by {
            if k < rest.len() {
                assert(all[k] == rest[k]);
            }
        }
    }
}

/// Retargeting a retargeted clip onto the same joints once more changes neither its
/// joints nor its frames nor the time between them. Nothing is left over either, where
/// the joints of the model have different names.
pub proof fn retargeting_twice_is_retargeting_once(
    clip: TrajectoryClip,
    target: Seq<JointTrack>,
    once: RetargetedClip,
    again: TrajectoryClip,
    twice: RetargetedClip,
)
    requires
        clip.covers(target),
        clip.is_retargeted(target, once),
        again.joints == once.joints && again.dt == once.dt && again.frames == once.frames,
        again.countable(),
        again.is_retargeted(target, twice),
    ensures
        again.covers(target),
        twice.dt == once.dt,
        joints_view(twice.joints@) == joints_view(once.joints@),
        frames_view(twice.frames@) == frames_view(once.frames@),
        (forall|i: int, j: int|
            0 <= i < j < target.len() ==> (#[trigger] target[i]).name@ != (
            #[trigger] target[j]).name@) ==> twice.unmatched@.len() == 0,
{
    let source = clip.source();
    let frames = frames_view(clip.frames@);
    let models = joints_view(target);
    let first = picks(source, models);
    let joints = joints_at(source, first);
    let packed = packed_frames(source, frames, first);
    let kept = picks(joints, models);
    let left = leftovers(joints, kept, joints.len() as int);
    lemma_picks(source, models);
    lemma_picks_again(source, models, models.len() as int);
    assert(models.take(models.len() as int) == models);
    lemma_leftovers_in_range(joints, kept, joints.len() as int);
    assert(again.source() == joints);
    assert(joints_at(joints, kept) =~= joints) by {
        assert forall|m: int| 0 <= m < kept.len() implies joints[#[trigger] kept[m]] == joints[m] by {
            assert(first[kept[m]] == first[m]);
        }
    }
    assert forall|f: int| 0 <= f < frames.len() implies packed_frame(
        joints,
        #[trigger] packed[f],
        kept,
    ) == packed[f] && (forall|k: int|
        0 <= k < joints.len() ==> #[trigger] end(joints, k) <= packed[f].len()) by {
        let frame = frames[f];
        assert forall|j: int| 0 <= j < first.len() implies 0 <= #[trigger] first[j] < source.len()
            && end(source, first[j]) <= frame.len() by {
            assert(end(source, first[j]) <= frames[f].len());
        }
        lemma_packed_again(source, frame, first, kept, first);
        assert forall|k: int| 0 <= k < joints.len() implies #[trigger] end(joints, k)
            <= packed[f].len() by {
            retargeted_frames_line_up(source, frame, first, k);
        }
    }
    assert(packed_frames(joints, packed, kept) =~= packed);
    assert(frames_view(again.frames@) == packed);
    assert forall|f: int, k: int| 0 <= f < packed.len() && 0 <= k < kept.len() implies end(
        joints,
        #[trigger] kept[k],
    ) <= (#[trigger] packed[f]).len() by {}
    assert forall|f: int, k: int| 0 <= f < packed.len() && 0 <= k < left.len() implies end(
        joints,
        #[trigger] left[k],
    ) <= (#[trigger] packed[f]).len() by {}
    if forall|i: int, j: int|
        0 <= i < j < target.len() ==> (#[trigger] target[i]).name@ != (
        #[trigger] target[j]).name@ {
        assert forall|i: int, j: int| 0 <= i < j < models.len() implies (#[trigger] models[i]).name
            != (#[trigger] models[j]).name by {
            assert(models[i].name == target[i].name@ && models[j].name == target[j].name@);
        }
        lemma_picks_distinct(source, models);
        assert forall|m: int| 0 <= m < kept.len() implies #[trigger] kept[m] == m by {
            assert(first[kept[m]] == first[m]);
        }
        assert(kept =~= Seq::new(joints.len(), |i: int| i));
        lemma_no_leftovers(joints, kept, joints.len() as int);
        assert(joints_view(twice.unmatched@).len() == 0);
    }
}

/// What identifies a pairing of a clip and a model: the path and the contents of
/// the clip, and the model's joints in order. Each text is closed by a byte that
/// no text contains.
pub open spec fn key_stream(path: Seq<char>, text: Seq<char>, joints: Seq<JointModel>) -> Seq<Seq<u8>>
    decreases joints.len(),
{
    if joints.len() == 0 {
        seq![encode_utf8(path), seq![0xffu8], encode_utf8(text), seq![0xffu8]]
    } else {
        key_stream(path, text, joints.drop_last()) + seq![
            encode_utf8(joints.last().name),
            seq![0xffu8],
            spec_u64_to_le_bytes(joints.last().dofs as u64),
        ]
    }
}

/// Different pairings have different streams: another path, other contents,
/// another joint name or width, or another order of the joints.
pub proof fn key_streams_tell_pairings_apart(
    path: Seq<char>,
    text: Seq<char>,
    joints: Seq<JointModel>,
    path_2: Seq<char>,
    text_2: Seq<char>,
    joints_2: Seq<JointModel>,
)
    requires
        key_stream(path, text, joints) == key_stream(path_2, text_2, joints_2),
        forall|i: int| 0 <= i < joints.len() ==> (#[trigger] joints[i]).dofs <= u64::MAX,
        forall|i: int| 0 <= i < joints_2.len() ==> (#[trigger] joints_2[i]).dofs <= u64::MAX,
    ensures
        path == path_2,
        text == text_2,
        joints == joints_2,
    decreases joints.len(),
{
    lemma_stream_len(path, text, joints);
    lemma_stream_len(path_2, text_2, joints_2);
    let a = key_stream(path, text, joints);
    let b = key_stream(path_2, text_2, joints_2);
    if joints.len() == 0 {
        assert(a[0] == b[0] && a[2] == b[2]);
        encode_utf8_decode_utf8(path);
        encode_utf8_decode_utf8(path_2);
        encode_utf8_decode_utf8(text);
        encode_utf8_decode_utf8(text_2);
        assert(joints =~= joints_2);
    } else {
        let less = joints.drop_last();
        let less_2 = joints_2.drop_last();
        let n = a.len() as int;
        assert(key_stream(path, text, less) =~= a.take(n - 3));
        assert(key_stream(path_2, text_2, less_2) =~= b.take(n - 3));
        key_streams_tell_pairings_apart(path, text, less, path_2, text_2, less_2);
        assert(a[n - 3] == b[n - 3] && a[n - 1] == b[n - 1]);
        encode_utf8_decode_utf8(joints.last().name);
        encode_utf8_decode_utf8(joints_2.last().name);
        lemma_auto_spec_u64_to_from_le_bytes();
        assert(spec_u64_from_le_bytes(spec_u64_to_le_bytes(joints.last().dofs as u64))
            == spec_u64_from_le_bytes(spec_u64_to_le_bytes(joints_2.last().dofs as u64)));
        assert(joints.last() == joints[joints.len() - 1]);
        assert(joints_2.last() == joints_2[joints_2.len() - 1]);
        assert(joints =~= less.push(joints.last()));
        assert(joints_2 =~= less_2.push(joints_2.last()));
    }
}

proof fn lemma_stream_len(path: Seq<char>, text: Seq<char>, joints: Seq<JointModel>)
    ensures
        key_stream(path, text, joints).len() == 4 + 3 * joints.len(),
    decreases joints.len(),
{
    if joints.len() > 0 {
        lemma_stream_len(path, text, joints.drop_last());
    }
}

/// A digit of a hexadecimal number.
pub open spec fn hex_digit(d: int) -> char {
    if d < 10 {
        ('0' as u32 + d) as char
    } else {
        ('a' as u32 + d - 10) as char
    }
}

/// The lowest `digits` hexadecimal digits of `n`, with leading zeros.
pub open spec fn hex(n: nat, digits: nat) -> Seq<char>
    decreases digits,
{
    if digits == 0 {
        seq![]
    } else {
        hex(n / 16, (digits - 1) as nat).push(hex_digit(n as int % 16))
    }
}

fn push_hex(out: &mut Vec<char>, n: u64, digits: usize)
    ensures
        final(out)@ == old(out)@ + hex(n as nat, digits as nat),
    decreases digits,
{
    if digits == 0 {
        assert(old(out)@ + hex(n as nat, 0) == old(out)@);
        return;
    }
    push_hex(out, n / 16, digits - 1);
    let d: u8 = (n % 16) as u8;
    let c = if d < 10 {
        (48u8 + d) as char
    } else {
        (87u8 + d) as char
    };
    assert(c == hex_digit(n as int % 16));
    out.push(c);
    assert((old(out)@ + hex((n / 16) as nat, (digits - 1) as nat)).push(c) == old(out)@ + hex(
        n as nat,
        digits as nat,
    ));
}

/// A hash as sixteen hexadecimal digits.
pub fn hash_text(hash: u64) -> (r: String)
    ensures
        r@ == hex(hash as nat, 16),
{
    let mut out: Vec<char> = Vec::new();
    push_hex(&mut out, hash, 16);
    string_of(out.as_slice())
}

/// The cache key of a pairing: a hash of its stream.
pub fn cache_key(clip_path: &str, source_text: &str, target_joints: &[JointTrack]) -> (r: String)
    ensures
        r@ == hex(
            DefaultHasher::spec_finish(
                key_stream(clip_path@, source_text@, joints_view(target_joints@)),
            ) as nat,
            16,
        ),
{
    let mut hasher = DefaultHasher::new();
    let close: [u8; 1] = [0xff];
    assert(close@ == seq![0xffu8]);
    hasher.write(clip_path.as_bytes());
    hasher.write(&close);
    hasher.write(source_text.as_bytes());
    hasher.write(&close);
    let ghost joints = joints_view(target_joints@);
    assert(joints.take(0).len() == 0);
    assert(hasher@ == key_stream(clip_path@, source_text@, joints.take(0)));
    let mut i: usize = 0;
    while i < target_joints.len()
        invariant
            i <= target_joints.len(),
            close@ == seq![0xffu8],
            joints == joints_view(target_joints@),
            hasher@ == key_stream(clip_path@, source_text@, joints.take(i as int)),
        decreases target_joints.len() - i,
    {
        let ghost before = hasher@;
        let width = u64_to_le_bytes(target_joints[i].dofs as u64);
        hasher.write(target_joints[i].name.as_str().as_bytes());
        hasher.write(&close);
        hasher.write(width.as_slice());
        assert(joints.take(i + 1).drop_last() == joints.take(i as int));
        assert(joints.take(i + 1).last() == target_joints@[i as int]@);
        assert(hasher@ == key_stream(clip_path@, source_text@, joints.take(i + 1)));
        i += 1;
    }
    assert(joints.take(joints.len() as int) == joints);
    hash_text(hasher.finish())
}

/// The file that caches the pairing of a key.
pub fn cache_path(key: &str) -> (r: String)
    ensures
        r@ == "resources/trajectory_cache/"@ + key@ + ".json"@,
{
    let mut path = String::from_str("resources/trajectory_cache/");
    path.append(key);
    path.append(".json");
    path
}

/// Where a joint's values begin: at zero for the first joint, and for every other one
/// where the joint before it ends.
pub proof fn offsets_add_up(joints: Seq<JointModel>, i: int)
    requires
        0 <= i < joints.len(),
    ensures
        offset(joints, 0) == 0,
        offset(joints, i + 1) == offset(joints, i) + joints[i].dofs,
        end(joints, i) == offset(joints, i + 1),
{
}

/// A joint of the source drives a joint of the model: it is the first of its name in
/// the source, and the model has one of that name and that width.
pub open spec fn drives(source: Seq<JointModel>, target: Seq<JointModel>, i: int) -> bool {
    &&& forall|j: int| 0 <= j < i ==> (#[trigger] source[j]).name != source[i].name
    &&& exists|t: int|
        0 <= t < target.len() && (#[trigger] target[t]).name == source[i].name && target[t].dofs
            == source[i].dofs
}

proof fn lemma_picked_drives(source: Seq<JointModel>, target: Seq<JointModel>, i: int)
    requires
        0 <= i < source.len(),
    ensures
        picks(source, target).contains(i) <==> drives(source, target, i),
    decreases target.len(),
{
    lemma_first_named(source, source[i].name);
    if target.len() > 0 {
        let less = target.drop_last();
        let last = target.last();
        let rest = picks(source, less);
        let all = picks(source, target);
        lemma_picked_drives(source, less, i);
        lemma_first_named(source, last.name);
        if rest.contains(i) {
            let m = choose|m: int| 0 <= m < rest.len() && rest[m] == i;
            assert(all[m] == i);
        }
        if drives(source, less, i) {
            let t = choose|t: int|
                0 <= t < less.len() && (#[trigger] less[t]).name == source[i].name && less[t].dofs
                    == source[i].dofs;
            assert(target[t] == less[t]);
        }
        if pick(source, last) == Some(i) {
            assert(all[rest.len() as int] == i);
            assert(target[target.len() - 1].name == source[i].name);
        }
        if drives(source, target, i) && !drives(source, less, i) {
            let t = choose|t: int|
                0 <= t < target.len() && (#[trigger] target[t]).name == source[i].name
                    && target[t].dofs == source[i].dofs;
            if t < less.len() {
                assert(less[t] == target[t]);
            }
            lemma_first_named_is(source, last.name, i);
        }
        if all.contains(i) && !rest.contains(i) {
            let m = choose|m: int| 0 <= m < all.len() && all[m] == i;
            if m < rest.len() {
                assert(rest[m] == i);
            }
        }
    }
}

proof fn lemma_leftover_list(source: Seq<JointModel>, picked: Seq<int>, n: int, i: int)
    requires
        0 <= n <= source.len(),
    ensures
        leftovers(source, picked, n).contains(i) <==> 0 <= i < n && source[i].dofs == 7
            && !picked.contains(i),
        forall|a: int, b: int|
            0 <= a < b < leftovers(source, picked, n).len() ==> 0 <= #[trigger] leftovers(
                source,
                picked,
                n,
            )[a] < #[trigger] leftovers(source, picked, n)[b] < n,
    decreases n,
{
    lemma_leftovers_in_range(source, picked, n);
    if n > 0 {
        let rest = leftovers(source, picked, n - 1);
        let all = leftovers(source, picked, n);
        lemma_leftover_list(source, picked, n - 1, i);
        lemma_leftovers_in_range(source, picked, n - 1);
        if rest.contains(i) {
            let m = choose|m: int| 0 <= m < rest.len() && rest[m] == i;
            assert(all[m] == i);
        }
        if source[n - 1].dofs == 7 && !picked.contains(n - 1) {
            assert(all[rest.len() as int] == n - 1);
        }
        if all.contains(i) && !rest.contains(i) {
            let m = choose|m: int| 0 <= m < all.len() && all[m] == i;
            if m < rest.len() {
                assert(rest[m] == i);
            }
        }
        assert forall|a: int, b: int| 0 <= a < b < all.len() implies 0 <= #[trigger] all[a]
            < #[trigger] all[b] < n by {
            assert(all[a] == rest[a]);
            if b < rest.len() {
                assert(all[b] == rest[b]);
            }
        }
    }
}

/// Every joint of seven values that drives no joint of the model stands among the
/// unmatched ones, once and in the source's order, and nothing else does. Each unmatched
/// joint keeps its name and the seven values that every frame recorded for it.
pub proof fn free_joints_are_not_lost(
    clip: TrajectoryClip,
    target: Seq<JointTrack>,
    r: RetargetedClip,
    i: int,
    a: int,
    b: int,
)
    requires
        clip.is_retargeted(target, r),
        0 <= i < clip.joints@.len(),
    ensures
        ({
            let source = joints_view(clip.joints@);
            let at = clip.left(target);
            &&& r.unmatched@.len() == at.len()
            &&& at.contains(i) <==> source[i].dofs == 7 && !drives(source, joints_view(target), i)
            &&& 0 <= a < at.len() ==> 0 <= at[a] < source.len() && r.unmatched@[a]@ == source[at[a]]
            &&& 0 <= a < b < at.len() ==> at[a] < at[b]
        }),
{
    let source = joints_view(clip.joints@);
    let at = clip.left(target);
    lemma_picked_drives(source, joints_view(target), i);
    lemma_leftover_list(source, clip.kept(target), source.len() as int, i);
    lemma_leftovers_in_range(source, clip.kept(target), source.len() as int);
    assert(joints_view(r.unmatched@).len() == at.len());
    if 0 <= a < at.len() {
        assert(joints_view(r.unmatched@)[a] == source[at[a]]);
    }
}

/// The unmatched frames run beside the others, one for each: frame `f` holds seven
/// values for each unmatched joint, and they are those that the source recorded for it.
pub proof fn free_joints_keep_their_motion(
    clip: TrajectoryClip,
    target: Seq<JointTrack>,
    r: RetargetedClip,
    f: int,
    k: int,
)
    requires
        clip.covers(target),
        clip.is_retargeted(target, r),
        0 <= f < clip.frames@.len(),
        0 <= k < r.unmatched@.len(),
    ensures
        ({
            let source = joints_view(clip.joints@);
            let at = offset(source, clip.left(target)[k]) as int;
            &&& r.unmatched_frames@.len() == clip.frames@.len()
            &&& r.unmatched_frames@[f]@.len() == 7 * r.unmatched@.len()
            &&& r.unmatched_frames@[f]@.subrange(7 * k, 7 * k + 7) == clip.frames@[f]@.subrange(
                at,
                at + 7,
            )
        }),
{
    let source = joints_view(clip.joints@);
    let frames = frames_view(clip.frames@);
    let left = clip.left(target);
    let joints = joints_at(source, left);
    lemma_leftovers_in_range(source, clip.kept(target), source.len() as int);
    assert(joints_view(r.unmatched@).len() == left.len());
    assert(frames[f] == clip.frames@[f]@);
    assert(frames_view(r.unmatched_frames@).len() == frames.len());
    assert(frames_view(r.unmatched_frames@)[f] == packed_frame(source, frames[f], left));
    assert(frames_view(r.unmatched_frames@)[f] == r.unmatched_frames@[f]@);
    assert forall|j: int| 0 <= j < left.len() implies 0 <= #[trigger] left[j] < source.len() && end(
        source,
        left[j],
    ) <= frames[f].len() by {
        assert(end(source, left[j]) <= frames[f].len());
    }
    retargeted_frames_line_up(source, frames[f], left, k);
    assert forall|j: int| 0 <= j < left.len() implies (#[trigger] joints[j]).dofs == 7 by {
        lemma_leftover_list(source, clip.kept(target), source.len() as int, left[j]);
        assert(left.contains(left[j]));
    }
    lemma_sevens(joints, k);
    lemma_sevens(joints, joints.len() as int);
    assert(joints[k].dofs == 7);
}

proof fn lemma_sevens(joints: Seq<JointModel>, n: int)
    requires
        0 <= n <= joints.len(),
        forall|j: int| 0 <= j < joints.len() ==> (#[trigger] joints[j]).dofs == 7,
    ensures
        offset(joints, n) == 7 * n,
    decreases n,
{
    if n > 0 {
        lemma_sevens(joints, n - 1);
    }
}

/// The joints of the model that something drives, by their numbers.
pub open spec fn driven(source: Seq<JointModel>, target: Seq<JointModel>) -> Seq<int>
    decreases target.len(),
{
    if target.len() == 0 {
        seq![]
    } else {
        let rest = driven(source, target.drop_last());
        if pick(source, target.last()) is Some {
            rest.push(target.len() - 1)
        } else {
            rest
        }
    }
}

/// A joint of the source can drive a joint: it is the first of that name, and as wide.
pub open spec fn can_drive(source: Seq<JointModel>, joint: JointModel, i: int) -> bool {
    &&& 0 <= i < source.len()
    &&& source[i].name == joint.name
    &&& source[i].dofs == joint.dofs
    &&& forall|j: int| 0 <= j < i ==> (#[trigger] source[j]).name != joint.name
}

proof fn lemma_driven(source: Seq<JointModel>, target: Seq<JointModel>, t: int)
    ensures
        driven(source, target).len() == picks(source, target).len(),
        driven(source, target).contains(t) <==> 0 <= t < target.len() && exists|i: int|
            can_drive(source, target[t], i),
        forall|k: int| #![trigger driven(source, target)[k]]
            0 <= k < driven(source, target).len() ==> 0 <= driven(source, target)[k] < target.len()
                && can_drive(source, target[driven(source, target)[k]], picks(source, target)[k]),
        forall|a: int, b: int|
            0 <= a < b < driven(source, target).len() ==> #[trigger] driven(source, target)[a]
                < #[trigger] driven(source, target)[b],
    decreases target.len(),
{
    if target.len() > 0 {
        let less = target.drop_last();
        let last = target.last();
        let rest = driven(source, less);
        let all = driven(source, target);
        lemma_driven(source, less, t);
        lemma_first_named(source, last.name);
        assert(target[target.len() - 1] == last);
        match pick(source, last) {
            Some(i) => {
                assert(can_drive(source, last, i));
                assert(all[rest.len() as int] == target.len() - 1);
            },
            None => {
                assert forall|i: int| !can_drive(source, last, i) by {
                    if can_drive(source, last, i) {
                        lemma_first_named_is(source, last.name, i);
                    }
                }
            },
        }
        if rest.contains(t) {
            let m = choose|m: int| 0 <= m < rest.len() && rest[m] == t;
            assert(all[m] == t);
            assert(less[t] == target[t]);
        }
        if 0 <= t < less.len() {
            assert(less[t] == target[t]);
        }
        if all.contains(t) && !rest.contains(t) {
            let m = choose|m: int| 0 <= m < all.len() && all[m] == t;
            if m < rest.len() {
                assert(rest[m] == t);
            }
        }
        assert forall|k: int| #![trigger all[k]] 0 <= k < all.len() implies 0 <= all[k]
            < target.len() && can_drive(source, target[all[k]], picks(source, target)[k]) by {
            if k < rest.len() {
                assert(all[k] == rest[k]);
                assert(less[rest[k]] == target[rest[k]]);
                assert(picks(source, target)[k] == picks(source, less)[k]);
            }
        }
        assert forall|a: int, b: int| 0 <= a < b < all.len() implies #[trigger] all[a]
            < #[trigger] all[b] by {
            assert(all[a] == rest[a]);
            if b < rest.len() {
                assert(all[b] == rest[b]);
            }
        }
    } else {
        assert(!driven(source, target).contains(t));
    }
}

/// The joints of a retargeted clip are those of the model that a source joint of the
/// same name and width drives, each once and in the model's order; others are left out.
/// Each is driven by the first source joint of its name.
pub proof fn driven_joints_are_kept(
    clip: TrajectoryClip,
    target: Seq<JointTrack>,
    r: RetargetedClip,
    t: int,
    k: int,
)
    requires
        clip.is_retargeted(target, r),
        0 <= t < target.len(),
    ensures
        ({
            let source = joints_view(clip.joints@);
            let models = joints_view(target);
            let at = driven(source, models);
            &&& r.joints@.len() == at.len()
            &&& at.contains(t) <==> exists|i: int| can_drive(source, models[t], i)
            &&& 0 <= k < at.len() ==> {
                &&& 0 <= at[k] < models.len()
                &&& r.joints@[k]@ == models[at[k]]
                &&& can_drive(source, models[at[k]], clip.kept(target)[k])
            }
            &&& 0 <= k && k + 1 < at.len() ==> at[k] < at[k + 1]
        }),
{
    let source = joints_view(clip.joints@);
    let models = joints_view(target);
    lemma_driven(source, models, t);
    assert(joints_view(r.joints@).len() == clip.kept(target).len());
    if 0 <= k < r.joints@.len() {
        assert(joints_view(r.joints@)[k] == source[clip.kept(target)[k]]);
    }
}

/// Every frame of a retargeted clip holds, joint after joint, the values that the source
/// recorded for the joint that drives it, and nothing else; there are as many frames,
/// the same time apart.
pub proof fn driven_joints_keep_their_motion(
    clip: TrajectoryClip,
    target: Seq<JointTrack>,
    r: RetargetedClip,
    f: int,
    k: int,
)
    requires
        clip.covers(target),
        clip.is_retargeted(target, r),
        0 <= f < clip.frames@.len(),
        0 <= k < r.joints@.len(),
    ensures
        ({
            let source = joints_view(clip.joints@);
            let joints = joints_view(r.joints@);
            let from = clip.kept(target)[k];
            &&& r.dt == clip.dt
            &&& r.frames@.len() == clip.frames@.len()
            &&& r.frames@[f]@.len() == offset(joints, joints.len() as int)
            &&& r.frames@[f]@.subrange(
                offset(joints, k) as int,
                (offset(joints, k) + joints[k].dofs) as int,
            ) == clip.frames@[f]@.subrange(
                offset(source, from) as int,
                (offset(source, from) + joints[k].dofs) as int,
            )
        }),
{
    let source = joints_view(clip.joints@);
    let frames = frames_view(clip.frames@);
    let kept = clip.kept(target);
    lemma_picks(source, joints_view(target));
    assert(joints_view(r.joints@).len() == kept.len());
    assert(frames[f] == clip.frames@[f]@);
    assert(frames_view(r.frames@).len() == frames.len());
    assert(frames_view(r.frames@)[f] == packed_frame(source, frames[f], kept));
    assert(frames_view(r.frames@)[f] == r.frames@[f]@);
    assert forall|j: int| 0 <= j < kept.len() implies 0 <= #[trigger] kept[j] < source.len() && end(
        source,
        kept[j],
    ) <= frames[f].len() by {
        assert(end(source, kept[j]) <= frames[f].len());
    }
    retargeted_frames_line_up(source, frames[f], kept, k);
    assert(joints_view(r.joints@)[k] == source[kept[k]]);
}

/// What `try_retarget` gives loses no free joint: one that drives nothing in the model
/// stands among the unmatched ones, and every joint that is unmatched is such a one.
pub proof fn retargeting_keeps_every_free_joint(
    clip: TrajectoryClip,
    target: &[JointTrack],
    r: Option<RetargetedClip>,
    i: int,
    a: int,
)
    requires
        call_ensures(TrajectoryClip::try_retarget, (&clip, target), r),
        0 <= i < clip.joints@.len(),
    ensures
        r matches Some(done) ==> {
            let source = joints_view(clip.joints@);
            &&& clip.joints@[i].dofs == 7 && !drives(source, joints_view(target@), i) ==> exists|
                k: int,
            |
                0 <= k < done.unmatched@.len() && (#[trigger] done.unmatched@[k])@
                    == clip.joints@[i]@
            &&& 0 <= a < done.unmatched@.len() ==> done.unmatched@[a].dofs == 7
            &&& done.dt == clip.dt
        },
{
    if let Some(done) = r {
        let source = joints_view(clip.joints@);
        let at = clip.left(target@);
        assert(source[i] == clip.joints@[i]@);
        free_joints_are_not_lost(clip, target@, done, i, a, a + 1);
        if at.contains(i) {
            let k = choose|k: int| 0 <= k < at.len() && at[k] == i;
            free_joints_are_not_lost(clip, target@, done, i, k, k + 1);
            assert(done.unmatched@[k]@ == clip.joints@[i]@);
        }
        if 0 <= a < done.unmatched@.len() {
            free_joints_are_not_lost(clip, target@, done, at[a], a, a + 1);
            assert(at.contains(at[a]));
            assert(done.unmatched@[a]@ == source[at[a]]);
        }
    }
}

/// A clip whose frames hold values for all of its joints can be put on every model.
pub proof fn whole_clips_fit_every_model(
    clip: TrajectoryClip,
    target: &[JointTrack],
    r: Option<RetargetedClip>,
)
    requires
        call_ensures(TrajectoryClip::try_retarget, (&clip, target), r),
        offset(joints_view(clip.joints@), clip.joints@.len() as int) <= usize::MAX,
        forall|f: int|
            0 <= f < clip.frames@.len() ==> (#[trigger] clip.frames@[f])@.len() >= offset(
                joints_view(clip.joints@),
                clip.joints@.len() as int,
            ),
    ensures
        r is Some,
{
    let source = joints_view(clip.joints@);
    let frames = frames_view(clip.frames@);
    let kept = clip.kept(target@);
    let left = clip.left(target@);
    lemma_picks(source, joints_view(target@));
    lemma_leftovers_in_range(source, kept, source.len() as int);
    assert forall|f: int, k: int| 0 <= f < frames.len() && 0 <= k < kept.len() implies end(
        source,
        #[trigger] kept[k],
    ) <= (#[trigger] frames[f]).len() by {
        lemma_offset_grows(source, kept[k] + 1, source.len() as int);
        assert(frames[f] == clip.frames@[f]@);
    }
    assert forall|f: int, k: int| 0 <= f < frames.len() && 0 <= k < left.len() implies end(
        source,
        #[trigger] left[k],
    ) <= (#[trigger] frames[f]).len() by {
        lemma_offset_grows(source, left[k] + 1, source.len() as int);
        assert(frames[f] == clip.frames@[f]@);
    }
}

/// The offsets of a clip's joints: the first one begins at zero, and each other one
/// directly behind the one before it.
pub proof fn joints_follow_each_other(clip: TrajectoryClip, r: Vec<(usize, usize)>, i: int)
    requires
        clip.countable(),
        call_ensures(TrajectoryClip::joint_offsets, (&clip,), r),
        0 <= i < clip.joints@.len(),
    ensures
        r@.len() == clip.joints@.len(),
        r@[0].0 == 0,
        r@[i].1 == clip.joints@[i].dofs,
        i + 1 < clip.joints@.len() ==> r@[i + 1].0 == r@[i].0 + r@[i].1,
{
    let source = joints_view(clip.joints@);
    assert(source[i] == clip.joints@[i]@);
    offsets_add_up(source, i);
    assert(r@[0].0 == offset(source, 0));
    if i + 1 < clip.joints@.len() {
        assert(r@[i + 1].0 == offset(source, i + 1));
    }
}

/// The number that hexadecimal digits write, the highest digit first.
pub open spec fn hex_value(s: Seq<char>) -> nat
    decreases s.len(),
{
    if s.len() == 0 {
        0
    } else {
        let c = s.last() as int;
        let d = if 48 <= c <= 57 {
            c - 48
        } else {
            c - 87
        };
        (16 * hex_value(s.drop_last()) + d) as nat
    }
}

proof fn lemma_hex(n: nat, digits: nat, i: int)
    ensures
        hex(n, digits).len() == digits,
        0 <= i < digits ==> ('0' <= hex(n, digits)[i] <= '9' || 'a' <= hex(n, digits)[i] <= 'f'),
        n < vstd::arithmetic::power::pow(16, digits) ==> hex_value(hex(n, digits)) == n,
    decreases digits,
{
    if digits > 0 {
        let less = (digits - 1) as nat;
        lemma_hex(n / 16, less, i);
        let s = hex(n, digits);
        assert(s.drop_last() =~= hex(n / 16, less));
        vstd::arithmetic::power::lemma_pow1(16);
        vstd::arithmetic::power::lemma_pow_adds(16, 1, less);
        assert(n < vstd::arithmetic::power::pow(16, digits) ==> n / 16
            < vstd::arithmetic::power::pow(16, less)) by (nonlinear_arith)
            requires
                vstd::arithmetic::power::pow(16, digits) == 16 * vstd::arithmetic::power::pow(
                    16,
                    less,
                ),
        ;
    } else {
        vstd::arithmetic::power::lemma_pow0(16);
    }
}

/// A hash is written in sixteen hexadecimal digits that read back as the hash, so that
/// different hashes are written differently.
pub proof fn hashes_are_written_whole(hash: u64, r: String, i: int)
    requires
        call_ensures(hash_text, (hash,), r),
    ensures
        r@.len() == 16,
        0 <= i < 16 ==> ('0' <= r@[i] <= '9' || 'a' <= r@[i] <= 'f'),
        hex_value(r@) == hash,
{
    lemma_hex(hash as nat, 16, i);
    assert(vstd::arithmetic::power::pow(16, 16) == 0x1_0000_0000_0000_0000) by {
        reveal(vstd::arithmetic::power::pow);
        reveal_with_fuel(vstd::arithmetic::power::pow, 17);
    }
}

/// A key is the hash of its pairing: of the clip's path and contents and of the model's
/// joints, all of them. Pairings with the same stream share it.
pub proof fn keys_are_hashes_of_their_pairing(
    path: &str,
    text: &str,
    joints: &[JointTrack],
    r: String,
)
    requires
        call_ensures(cache_key, (path, text, joints), r),
    ensures
        r@.len() == 16,
        hex_value(r@) == DefaultHasher::spec_finish(
            key_stream(path@, text@, joints_view(joints@)),
        ),
{
    let hash = DefaultHasher::spec_finish(key_stream(path@, text@, joints_view(joints@)));
    lemma_hex(hash as nat, 16, 0);
    assert(vstd::arithmetic::power::pow(16, 16) == 0x1_0000_0000_0000_0000) by {
        reveal(vstd::arithmetic::power::pow);
        reveal_with_fuel(vstd::arithmetic::power::pow, 17);
    }
}

/// Different keys are cached in different files, all of them in the cache's directory.
pub proof fn keys_have_their_own_files(key: &str, other: &str, r: String, s: String)
    requires
        call_ensures(cache_path, (key,), r),
        call_ensures(cache_path, (other,), s),
    ensures
        r@ == s@ <==> key@ == other@,
        "resources/trajectory_cache/"@.is_prefix_of(r@),
        ".json"@.is_suffix_of(r@),
        r@.len() == key@.len() + 32,
{
    reveal_strlit("resources/trajectory_cache/");
    reveal_strlit(".json");
    if r@ == s@ {
        assert(key@.len() == other@.len());
        assert forall|i: int| 0 <= i < key@.len() implies key@[i] == other@[i] by {
            assert(r@[27 + i] == key@[i]);
            assert(s@[27 + i] == other@[i]);
        }
        assert(key@ =~= other@);
    }
}

} // verus!
