//! Bullet holes, drawn into a model's hole texture.

use vstd::prelude::*;

use crate::gpu::{
    blend_hole, one_target, Binding, BindingKind, PipelinePlan, Stage, Target, TargetFormat,
    Topology,
};
#[allow(unused_imports)]
use crate::gpu::{blended, groups_view, hole_blend, holes_only_darken};
use crate::text::has_text;
#[allow(unused_imports)]
use crate::text::contains_text;

verus! {

/// State of the group.
pub struct BulletHoleRenderGroup {
    /// Nothing was drawn yet.
    pub first_run: bool,
}

/// The uniform for both stages, and a texture with its sampler for the fragments.
pub open spec fn hole_bindings_spec() -> Seq<Binding> {
    seq![
        Binding { binding: 0, stage: Stage::VertexFragment, kind: BindingKind::Uniform },
        Binding {
            binding: 1,
            stage: Stage::Fragment,
            kind: BindingKind::Texture { filterable: true },
        },
        Binding { binding: 2, stage: Stage::Fragment, kind: BindingKind::Sampler },
    ]
}

impl BulletHoleRenderGroup {
    pub fn new() -> (r: Self)
        ensures
            r.first_run,
    {
        BulletHoleRenderGroup { first_run: true }
    }

    /// The pipeline of a shader. Decals show both of their sides.
    pub fn pipeline(shader_path: &str) -> (r: PipelinePlan)
        ensures
            groups_view(r.groups@) == seq![hole_bindings_spec()],
            r.vertex_buffer,
            r.targets@ == seq![
                Target { format: TargetFormat::SurfaceSrgb, blend: Some(hole_blend()) },
            ],
            r.cull_back == !contains_text(shader_path@, "decal"@),
            r.topology == Topology::TriangleList,
            r.depth is None,
    {
        let mut group: Vec<Binding> = Vec::new();
        group.push(
            Binding { binding: 0, stage: Stage::VertexFragment, kind: BindingKind::Uniform },
        );
        group.push(
            Binding {
                binding: 1,
                stage: Stage::Fragment,
                kind: BindingKind::Texture { filterable: true },
            },
        );
        group.push(Binding { binding: 2, stage: Stage::Fragment, kind: BindingKind::Sampler });
        assert(group@ == hole_bindings_spec());
        let mut groups: Vec<Vec<Binding>> = Vec::new();
        groups.push(group);
        assert(groups_view(groups@) == seq![hole_bindings_spec()]);
        PipelinePlan {
            groups,
            vertex_buffer: true,
            targets: one_target(TargetFormat::SurfaceSrgb, Some(blend_hole())),
            cull_back: !has_text(shader_path, "decal"),
            topology: Topology::TriangleList,
            depth: None,
        }
    }

    /// Begins a draw and says whether the hole texture is cleared to white first:
    /// before the first hole, and never again.
    pub fn begin(&mut self) -> (r: bool)
        ensures
            r == old(self).first_run,
            !final(self).first_run,
    {
        let clear = self.first_run;
        self.first_run = false;
        clear
    }
}

/// The hole texture is cleared before the first hole alone.
pub proof fn holes_are_cleared_once(group: &mut BulletHoleRenderGroup, r: bool)
    requires
        call_ensures(BulletHoleRenderGroup::begin, (group,), r),
    ensures
        r <==> old(group).first_run,
        !final(group).first_run,
{
}

/// A new group has drawn nothing yet.
pub proof fn groups_start_uncleared(r: BulletHoleRenderGroup)
    requires
        call_ensures(BulletHoleRenderGroup::new, (), r),
    ensures
        r.first_run,
{
}

/// Only a shader whose path names a decal shows both sides; every hole darkens what is
/// there, and none is hidden by depth.
pub proof fn decals_show_both_sides(
    path: &str,
    r: PipelinePlan,
    before: Seq<char>,
    behind: Seq<char>,
    unit: int,
    src: int,
    dst: int,
)
    requires
        call_ensures(BulletHoleRenderGroup::pipeline, (path,), r),
    ensures
        path@ == before + "decal"@ + behind ==> !r.cull_back,
        path@.len() < 5 ==> r.cull_back,
        !r.cull_back ==> contains_text(path@, "decal"@),
        r.depth is None && r.vertex_buffer,
        r.targets@.len() == 1 && r.targets@[0].blend is Some,
        blended(r.targets@[0].blend->0.color, unit, 0, src, dst) == src * dst,
{
    reveal_strlit("decal");
    if path@ == before + "decal"@ + behind {
        assert(path@.subrange(before.len() as int, before.len() as int + 5) =~= "decal"@);
    }
    holes_only_darken(unit, 0, src, dst);
}

} // verus!
