//! The renderer's state, and the order of the passes that make a frame.

use std::collections::hash_map::Entry;
use std::collections::HashMap;

use vstd::prelude::*;

use crate::float_bits::{float_lt, float_order, is_nan, lt, order, FloatBits, Vec3, Vec4, ONE};
use crate::handles::{map_keys, AssetMappings, TextureHandle};
use crate::kb_config::PostProcessMode;
use crate::passes::deferred::SceneLayer;
use crate::passes::gaussian_splat::{
    is_parse_result, GaussianSplatPass, SplatLoadInfo, SplatParams, SplatParse, MAX_SPLATS,
    RADIX_PASSES,
};
use crate::passes::splat_composite::PostProcessSettings;
use crate::sorting::{sort_keyed, Keyed};
#[allow(unused_imports)]
use crate::sorting::{keyed_le, lemma_no_duplicates, lemma_same_pairs};
#[allow(unused_imports)]
use crate::text::contains_text;

verus! {

/// A debug line.
#[derive(Clone, Copy, PartialEq, Eq, Structural)]
pub struct Line {
    pub start: Vec3,
    pub end: Vec3,
    pub color: Vec4,
    pub thickness: FloatBits,
    /// When it disappears.
    pub end_time: FloatBits,
}

/// A particle emitter: whether it runs, where it stands, and its parameters.
pub struct ParticleEntry<P> {
    pub active: bool,
    pub position: Vec3,
    pub scale: Vec3,
    pub params: P,
}

/// One pass of a frame.
#[derive(Clone, Copy, PartialEq, Eq, Structural)]
pub enum FrameStep {
    /// Retires the user interface of a frame that is not drawn.
    DiscardEgui,
    /// Draws a hole into the model of an actor.
    BulletHole(u32),
    WorldGBuffer,
    DeferredLighting,
    WorldOpaque,
    WorldHoles,
    WorldCustom(usize),
    Splats,
    SplatComposite,
    ShadowCatcher,
    Lines,
    ParticlesAlpha,
    ParticlesAdditive,
    Sunbeam,
    ForegroundOpaque,
    ForegroundCustom(usize),
    SkySprites,
    CloudSprites,
    GameSprites,
    CustomSprites(u32),
    Postprocess,
    DebugText,
    Egui,
    Present,
}

/// What a frame is made of, beside the renderer's state.
#[derive(Clone, Copy)]
pub struct FrameInput {
    /// The window gave an image to draw to.
    pub available: bool,
    pub sky_sprites: bool,
    pub cloud_sprites: bool,
    pub game_sprites: bool,
    pub sunbeams: bool,
}

/// `step` alone where `due` holds.
pub open spec fn step_if(due: bool, step: FrameStep) -> Seq<FrameStep> {
    if due {
        seq![step]
    } else {
        seq![]
    }
}

/// The hole that was asked for.
pub open spec fn hole_steps(actor: Option<u32>) -> Seq<FrameStep> {
    match actor {
        Some(id) => seq![FrameStep::BulletHole(id)],
        None => seq![],
    }
}

pub open spec fn world_custom_steps(n: nat) -> Seq<FrameStep> {
    Seq::new(n, |i: int| FrameStep::WorldCustom(i as usize))
}

pub open spec fn foreground_custom_steps(n: nat) -> Seq<FrameStep> {
    Seq::new(n, |i: int| FrameStep::ForegroundCustom(i as usize))
}

pub open spec fn custom_sprite_steps(n: nat) -> Seq<FrameStep> {
    Seq::new(n, |i: int| FrameStep::CustomSprites(i as u32))
}

fn push_if(out: &mut Vec<FrameStep>, due: bool, step: FrameStep)
    ensures
        final(out)@ == old(out)@ + step_if(due, step),
{
    if due {
        out.push(step);
    }
    assert(out@ == old(out)@ + step_if(due, step));
}

fn push_step(out: &mut Vec<FrameStep>, step: FrameStep)
    ensures
        final(out)@ == old(out)@ + seq![step],
{
    out.push(step);
    assert(out@ == old(out)@ + seq![step]);
}

fn push_world_custom(out: &mut Vec<FrameStep>, n: usize)
    ensures
        final(out)@ == old(out)@ + world_custom_steps(n as nat),
{
    let mut i: usize = 0;
    assert(out@ == old(out)@ + world_custom_steps(0));
    while i < n
        invariant
            i <= n,
            out@ == old(out)@ + world_custom_steps(i as nat),
        decreases n - i,
    {
        out.push(FrameStep::WorldCustom(i));
        i += 1;
        assert(out@ == old(out)@ + world_custom_steps(i as nat));
    }
}

fn push_foreground_custom(out: &mut Vec<FrameStep>, n: usize)
    ensures
        final(out)@ == old(out)@ + foreground_custom_steps(n as nat),
{
    let mut i: usize = 0;
    assert(out@ == old(out)@ + foreground_custom_steps(0));
    while i < n
        invariant
            i <= n,
            out@ == old(out)@ + foreground_custom_steps(i as nat),
        decreases n - i,
    {
        out.push(FrameStep::ForegroundCustom(i));
        i += 1;
        assert(out@ == old(out)@ + foreground_custom_steps(i as nat));
    }
}

fn push_custom_sprites(out: &mut Vec<FrameStep>, n: u32)
    ensures
        final(out)@ == old(out)@ + custom_sprite_steps(n as nat),
{
    let mut i: u32 = 0;
    assert(out@ == old(out)@ + custom_sprite_steps(0));
    while i < n
        invariant
            i <= n,
            out@ == old(out)@ + custom_sprite_steps(i as nat),
        decreases n - i,
    {
        out.push(FrameStep::CustomSprites(i));
        i += 1;
        assert(out@ == old(out)@ + custom_sprite_steps(i as nat));
    }
}

/// Parts of the debug text that are drawn.
#[derive(Clone, Copy, PartialEq, Eq, Structural)]
pub enum TextPart {
    Main,
    TopRight,
    Status,
}

pub open spec fn part_if(due: bool, part: TextPart) -> Seq<TextPart> {
    if due {
        seq![part]
    } else {
        seq![]
    }
}

/// What has to follow the window's size.
#[derive(Clone, Copy, PartialEq, Eq, Structural)]
pub enum ResizeStep {
    Device,
    Postprocess,
    Shadow,
    Lighting,
    Sunbeam,
    SplatComposite,
}

pub open spec fn resize_if(due: bool, step: ResizeStep) -> Seq<ResizeStep> {
    if due {
        seq![step]
    } else {
        seq![]
    }
}

/// The renderer's state, with actors, lights and particles of the game's own
/// types.
#[verifier::reject_recursive_types(A)]
#[verifier::reject_recursive_types(L)]
#[verifier::reject_recursive_types(P)]
pub struct Renderer<A, L, P> {
    /// The graphics interface can run the deferred passes.
    pub deferred_supported: bool,
    pub deferred_world_enabled: bool,
    /// Built with the first splats, together with its composite pass.
    pub gaussian_splat_pass: Option<GaussianSplatPass>,
    /// A pass of the user interface was begun and not ended.
    pub egui_pass_active: bool,
    pub status_msg: String,
    pub status_msg_color: Vec4,
    pub bullet_hole_actor_index: Option<u32>,
    pub bullet_hole_trace: (Vec3, Vec3),
    pub custom_world_passes: usize,
    pub custom_foreground_passes: usize,
    pub custom_sprite_passes: u32,
    pub actor_map: HashMap<u32, A>,
    pub light_map: HashMap<u32, L>,
    pub particle_map: HashMap<u32, ParticleEntry<P>>,
    pub next_particle_id: u32,
    pub active_particles: usize,
    pub debug_lines: Vec<Line>,
    pub postprocess_mode: PostProcessMode,
    pub post_process_settings: PostProcessSettings,
    pub frame_times: Vec<FloatBits>,
    pub frame_count: u32,
    pub allow_debug_text: bool,
    pub display_debug_msg: bool,
    pub debug_text_top_offset: FloatBits,
    pub show_help_hint: bool,
    pub game_debug_msg: String,
    pub game_hud_msg: String,
    pub game_topright_msg: String,
    pub debug_msg_color: Vec4,
}

/// Frames between two measurements of the frame time.
pub const FRAMES_PER_MEASUREMENT: u32 = 17;

/// Most measurements that are kept.
pub const MAX_FRAME_TIMES: usize = 11;

/// The measurements after one more; the oldest one leaves where there is no room.
pub open spec fn with_frame_time(times: Seq<FloatBits>, time: FloatBits) -> Seq<FloatBits> {
    if times.len() >= MAX_FRAME_TIMES {
        times.skip(1).push(time)
    } else {
        times.push(time)
    }
}

/// The lines that are still shown at a time, in order.
pub open spec fn lines_after(lines: Seq<Line>, time: FloatBits) -> Seq<Line>
    decreases lines.len(),
{
    if lines.len() == 0 {
        seq![]
    } else {
        let rest = lines_after(lines.drop_last(), time);
        if lt(time, lines.last().end_time) {
            rest.push(lines.last())
        } else {
            rest
        }
    }
}

/// The handle after a handle.
pub open spec fn next_particle(id: u32) -> u32 {
    if id == u32::MAX {
        0
    } else {
        (id + 1) as u32
    }
}

impl<A, L, P> Renderer<A, L, P> {
    /// Frame counters are within their bounds, and the splats are well formed.
    pub open spec fn wf(&self) -> bool {
        &&& self.frame_count < FRAMES_PER_MEASUREMENT
        &&& self.frame_times@.len() <= MAX_FRAME_TIMES
        &&& self.gaussian_splat_pass matches Some(p) ==> p.wf()
    }

    pub fn new(deferred_supported: bool, post_process_settings: PostProcessSettings) -> (r: Self)
        ensures
            r.wf(),
            r.deferred_supported == deferred_supported,
            !r.deferred_world_enabled,
            r.gaussian_splat_pass is None,
            !r.egui_pass_active,
            r.status_msg@.len() == 0,
            r.status_msg_color == (Vec4 { x: ONE, y: 0x3e80_0000, z: 0x3e4c_cccd, w: ONE }),
            r.bullet_hole_actor_index is None,
            r.bullet_hole_trace == (Vec3 { x: 0, y: 0, z: 0 }, Vec3 { x: 0, y: 0, z: 0 }),
            r.custom_world_passes == 0,
            r.custom_foreground_passes == 0,
            r.custom_sprite_passes == 0,
            r.actor_map@ == Map::<u32, A>::empty(),
            r.light_map@ == Map::<u32, L>::empty(),
            r.particle_map@ == Map::<u32, ParticleEntry<P>>::empty(),
            r.next_particle_id == u32::MAX,
            r.active_particles == 0,
            r.debug_lines@.len() == 0,
            r.postprocess_mode == PostProcessMode::Passthrough,
            r.post_process_settings == post_process_settings,
            r.frame_times@.len() == 0,
            r.frame_count == 0,
            r.allow_debug_text,
            !r.display_debug_msg,
            r.debug_text_top_offset == 0x4120_0000,
            r.show_help_hint,
            r.game_debug_msg@.len() == 0,
            r.game_hud_msg@.len() == 0,
            r.game_topright_msg@.len() == 0,
            r.debug_msg_color == (Vec4 { x: 0, y: ONE, z: 0, w: ONE }),
    {
        broadcast use vstd::std_specs::hash::group_hash_axioms;

        Renderer {
            deferred_supported,
            deferred_world_enabled: false,
            gaussian_splat_pass: None,
            egui_pass_active: false,
            status_msg: String::new(),
            status_msg_color: Vec4 { x: ONE, y: 0x3e80_0000, z: 0x3e4c_cccd, w: ONE },
            bullet_hole_actor_index: None,
            bullet_hole_trace: (Vec3 { x: 0, y: 0, z: 0 }, Vec3 { x: 0, y: 0, z: 0 }),
            custom_world_passes: 0,
            custom_foreground_passes: 0,
            custom_sprite_passes: 0,
            actor_map: HashMap::new(),
            light_map: HashMap::new(),
            particle_map: HashMap::new(),
            next_particle_id: u32::MAX,
            active_particles: 0,
            debug_lines: Vec::new(),
            postprocess_mode: PostProcessMode::Passthrough,
            post_process_settings,
            frame_times: Vec::new(),
            frame_count: 0,
            allow_debug_text: true,
            display_debug_msg: false,
            debug_text_top_offset: 0x4120_0000,
            show_help_hint: true,
            game_debug_msg: String::new(),
            game_hud_msg: String::new(),
            game_topright_msg: String::new(),
            debug_msg_color: Vec4 { x: 0, y: ONE, z: 0, w: ONE },
        }
    }

    /// There is a splat cloud to draw.
    pub open spec fn has_splats(&self) -> bool {
        self.gaussian_splat_pass matches Some(p) && p.models@.len() > 0
    }

    /// The world is lit by the deferred passes.
    pub open spec fn is_deferred(&self) -> bool {
        self.deferred_world_enabled && self.deferred_supported
    }

    /// The passes that draw the scene, in order. World geometry comes first; splats are
    /// hidden by it and come right after; what is transparent goes on top of them;
    /// then the foreground, the sprites, and the passes on the finished image.
    pub open spec fn scene_steps(&self, input: FrameInput) -> Seq<FrameStep> {
        let actors = self.actor_map@.dom().len() > 0;
        let particles = self.particle_map@.dom().len() > 0;
        hole_steps(self.bullet_hole_actor_index) + step_if(
            self.is_deferred(),
            FrameStep::WorldGBuffer,
        ) + step_if(self.is_deferred(), FrameStep::DeferredLighting) + step_if(
            !self.is_deferred(),
            FrameStep::WorldOpaque,
        ) + seq![FrameStep::WorldHoles] + world_custom_steps(
            if actors {
                self.custom_world_passes as nat
            } else {
                0
            },
        ) + step_if(self.has_splats(), FrameStep::Splats) + step_if(
            self.has_splats(),
            FrameStep::SplatComposite,
        ) + step_if(self.has_splats() && self.is_deferred(), FrameStep::ShadowCatcher) + seq![
            FrameStep::Lines,
        ] + step_if(particles, FrameStep::ParticlesAlpha) + step_if(
            particles,
            FrameStep::ParticlesAdditive,
        ) + step_if(input.sunbeams, FrameStep::Sunbeam) + step_if(
            actors,
            FrameStep::ForegroundOpaque,
        ) + foreground_custom_steps(
            if actors {
                self.custom_foreground_passes as nat
            } else {
                0
            },
        ) + step_if(input.sky_sprites, FrameStep::SkySprites) + step_if(
            input.cloud_sprites,
            FrameStep::CloudSprites,
        ) + step_if(input.game_sprites, FrameStep::GameSprites) + custom_sprite_steps(
            self.custom_sprite_passes as nat,
        ) + seq![FrameStep::Postprocess] + seq![FrameStep::DebugText]
    }

    /// The passes of a frame. Where there is no image to draw to, the user interface
    /// is retired and nothing is drawn.
    pub open spec fn frame_steps(&self, input: FrameInput) -> Seq<FrameStep> {
        if input.available {
            self.scene_steps(input) + step_if(self.egui_pass_active, FrameStep::Egui) + seq![
                FrameStep::Present,
            ]
        } else {
            step_if(self.egui_pass_active, FrameStep::DiscardEgui)
        }
    }

    /// Plans a frame. A hole that was asked for is drawn once, and the pass of the
    /// user interface is ended either way.
    #[verifier::rlimit(40)]
    pub fn render_frame(&mut self, input: FrameInput) -> (r: Vec<FrameStep>)
        requires
            old(self).wf(),
            input.available ==> (old(self).bullet_hole_actor_index matches Some(id) ==> old(
                self,
            ).actor_map@.contains_key(id)),
        ensures
            r@ == old(self).frame_steps(input),
            *final(self) == (Renderer {
                egui_pass_active: false,
                bullet_hole_actor_index: if input.available {
                    None
                } else {
                    old(self).bullet_hole_actor_index
                },
                ..*old(self)
            }),
    {
        broadcast use vstd::std_specs::hash::group_hash_axioms;

        let mut out: Vec<FrameStep> = Vec::new();
        if !input.available {
            push_if(&mut out, self.egui_pass_active, FrameStep::DiscardEgui);
            self.egui_pass_active = false;
            assert(out@ == old(self).frame_steps(input));
            return out;
        }
        let actors = self.actor_map.len() > 0;
        let particles = self.particle_map.len() > 0;
        let deferred = self.deferred_world_enabled && self.deferred_supported;
        let splats = match &self.gaussian_splat_pass {
            Some(p) => p.has_model(),
            None => false,
        };
        match self.bullet_hole_actor_index {
            Some(id) => {
                out.push(FrameStep::BulletHole(id));
            },
            None => {},
        }
        assert(out@ == hole_steps(self.bullet_hole_actor_index));
        push_if(&mut out, deferred, FrameStep::WorldGBuffer);
        push_if(&mut out, deferred, FrameStep::DeferredLighting);
        push_if(&mut out, !deferred, FrameStep::WorldOpaque);
        push_step(&mut out, FrameStep::WorldHoles);
        push_world_custom(
            &mut out,
            if actors {
                self.custom_world_passes
            } else {
                0
            },
        );
        push_if(&mut out, splats, FrameStep::Splats);
        push_if(&mut out, splats, FrameStep::SplatComposite);
        push_if(&mut out, splats && deferred, FrameStep::ShadowCatcher);
        push_step(&mut out, FrameStep::Lines);
        push_if(&mut out, particles, FrameStep::ParticlesAlpha);
        push_if(&mut out, particles, FrameStep::ParticlesAdditive);
        push_if(&mut out, input.sunbeams, FrameStep::Sunbeam);
        push_if(&mut out, actors, FrameStep::ForegroundOpaque);
        push_foreground_custom(
            &mut out,
            if actors {
                self.custom_foreground_passes
            } else {
                0
            },
        );
        push_if(&mut out, input.sky_sprites, FrameStep::SkySprites);
        push_if(&mut out, input.cloud_sprites, FrameStep::CloudSprites);
        push_if(&mut out, input.game_sprites, FrameStep::GameSprites);
        push_custom_sprites(&mut out, self.custom_sprite_passes);
        push_step(&mut out, FrameStep::Postprocess);
        push_step(&mut out, FrameStep::DebugText);
        push_if(&mut out, self.egui_pass_active, FrameStep::Egui);
        push_step(&mut out, FrameStep::Present);
        self.egui_pass_active = false;
        self.bullet_hole_actor_index = None;
        out
    }

    /// Begins a pass of the user interface and says whether one that was never
    /// drawn has to be ended first.
    pub fn begin_egui_pass(&mut self) -> (r: bool)
        ensures
            r == old(self).egui_pass_active,
            *final(self) == (Renderer { egui_pass_active: true, ..*old(self) }),
    {
        let stale = self.egui_pass_active;
        self.egui_pass_active = true;
        stale
    }

    /// What has to follow a new window size, in order.
    pub fn resize(&self) -> (r: Vec<ResizeStep>)
        ensures
            r@ == seq![ResizeStep::Device, ResizeStep::Postprocess] + resize_if(
                self.deferred_supported,
                ResizeStep::Shadow,
            ) + resize_if(self.deferred_supported, ResizeStep::Lighting) + seq![ResizeStep::Sunbeam]
                + resize_if(self.gaussian_splat_pass is Some, ResizeStep::SplatComposite),
    {
        let mut out: Vec<ResizeStep> = Vec::new();
        out.push(ResizeStep::Device);
        out.push(ResizeStep::Postprocess);
        if self.deferred_supported {
            out.push(ResizeStep::Shadow);
            out.push(ResizeStep::Lighting);
        }
        out.push(ResizeStep::Sunbeam);
        if self.gaussian_splat_pass.is_some() {
            out.push(ResizeStep::SplatComposite);
        }
        assert(out@ == seq![ResizeStep::Device, ResizeStep::Postprocess] + resize_if(
            self.deferred_supported,
            ResizeStep::Shadow,
        ) + resize_if(self.deferred_supported, ResizeStep::Lighting) + seq![ResizeStep::Sunbeam]
            + resize_if(self.gaussian_splat_pass is Some, ResizeStep::SplatComposite));
        out
    }

    /// The line that says how to get help, unless the game shows help another way.
    pub open spec fn hint(&self) -> Seq<char> {
        if !self.show_help_hint {
            ""@
        } else if self.display_debug_msg {
            "Press [H] to hide help\n"@
        } else {
            "Press [H] for help.  Press [Space] to cycle scenes\n\n"@
        }
    }

    /// The debug text, from numbers that were written out by the caller.
    pub open spec fn main_text(
        &self,
        frame_rate: Seq<char>,
        frame_ms: Seq<char>,
        backend: Seq<char>,
        adapter: Seq<char>,
    ) -> Seq<char> {
        if self.display_debug_msg {
            self.hint() + self.game_debug_msg@ + "\nFPS: "@ + frame_rate + " \nFrame time: "@
                + frame_ms + " ms\nBack End: "@ + backend + "\nGraphics: "@ + adapter + "\n\n"@
                + self.game_hud_msg@ + "\n"@
        } else {
            self.hint() + "FPS: "@ + frame_rate + "\n\n "@ + self.game_hud_msg@
        }
    }

    /// Writes the debug text: the full one while help is shown, and else the frame
    /// rate alone.
    fn debug_text(&self, frame_rate: &str, frame_ms: &str, backend: &str, adapter: &str) -> (r:
        String)
        ensures
            r@ == self.main_text(frame_rate@, frame_ms@, backend@, adapter@),
    {
        let hint = if !self.show_help_hint {
            ""
        } else if self.display_debug_msg {
            "Press [H] to hide help\n"
        } else {
            "Press [H] for help.  Press [Space] to cycle scenes\n\n"
        };
        let mut out = String::from_str(hint);
        if self.display_debug_msg {
            out.append(self.game_debug_msg.as_str());
            out.append("\nFPS: ");
            out.append(frame_rate);
            out.append(" \nFrame time: ");
            out.append(frame_ms);
            out.append(" ms\nBack End: ");
            out.append(backend);
            out.append("\nGraphics: ");
            out.append(adapter);
            out.append("\n\n");
            out.append(self.game_hud_msg.as_str());
            out.append("\n");
        } else {
            out.append("FPS: ");
            out.append(frame_rate);
            out.append("\n\n ");
            out.append(self.game_hud_msg.as_str());
        }
        out
    }

    /// The parts of the text that are drawn, in order. The status line shows even
    /// where debug text is off.
    pub open spec fn parts(&self) -> Seq<TextPart> {
        part_if(self.allow_debug_text, TextPart::Main) + part_if(
            self.allow_debug_text && self.display_debug_msg && self.game_topright_msg@.len() > 0,
            TextPart::TopRight,
        ) + part_if(self.status_msg@.len() > 0, TextPart::Status)
    }

    fn text_parts(&self) -> (r: Vec<TextPart>)
        ensures
            r@ == self.parts(),
    {
        let mut out: Vec<TextPart> = Vec::new();
        if self.allow_debug_text {
            out.push(TextPart::Main);
            if self.display_debug_msg && !self.game_topright_msg.as_str().is_empty() {
                out.push(TextPart::TopRight);
            }
        }
        if !self.status_msg.as_str().is_empty() {
            out.push(TextPart::Status);
        }
        assert(out@ == self.parts());
        out
    }

    /// Counts a frame. After `FRAMES_PER_MEASUREMENT` frames `measure`, which is
    /// given their number, says how long one took.
    fn count_frame<F: Fn(u32) -> FloatBits>(&mut self, measure: &F)
        requires
            old(self).wf(),
            forall|n: u32| call_requires(*measure, (n,)),
        ensures
            final(self).wf(),
            old(self).frame_count + 1 < FRAMES_PER_MEASUREMENT ==> *final(self) == (Renderer {
                frame_count: (old(self).frame_count + 1) as u32,
                ..*old(self)
            }),
            old(self).frame_count + 1 >= FRAMES_PER_MEASUREMENT ==> {
                &&& *final(self) == (Renderer {
                    frame_count: 0,
                    frame_times: final(self).frame_times,
                    ..*old(self)
                })
                &&& exists|time: FloatBits|
                    call_ensures(*measure, (FRAMES_PER_MEASUREMENT,), time) && final(self).frame_times@ == #[trigger] with_frame_time(old(self).frame_times@, time)
            },
    {
        self.frame_count += 1;
        if self.frame_count >= FRAMES_PER_MEASUREMENT {
            let time = measure(self.frame_count);
            if self.frame_times.len() >= MAX_FRAME_TIMES {
                self.frame_times.remove(0);
                assert(self.frame_times@ == old(self).frame_times@.skip(1));
            }
            self.frame_times.push(time);
            self.frame_count = 0;
            assert(self.frame_times@ == with_frame_time(old(self).frame_times@, time));
        }
    }

    /// The text of a frame: what is written, and which parts are drawn; `None` where
    /// nothing is drawn. The frame is counted either way.
    pub fn render_debug_text<F: Fn(u32) -> FloatBits>(
        &mut self,
        frame_rate: &str,
        frame_ms: &str,
        backend: &str,
        adapter: &str,
        measure: &F,
    ) -> (r: Option<(String, Vec<TextPart>)>)
        requires
            old(self).wf(),
            forall|n: u32| call_requires(*measure, (n,)),
        ensures
            final(self).wf(),
            match r {
                Some(drawn) => {
                    &&& old(self).allow_debug_text || old(self).status_msg@.len() > 0
                    &&& drawn.0@ == old(self).main_text(frame_rate@, frame_ms@, backend@, adapter@)
                    &&& drawn.1@ == old(self).parts()
                },
                None => !old(self).allow_debug_text && old(self).status_msg@.len() == 0,
            },
            old(self).frame_count + 1 < FRAMES_PER_MEASUREMENT ==> *final(self) == (Renderer {
                frame_count: (old(self).frame_count + 1) as u32,
                ..*old(self)
            }),
            old(self).frame_count + 1 >= FRAMES_PER_MEASUREMENT ==> {
                &&& *final(self) == (Renderer {
                    frame_count: 0,
                    frame_times: final(self).frame_times,
                    ..*old(self)
                })
                &&& exists|time: FloatBits|
                    call_ensures(*measure, (FRAMES_PER_MEASUREMENT,), time) && final(self).frame_times@ == #[trigger] with_frame_time(old(self).frame_times@, time)
            },
    {
        let drawn = if self.allow_debug_text || !self.status_msg.as_str().is_empty() {
            Some((self.debug_text(frame_rate, frame_ms, backend, adapter), self.text_parts()))
        } else {
            None
        };
        self.count_frame(measure);
        drawn
    }

    /// Drops the lines whose time is over.
    pub fn retire_lines(&mut self, time: FloatBits)
        ensures
            final(self).debug_lines@ == lines_after(old(self).debug_lines@, time),
            *final(self) == (Renderer { debug_lines: final(self).debug_lines, ..*old(self) }),
    {
        let mut kept: Vec<Line> = Vec::new();
        let ghost all = self.debug_lines@;
        let mut i: usize = 0;
        assert(all.take(0).len() == 0);
        while i < self.debug_lines.len()
            invariant
                i <= self.debug_lines.len(),
                *self == *old(self),
                all == self.debug_lines@,
                kept@ == lines_after(all.take(i as int), time),
            decreases self.debug_lines.len() - i,
        {
            let line = self.debug_lines[i];
            assert(all.take(i + 1).drop_last() == all.take(i as int));
            if float_lt(time, line.end_time) {
                kept.push(line);
            }
            i += 1;
        }
        assert(all.take(all.len() as int) == all);
        self.debug_lines = kept;
    }

    /// Ends a frame: one that was drawn retires the lines whose time is over, and one
    /// that was not leaves everything as it is.
    pub fn finish_frame(&mut self, available: bool, time: FloatBits)
        ensures
            final(self).debug_lines@ == if available {
                lines_after(old(self).debug_lines@, time)
            } else {
                old(self).debug_lines@
            },
            *final(self) == (Renderer { debug_lines: final(self).debug_lines, ..*old(self) }),
    {
        if available {
            self.retire_lines(time);
        }
    }

    pub fn add_line(&mut self, line: Line)
        ensures
            final(self).debug_lines@ == old(self).debug_lines@.push(line),
            *final(self) == (Renderer { debug_lines: final(self).debug_lines, ..*old(self) }),
    {
        self.debug_lines.push(line);
    }

    /// Stores an actor under its number, in place of the one before.
    pub fn add_or_update_actor(&mut self, id: u32, actor: A)
        ensures
            final(self).actor_map@ == old(self).actor_map@.insert(id, actor),
            *final(self) == (Renderer { actor_map: final(self).actor_map, ..*old(self) }),
    {
        broadcast use vstd::std_specs::hash::group_hash_axioms;

        self.actor_map.insert(id, actor);
    }

    pub fn remove_actor(&mut self, id: u32)
        ensures
            final(self).actor_map@ == old(self).actor_map@.remove(id),
            *final(self) == (Renderer { actor_map: final(self).actor_map, ..*old(self) }),
    {
        broadcast use vstd::std_specs::hash::group_hash_axioms;

        self.actor_map.remove(&id);
    }

    /// Stores a light under its number, in place of the one before.
    pub fn add_or_update_light(&mut self, id: u32, light: L)
        ensures
            final(self).light_map@ == old(self).light_map@.insert(id, light),
            *final(self) == (Renderer { light_map: final(self).light_map, ..*old(self) }),
    {
        broadcast use vstd::std_specs::hash::group_hash_axioms;

        self.light_map.insert(id, light);
    }

    pub fn remove_light(&mut self, id: u32)
        ensures
            final(self).light_map@ == old(self).light_map@.remove(id),
            *final(self) == (Renderer { light_map: final(self).light_map, ..*old(self) }),
    {
        broadcast use vstd::std_specs::hash::group_hash_axioms;

        self.light_map.remove(&id);
    }

    pub fn clear_lights(&mut self)
        ensures
            final(self).light_map@ == Map::<u32, L>::empty(),
            *final(self) == (Renderer { light_map: final(self).light_map, ..*old(self) }),
    {
        broadcast use vstd::std_specs::hash::group_hash_axioms;

        self.light_map.clear();
    }

    pub fn set_deferred_world_enabled(&mut self, enabled: bool)
        ensures
            *final(self) == (Renderer { deferred_world_enabled: enabled, ..*old(self) }),
    {
        self.deferred_world_enabled = enabled;
    }

    /// Stores a particle emitter under a new handle.
    pub fn add_particle_actor(&mut self, position: &Vec3, scale: &Vec3, params: P, active: bool) -> (r:
        u32)
        ensures
            r == next_particle(old(self).next_particle_id),
            final(self).particle_map@ == old(self).particle_map@.insert(
                r,
                ParticleEntry { active, position: *position, scale: *scale, params },
            ),
            *final(self) == (Renderer {
                next_particle_id: r,
                particle_map: final(self).particle_map,
                ..*old(self)
            }),
    {
        broadcast use vstd::std_specs::hash::group_hash_axioms;

        let id: u32 = if self.next_particle_id == u32::MAX {
            0
        } else {
            self.next_particle_id + 1
        };
        self.next_particle_id = id;
        self.particle_map.insert(
            id,
            ParticleEntry { active, position: *position, scale: *scale, params },
        );
        id
    }

    pub fn remove_particle_actor(&mut self, handle: u32)
        ensures
            final(self).particle_map@ == old(self).particle_map@.remove(handle),
            *final(self) == (Renderer { particle_map: final(self).particle_map, ..*old(self) }),
    {
        broadcast use vstd::std_specs::hash::group_hash_axioms;

        self.particle_map.remove(&handle);
    }

    /// A particle emitter, for changes in place.
    pub fn particle_mut(&mut self, handle: u32) -> (r: Option<&mut ParticleEntry<P>>)
        ensures
            match r {
                Some(e) => {
                    &&& old(self).particle_map@.contains_key(handle)
                    &&& *e == old(self).particle_map@[handle]
                    &&& final(self).particle_map@ == old(self).particle_map@.insert(
                        handle,
                        *final(e),
                    )
                },
                None => {
                    &&& !old(self).particle_map@.contains_key(handle)
                    &&& final(self).particle_map@ == old(self).particle_map@
                },
            },
            *final(self) == (Renderer { particle_map: final(self).particle_map, ..*old(self) }),
    {
        broadcast use vstd::std_specs::hash::group_hash_axioms;

        match self.particle_map.entry(handle) {
            Entry::Occupied(e) => Some(e.into_mut()),
            Entry::Vacant(_) => None,
        }
    }

    /// Starts or stops a particle emitter.
    pub fn enable_particle_actor(&mut self, handle: u32, enable: bool)
        requires
            old(self).particle_map@.contains_key(handle),
        ensures
            final(self).particle_map@ == old(self).particle_map@.insert(
                handle,
                ParticleEntry { active: enable, ..old(self).particle_map@[handle] },
            ),
            *final(self) == (Renderer { particle_map: final(self).particle_map, ..*old(self) }),
    {
        if let Some(e) = self.particle_mut(handle) {
            e.active = enable;
        }
    }

    /// Moves a particle emitter, and scales it where a scale is given.
    pub fn update_particle_transform(
        &mut self,
        handle: u32,
        position: &Vec3,
        scale: &Option<Vec3>,
    )
        requires
            old(self).particle_map@.contains_key(handle),
        ensures
            final(self).particle_map@ == old(self).particle_map@.insert(
                handle,
                ParticleEntry {
                    position: *position,
                    scale: match *scale {
                        Some(s) => s,
                        None => old(self).particle_map@[handle].scale,
                    },
                    ..old(self).particle_map@[handle]
                },
            ),
            *final(self) == (Renderer { particle_map: final(self).particle_map, ..*old(self) }),
    {
        if let Some(e) = self.particle_mut(handle) {
            e.position = *position;
            if let Some(s) = scale {
                e.scale = *s;
            }
        }
    }

    /// Replaces the parameters of a particle emitter; an emitter that is gone is
    /// ignored.
    pub fn update_particle_params(&mut self, handle: u32, params: P)
        ensures
            final(self).particle_map@ == if old(self).particle_map@.contains_key(handle) {
                old(self).particle_map@.insert(
                    handle,
                    ParticleEntry { params, ..old(self).particle_map@[handle] },
                )
            } else {
                old(self).particle_map@
            },
            *final(self) == (Renderer { particle_map: final(self).particle_map, ..*old(self) }),
    {
        if let Some(e) = self.particle_mut(handle) {
            e.params = params;
        }
    }

    /// The emitters that run, each once, in no particular order; they are counted.
    pub fn update_particles(&mut self) -> (r: Vec<u32>)
        ensures
            r@.no_duplicates(),
            forall|k: u32| #[trigger]
                r@.contains(k) <==> old(self).particle_map@.contains_key(k) && old(self).particle_map@[k].active,
            *final(self) == (Renderer { active_particles: r@.len() as usize, ..*old(self) }),
    {
        broadcast use vstd::std_specs::hash::group_hash_axioms;

        let all = map_keys(&self.particle_map);
        let mut out: Vec<u32> = Vec::new();
        let mut i: usize = 0;
        let ghost map = self.particle_map@;
        while i < all.len()
            invariant
                i <= all.len(),
                *self == *old(self),
                map == self.particle_map@,
                all@.no_duplicates(),
                forall|k: u32| #[trigger] all@.contains(k) <==> map.contains_key(k),
                out@.no_duplicates(),
                forall|j: int|
                    0 <= j < out@.len() ==> map[#[trigger] out@[j]].active && exists|n: int|
                        0 <= n < i && #[trigger] all@[n] == out@[j],
                forall|n: int|
                    0 <= n < i && map[#[trigger] all@[n]].active ==> out@.contains(all@[n]),
            decreases all.len() - i,
        {
            let id: u32 = all[i];
            assert(all@.contains(id));
            let ghost before = out@;
            assert(!before.contains(id)) by {
                if before.contains(id) {
                    let j = choose|j: int| 0 <= j < before.len() && before[j] == id;
                    let n = choose|n: int| 0 <= n < i && #[trigger] all@[n] == before[j];
                    assert(all@[n] == all@[i as int]);
                }
            }
            match self.particle_map.get(&id) {
                Some(e) => {
                    if e.active {
                        out.push(id);
                        assert(out@[before.len() as int] == id);
                    }
                },
                None => {},
            }
            proof {
                assert forall|n: int|
                    0 <= n < i + 1 && map[#[trigger] all@[n]].active implies out@.contains(
                    all@[n],
                ) by {
                    if n < i {
                        let j = choose|j: int| 0 <= j < before.len() && before[j] == all@[n];
                        assert(out@[j] == all@[n]);
                    }
                }
                assert forall|j: int| 0 <= j < out@.len() implies map[#[trigger] out@[j]].active
                    && exists|n: int| 0 <= n < i + 1 && #[trigger] all@[n] == out@[j] by {
                    if j < before.len() {
                        assert(out@[j] == before[j]);
                        let n = choose|n: int| 0 <= n < i && #[trigger] all@[n] == before[j];
                        assert(all@[n] == out@[j]);
                    } else {
                        assert(all@[i as int] == out@[j]);
                    }
                }
            }
            i += 1;
        }
        proof {
            assert forall|k: u32| #[trigger] out@.contains(k) <==> map.contains_key(k)
                && map[k].active by {
                if out@.contains(k) {
                    let j = choose|j: int| 0 <= j < out@.len() && out@[j] == k;
                    let n = choose|n: int| 0 <= n < all@.len() && #[trigger] all@[n] == out@[j];
                    assert(all@.contains(k));
                }
                if map.contains_key(k) && map[k].active {
                    assert(all@.contains(k));
                    let n = choose|n: int| 0 <= n < all@.len() && all@[n] == k;
                    assert(out@.contains(all@[n]));
                }
            }
        }
        self.active_particles = out.len();
        out
    }

    pub fn num_active_particles(&self) -> (r: usize)
        ensures
            r == self.active_particles,
    {
        self.active_particles
    }

    /// Builds the splat pass, if there is none yet, and says whether it was built.
    pub fn ensure_gaussian_splat_pipeline(&mut self) -> (r: bool)
        requires
            old(self).wf(),
        ensures
            final(self).wf(),
            r == old(self).gaussian_splat_pass is None,
            final(self).gaussian_splat_pass is Some,
            !r ==> *final(self) == *old(self),
            r ==> *final(self) == (Renderer {
                gaussian_splat_pass: final(self).gaussian_splat_pass,
                ..*old(self)
            }),
            r ==> {
                let pass = final(self).gaussian_splat_pass->0;
                &&& pass.models@.len() == 0
                &&& pass.active_model == 0
                &&& pass.params == (SplatParams {
                    falloff: 0x4100_0000,
                    scale: ONE,
                    contrast: ONE,
                    max_sh_degree: 0,
                    overall_scale: ONE,
                })
            },
    {
        if self.gaussian_splat_pass.is_some() {
            return false;
        }
        self.gaussian_splat_pass = Some(GaussianSplatPass::new());
        true
    }

    /// Parses a splat `.ply` and appends it as a cloud that can be selected. The
    /// splat pass must exist by then. On failure a short reason that can be shown
    /// is returned and no cloud is added.
    pub fn load_gaussian_splat_from_bytes(
        &mut self,
        bytes: &[u8],
        name: &str,
        params: &SplatParams,
        max_splats: usize,
        min_uniform_buffer_offset_alignment: u32,
    ) -> (r: Result<SplatLoadInfo, String>)
        requires
            old(self).wf(),
            max_splats <= MAX_SPLATS,
            RADIX_PASSES * min_uniform_buffer_offset_alignment <= u32::MAX,
        ensures
            final(self).wf(),
            *final(self) == (Renderer {
                gaussian_splat_pass: final(self).gaussian_splat_pass,
                ..*old(self)
            }),
            match old(self).gaussian_splat_pass {
                None => final(self).gaussian_splat_pass is None && (r matches Err(e) && e@
                    == "splat renderer not initialized"@),
                Some(before) => final(self).gaussian_splat_pass matches Some(after) && {
                    &&& after.params == *params
                    &&& after.active_model == before.active_model
                    &&& match r {
                        Err(e) => is_parse_result(Err(e), bytes@, max_splats as nat)
                            && after.models == before.models,
                        Ok(info) => {
                            &&& after.models@.len() == before.models@.len() + 1
                            &&& after.models@.drop_last() == before.models@
                            &&& info.num_splats == after.models@.last().splats@.len()
                            &&& GaussianSplatPass::is_new_model(
                                after.models@.last(),
                                after.models@.last().splats@,
                                min_uniform_buffer_offset_alignment,
                            )
                            &&& is_parse_result(
                                Ok(
                                    SplatParse {
                                        instances: after.models@.last().splats,
                                        clamped_from: info.clamped_from,
                                    },
                                ),
                                bytes@,
                                max_splats as nat,
                            )
                        },
                    }
                },
            },
    {
        match &mut self.gaussian_splat_pass {
            None => Err(String::from_str("splat renderer not initialized")),
            Some(pass) => {
                pass.set_params(params);
                pass.load_from_bytes(bytes, name, max_splats, min_uniform_buffer_offset_alignment)
            },
        }
    }

    /// Number of splat clouds loaded.
    pub fn num_gaussian_splats(&self) -> (r: usize)
        ensures
            r == match self.gaussian_splat_pass {
                Some(p) => p.models@.len(),
                None => 0,
            },
    {
        match &self.gaussian_splat_pass {
            Some(p) => p.num_models(),
            None => 0,
        }
    }

    /// Selects the splat cloud to draw; an index out of range is ignored.
    pub fn set_active_gaussian_splat(&mut self, index: usize)
        requires
            old(self).wf(),
        ensures
            final(self).wf(),
            *final(self) == (Renderer {
                gaussian_splat_pass: final(self).gaussian_splat_pass,
                ..*old(self)
            }),
            match old(self).gaussian_splat_pass {
                None => final(self).gaussian_splat_pass is None,
                Some(p) => final(self).gaussian_splat_pass == Some(
                    GaussianSplatPass {
                        active_model: if index < p.models@.len() {
                            index
                        } else {
                            p.active_model
                        },
                        ..p
                    },
                ),
            },
    {
        if let Some(pass) = &mut self.gaussian_splat_pass {
            pass.set_active_model(index);
        }
    }

    /// Unloads every splat cloud.
    pub fn clear_gaussian_splats(&mut self)
        requires
            old(self).wf(),
        ensures
            final(self).wf(),
            *final(self) == (Renderer {
                gaussian_splat_pass: final(self).gaussian_splat_pass,
                ..*old(self)
            }),
            match old(self).gaussian_splat_pass {
                None => final(self).gaussian_splat_pass is None,
                Some(p) => final(self).gaussian_splat_pass matches Some(q) && q.models@.len() == 0
                    && q.active_model == 0 && q.params == p.params,
            },
    {
        if let Some(pass) = &mut self.gaussian_splat_pass {
            pass.clear_models();
        }
    }

    /// Unloads one splat cloud; an index out of range is ignored.
    pub fn remove_gaussian_splat(&mut self, index: usize)
        requires
            old(self).wf(),
        ensures
            final(self).wf(),
            *final(self) == (Renderer {
                gaussian_splat_pass: final(self).gaussian_splat_pass,
                ..*old(self)
            }),
            match old(self).gaussian_splat_pass {
                None => final(self).gaussian_splat_pass is None,
                Some(p) => final(self).gaussian_splat_pass matches Some(q) && q.params == p.params
                    && if index < p.models@.len() {
                    &&& q.models@ == p.models@.remove(index as int)
                    &&& q.active_model == GaussianSplatPass::active_after_removal(
                        p.active_model as int,
                        index as int,
                        p.models@.len() as int,
                    )
                } else {
                    q == p
                },
            },
    {
        if let Some(pass) = &mut self.gaussian_splat_pass {
            pass.remove_model(index);
        }
    }

    /// Number of splats in the active cloud; zero where there is none.
    pub fn active_gaussian_splat_count(&self) -> (r: u32)
        requires
            self.wf(),
        ensures
            r == match self.gaussian_splat_pass {
                Some(p) => if p.models@.len() == 0 {
                    0
                } else {
                    p.models@[p.active_model as int].num_splats
                },
                None => 0,
            },
    {
        match &self.gaussian_splat_pass {
            Some(p) => p.active_splat_count(),
            None => 0,
        }
    }

    pub fn set_gaussian_splat_params(&mut self, params: &SplatParams)
        ensures
            *final(self) == (Renderer {
                gaussian_splat_pass: match old(self).gaussian_splat_pass {
                    Some(p) => Some(GaussianSplatPass { params: *params, ..p }),
                    None => None,
                },
                ..*old(self)
            }),
    {
        if let Some(pass) = &mut self.gaussian_splat_pass {
            pass.set_params(params);
        }
    }

    /// Adds a custom pass to a layer that has them, and returns its number there.
    pub fn add_custom_pass(&mut self, layer: &SceneLayer) -> (r: usize)
        requires
            *layer == SceneLayer::ForegroundCustom || *layer == SceneLayer::WorldCustom,
            old(self).custom_foreground_passes < usize::MAX,
            old(self).custom_world_passes < usize::MAX,
        ensures
            *layer == SceneLayer::ForegroundCustom ==> {
                &&& r == old(self).custom_foreground_passes
                &&& *final(self) == (Renderer {
                    custom_foreground_passes: (r + 1) as usize,
                    ..*old(self)
                })
            },
            *layer == SceneLayer::WorldCustom ==> {
                &&& r == old(self).custom_world_passes
                &&& *final(self) == (Renderer {
                    custom_world_passes: (r + 1) as usize,
                    ..*old(self)
                })
            },
    {
        match layer {
            SceneLayer::ForegroundCustom => {
                self.custom_foreground_passes += 1;
                self.custom_foreground_passes - 1
            },
            _ => {
                self.custom_world_passes += 1;
                self.custom_world_passes - 1
            },
        }
    }

    /// Adds a sprite pass and returns its number; the built-in one has number zero.
    pub fn add_sprite_pass(&mut self) -> (r: u32)
        requires
            old(self).custom_sprite_passes < u32::MAX,
        ensures
            r == old(self).custom_sprite_passes + 1,
            *final(self) == (Renderer { custom_sprite_passes: r, ..*old(self) }),
    {
        self.custom_sprite_passes += 1;
        self.custom_sprite_passes
    }

    /// Asks for a hole in an actor's model with the next frame; a later request
    /// takes its place.
    pub fn add_bullet_hole(&mut self, actor: u32, start_trace: &Vec3, end_trace: &Vec3)
        ensures
            *final(self) == (Renderer {
                bullet_hole_actor_index: Some(actor),
                bullet_hole_trace: (*start_trace, *end_trace),
                ..*old(self)
            }),
    {
        self.bullet_hole_actor_index = Some(actor);
        self.bullet_hole_trace = (*start_trace, *end_trace);
    }

    pub fn set_allow_debug_text(&mut self, allow: bool)
        ensures
            *final(self) == (Renderer { allow_debug_text: allow, ..*old(self) }),
    {
        self.allow_debug_text = allow;
    }

    /// Sets the status line; an empty text hides it.
    pub fn set_status_msg(&mut self, msg: &str, color: &Vec4)
        ensures
            final(self).status_msg@ == msg@,
            *final(self) == (Renderer {
                status_msg: final(self).status_msg,
                status_msg_color: *color,
                ..*old(self)
            }),
    {
        self.status_msg = msg.to_owned();
        self.status_msg_color = *color;
    }

    pub fn set_debug_game_msg(&mut self, msg: &str)
        ensures
            final(self).game_debug_msg@ == msg@,
            *final(self) == (Renderer { game_debug_msg: final(self).game_debug_msg, ..*old(self) }),
    {
        self.game_debug_msg = msg.to_owned();
    }

    pub fn set_debug_topright_msg(&mut self, msg: &str)
        ensures
            final(self).game_topright_msg@ == msg@,
            *final(self) == (Renderer {
                game_topright_msg: final(self).game_topright_msg,
                ..*old(self)
            }),
    {
        self.game_topright_msg = msg.to_owned();
    }

    pub fn set_hud_msg(&mut self, msg: &str)
        ensures
            final(self).game_hud_msg@ == msg@,
            *final(self) == (Renderer { game_hud_msg: final(self).game_hud_msg, ..*old(self) }),
    {
        self.game_hud_msg = msg.to_owned();
    }

    pub fn set_debug_font_color(&mut self, color: &Vec4)
        ensures
            *final(self) == (Renderer { debug_msg_color: *color, ..*old(self) }),
    {
        self.debug_msg_color = *color;
    }

    /// Shows the help where it was hidden, and hides it where it was shown.
    pub fn enable_help_text(&mut self)
        ensures
            *final(self) == (Renderer {
                display_debug_msg: !old(self).display_debug_msg,
                ..*old(self)
            }),
    {
        self.display_debug_msg = !self.display_debug_msg;
    }

    pub fn set_debug_text_top_offset(&mut self, y: FloatBits)
        ensures
            *final(self) == (Renderer { debug_text_top_offset: y, ..*old(self) }),
    {
        self.debug_text_top_offset = y;
    }

    pub fn set_show_help_hint(&mut self, show: bool)
        ensures
            *final(self) == (Renderer { show_help_hint: show, ..*old(self) }),
    {
        self.show_help_hint = show;
    }

    pub fn set_postprocess_mode(&mut self, new_mode: &PostProcessMode)
        ensures
            *final(self) == (Renderer { postprocess_mode: *new_mode, ..*old(self) }),
    {
        self.postprocess_mode = *new_mode;
    }

    pub fn set_tonemap_enabled(&mut self, enabled: bool)
        ensures
            *final(self) == (Renderer {
                post_process_settings: PostProcessSettings {
                    tonemap_enabled: enabled,
                    ..old(self).post_process_settings
                },
                ..*old(self)
            }),
    {
        self.post_process_settings.tonemap_enabled = enabled;
    }

    pub fn set_post_process_settings(&mut self, settings: &PostProcessSettings)
        ensures
            *final(self) == (Renderer { post_process_settings: *settings, ..*old(self) }),
    {
        self.post_process_settings = *settings;
    }

    pub fn post_process_settings(&self) -> (r: PostProcessSettings)
        ensures
            r == self.post_process_settings,
    {
        self.post_process_settings
    }
}

/// The place of a pass within a frame.
pub open spec fn rank(step: FrameStep) -> int {
    match step {
        FrameStep::DiscardEgui => 20,
        FrameStep::BulletHole(_) => 0,
        FrameStep::WorldGBuffer => 1,
        FrameStep::DeferredLighting => 2,
        FrameStep::WorldOpaque => 2,
        FrameStep::WorldHoles => 3,
        FrameStep::WorldCustom(_) => 4,
        FrameStep::Splats => 5,
        FrameStep::SplatComposite => 6,
        FrameStep::ShadowCatcher => 7,
        FrameStep::Lines => 8,
        FrameStep::ParticlesAlpha => 9,
        FrameStep::ParticlesAdditive => 10,
        FrameStep::Sunbeam => 11,
        FrameStep::ForegroundOpaque => 12,
        FrameStep::ForegroundCustom(_) => 13,
        FrameStep::SkySprites => 14,
        FrameStep::CloudSprites => 15,
        FrameStep::GameSprites => 16,
        FrameStep::CustomSprites(_) => 17,
        FrameStep::Postprocess => 18,
        FrameStep::DebugText => 19,
        FrameStep::Egui => 20,
        FrameStep::Present => 21,
    }
}

/// The passes stand in ascending order of their places, all between two bounds.
pub open spec fn ranked(steps: Seq<FrameStep>, low: int, high: int) -> bool {
    &&& forall|i: int, j: int|
        0 <= i < j < steps.len() ==> rank(#[trigger] steps[i]) <= rank(#[trigger] steps[j])
    &&& forall|i: int| 0 <= i < steps.len() ==> low <= rank(#[trigger] steps[i]) <= high
}

/// `ranked`, from the first place on.
#[verifier::opaque]
spec fn ranked_to(steps: Seq<FrameStep>, high: int) -> bool {
    ranked(steps, 0, high)
}

proof fn lemma_join(a: Seq<FrameStep>, b: Seq<FrameStep>, mid: int, high: int)
    requires
        ranked_to(a, mid),
        forall|i: int| 0 <= i < b.len() ==> rank(#[trigger] b[i]) == high,
        0 <= mid <= high,
    ensures
        ranked_to(a + b, high),
{
    reveal(ranked_to);
    let all = a + b;
    assert forall|i: int, j: int| 0 <= i < j < all.len() implies rank(#[trigger] all[i]) <= rank(
        #[trigger] all[j],
    ) by {
        if j < a.len() {
            assert(all[i] == a[i] && all[j] == a[j]);
        } else if i >= a.len() {
            assert(all[i] == b[i - a.len()] && all[j] == b[j - a.len()]);
        } else {
            assert(all[i] == a[i] && all[j] == b[j - a.len()]);
        }
    }
}

proof fn lemma_join_if(a: Seq<FrameStep>, due: bool, step: FrameStep, mid: int)
    requires
        ranked_to(a, mid),
        0 <= mid <= rank(step),
    ensures
        ranked_to(a + step_if(due, step), rank(step)),
{
    lemma_join(a, step_if(due, step), mid, rank(step));
}

proof fn lemma_join_step(a: Seq<FrameStep>, step: FrameStep, mid: int)
    requires
        ranked_to(a, mid),
        0 <= mid <= rank(step),
    ensures
        ranked_to(a + seq![step], rank(step)),
{
    lemma_join(a, seq![step], mid, rank(step));
}

proof fn lemma_scene_ranked<A, L, P>(r: Renderer<A, L, P>, input: FrameInput)
    ensures
        ranked_to(r.scene_steps(input), 19),
{
    let actors = r.actor_map@.dom().len() > 0;
    let particles = r.particle_map@.dom().len() > 0;
    let d = r.is_deferred();
    let s = r.has_splats();
    let hole = hole_steps(r.bullet_hole_actor_index);
    assert(ranked_to(hole, 0)) by {
        reveal(ranked_to);
    }
    lemma_join_if(hole, d, FrameStep::WorldGBuffer, 0);
    let p = hole + step_if(d, FrameStep::WorldGBuffer);
    lemma_join_if(p, d, FrameStep::DeferredLighting, 1);
    let p = p + step_if(d, FrameStep::DeferredLighting);
    lemma_join_if(p, !d, FrameStep::WorldOpaque, 2);
    let p = p + step_if(!d, FrameStep::WorldOpaque);
    lemma_join_step(p, FrameStep::WorldHoles, 2);
    let p = p + seq![FrameStep::WorldHoles];
    let custom = world_custom_steps(
        if actors {
            r.custom_world_passes as nat
        } else {
            0
        },
    );
    lemma_join(p, custom, 3, 4);
    let p = p + custom;
    lemma_join_if(p, s, FrameStep::Splats, 4);
    let p = p + step_if(s, FrameStep::Splats);
    lemma_join_if(p, s, FrameStep::SplatComposite, 5);
    let p = p + step_if(s, FrameStep::SplatComposite);
    lemma_join_if(p, s && d, FrameStep::ShadowCatcher, 6);
    let p = p + step_if(s && d, FrameStep::ShadowCatcher);
    lemma_join_step(p, FrameStep::Lines, 7);
    let p = p + seq![FrameStep::Lines];
    lemma_join_if(p, particles, FrameStep::ParticlesAlpha, 8);
    let p = p + step_if(particles, FrameStep::ParticlesAlpha);
    lemma_join_if(p, particles, FrameStep::ParticlesAdditive, 9);
    let p = p + step_if(particles, FrameStep::ParticlesAdditive);
    lemma_join_if(p, input.sunbeams, FrameStep::Sunbeam, 10);
    let p = p + step_if(input.sunbeams, FrameStep::Sunbeam);
    lemma_join_if(p, actors, FrameStep::ForegroundOpaque, 11);
    let p = p + step_if(actors, FrameStep::ForegroundOpaque);
    let foreground = foreground_custom_steps(
        if actors {
            r.custom_foreground_passes as nat
        } else {
            0
        },
    );
    lemma_join(p, foreground, 12, 13);
    let p = p + foreground;
    lemma_join_if(p, input.sky_sprites, FrameStep::SkySprites, 13);
    let p = p + step_if(input.sky_sprites, FrameStep::SkySprites);
    lemma_join_if(p, input.cloud_sprites, FrameStep::CloudSprites, 14);
    let p = p + step_if(input.cloud_sprites, FrameStep::CloudSprites);
    lemma_join_if(p, input.game_sprites, FrameStep::GameSprites, 15);
    let p = p + step_if(input.game_sprites, FrameStep::GameSprites);
    let sprites = custom_sprite_steps(r.custom_sprite_passes as nat);
    lemma_join(p, sprites, 16, 17);
    let p = p + sprites;
    lemma_join_step(p, FrameStep::Postprocess, 17);
    let p = p + seq![FrameStep::Postprocess];
    lemma_join_step(p, FrameStep::DebugText, 18);
}

/// Whatever a frame is made of, its passes come in a fixed order: splats after
/// everything opaque and before everything transparent, the foreground on top of
/// the world, and the user interface last before the image is shown.
pub proof fn passes_keep_their_order<A, L, P>(r: Renderer<A, L, P>, input: FrameInput)
    ensures
        ranked(r.frame_steps(input), 0, 21),
        input.available ==> r.frame_steps(input).len() > 0 && r.frame_steps(input).last()
            == FrameStep::Present,
{
    if input.available {
        let scene = r.scene_steps(input);
        lemma_scene_ranked(r, input);
        lemma_join_if(scene, r.egui_pass_active, FrameStep::Egui, 19);
        lemma_join_step(scene + step_if(r.egui_pass_active, FrameStep::Egui), FrameStep::Present, 20);
    }
    assert(ranked(r.frame_steps(input), 0, 21)) by {
        reveal(ranked_to);
    }
}

/// A pass that ends the pass of the user interface.
pub open spec fn ends_interface(step: FrameStep) -> bool {
    step == FrameStep::Egui || step == FrameStep::DiscardEgui
}

proof fn lemma_ended_once(scene: Seq<FrameStep>, active: bool)
    requires
        ranked_to(scene, 19),
    ensures
        ({
            let steps = scene + step_if(active, FrameStep::Egui) + seq![FrameStep::Present];
            &&& active ==> steps.len() >= 2
            &&& forall|i: int|
                0 <= i < steps.len() ==> (ends_interface(#[trigger] steps[i]) <==> active && i
                    == steps.len() - 2)
        }),
{
    reveal(ranked_to);
    let steps = scene + step_if(active, FrameStep::Egui) + seq![FrameStep::Present];
    assert forall|i: int| 0 <= i < steps.len() implies (ends_interface(#[trigger] steps[i])
        <==> active && i == steps.len() - 2) by {
        if i < scene.len() {
            assert(steps[i] == scene[i]);
        }
    }
}

/// A pass of the user interface that was begun is ended once, whether the frame is
/// drawn or skipped, and nothing but the image being shown comes after it; one that
/// was not begun is not ended.
pub proof fn interface_is_ended_once<A, L, P>(r: Renderer<A, L, P>, input: FrameInput)
    ensures
        r.egui_pass_active ==> r.frame_steps(input).len() >= (if input.available {
            2int
        } else {
            1
        }),
        forall|i: int|
            0 <= i < r.frame_steps(input).len() ==> (ends_interface(
                #[trigger] r.frame_steps(input)[i],
            ) <==> r.egui_pass_active && i == r.frame_steps(input).len() - (if input.available {
                2int
            } else {
                1
            })),
{
    if input.available {
        lemma_scene_ranked(r, input);
        lemma_ended_once(r.scene_steps(input), r.egui_pass_active);
    }
}

/// Kinds of sprites.
#[derive(Clone, Copy, PartialEq, Eq, Structural)]
pub enum SpriteKind {
    Skybox,
    Cloud,
    Game,
}

/// A sprite, as far as sorting reads it.
#[derive(Clone, Copy)]
pub struct SpriteInfo {
    pub kind: SpriteKind,
    pub z: FloatBits,
}

/// `list` holds the sprites of a kind by ascending z, and those of the same z in
/// their own order.
pub open spec fn sorted_sprites(list: Seq<usize>, sprites: Seq<SpriteInfo>, kind: SpriteKind) -> bool {
    &&& forall|i: int|
        0 <= i < list.len() ==> (#[trigger] list[i]) < sprites.len() && sprites[list[i] as int].kind
            == kind
    &&& forall|i: int, j: int|
        0 <= i < j < list.len() ==> {
            let a = sprites[(#[trigger] list[i]) as int];
            let b = sprites[(#[trigger] list[j]) as int];
            order(a.z) < order(b.z) || (order(a.z) == order(b.z) && list[i] < list[j])
        }
    &&& forall|n: int|
        0 <= n < sprites.len() && (#[trigger] sprites[n]).kind == kind ==> exists|i: int|
            0 <= i < list.len() && #[trigger] list[i] == n
}

/// Two sprites of a kind can be compared.
pub open spec fn comparable(sprites: Seq<SpriteInfo>) -> bool {
    forall|i: int, j: int|
        0 <= i < sprites.len() && 0 <= j < sprites.len() && i != j && (#[trigger] sprites[i]).kind
            == (#[trigger] sprites[j]).kind ==> !is_nan(sprites[i].z)
}

fn sprites_of_kind(sprites: &Vec<SpriteInfo>, kind: SpriteKind) -> (r: Vec<usize>)
    ensures
        sorted_sprites(r@, sprites@, kind),
{
    let mut list: Vec<Keyed> = Vec::new();
    let mut n: usize = 0;
    while n < sprites.len()
        invariant
            n <= sprites.len(),
            forall|k: int|
                0 <= k < list@.len() ==> (#[trigger] list@[k]).1 < n && sprites@[list@[k].1 as int].kind
                    == kind && list@[k].0 == order(sprites@[list@[k].1 as int].z),
            forall|j: int, k: int|
                0 <= j < k < list@.len() ==> (#[trigger] list@[j]).1 < (#[trigger] list@[k]).1,
            forall|m: int|
                0 <= m < n && (#[trigger] sprites@[m]).kind == kind ==> list@.contains(
                    (order(sprites@[m].z) as i64, m as u64),
                ),
        decreases sprites.len() - n,
    {
        let ghost before = list@;
        if sprites[n].kind == kind {
            list.push((float_order(sprites[n].z), n as u64));
            assert(list@[before.len() as int] == (order(sprites@[n as int].z) as i64, n as u64));
        }
        proof {
            assert forall|m: int| 0 <= m < n + 1 && (#[trigger] sprites@[m]).kind == kind implies list@.contains(
                (order(sprites@[m].z) as i64, m as u64),
            ) by {
                if m < n {
                    let key = (order(sprites@[m].z) as i64, m as u64);
                    assert(before.contains(key));
                    let k = choose|k: int| 0 <= k < before.len() && before[k] == key;
                    assert(list@[k] == key);
                }
            }
        }
        n += 1;
    }
    let ghost before = list@;
    assert(before.no_duplicates());
    sort_keyed(&mut list);
    proof {
        lemma_same_pairs(before, list@);
        lemma_no_duplicates(before, list@);
        assert forall|k: int| 0 <= k < list@.len() implies (#[trigger] list@[k]).1 < sprites@.len()
            && sprites@[list@[k].1 as int].kind == kind && list@[k].0 == order(
            sprites@[list@[k].1 as int].z,
        ) by {
            assert(list@.contains(list@[k]));
            assert(before.contains(list@[k]));
        }
    }
    let mut out: Vec<usize> = Vec::new();
    let mut k: usize = 0;
    while k < list.len()
        invariant
            k <= list.len(),
            out@.len() == k,
            forall|j: int| 0 <= j < list@.len() ==> (#[trigger] list@[j]).1 < sprites@.len(),
            sprites.len() == sprites@.len(),
            forall|j: int| 0 <= j < k ==> #[trigger] out@[j] == list@[j].1,
        decreases list.len() - k,
    {
        out.push(list[k].1 as usize);
        k += 1;
    }
    proof {
        assert forall|i: int, j: int| 0 <= i < j < out@.len() implies {
            let a = sprites@[(#[trigger] out@[i]) as int];
            let b = sprites@[(#[trigger] out@[j]) as int];
            order(a.z) < order(b.z) || (order(a.z) == order(b.z) && out@[i] < out@[j])
        } by {
            assert(keyed_le(list@[i], list@[j]));
            assert(list@[i] != list@[j]);
        }
        assert forall|m: int| 0 <= m < sprites@.len() && (#[trigger] sprites@[m]).kind == kind implies exists|
            i: int,
        | 0 <= i < out@.len() && #[trigger] out@[i] == m by {
            let key = (order(sprites@[m].z) as i64, m as u64);
            assert(before.contains(key));
            assert(list@.contains(key));
            let i = choose|i: int| 0 <= i < list@.len() && list@[i] == key;
            assert(out@[i] == m);
        }
    }
    out
}

/// The sprites of a frame: those of the game, of the sky and of the clouds, each by
/// ascending z.
pub fn get_sorted_render_objects(sprites: &Vec<SpriteInfo>) -> (r: (
    Vec<usize>,
    Vec<usize>,
    Vec<usize>,
))
    requires
        comparable(sprites@),
    ensures
        sorted_sprites(r.0@, sprites@, SpriteKind::Game),
        sorted_sprites(r.1@, sprites@, SpriteKind::Skybox),
        sorted_sprites(r.2@, sprites@, SpriteKind::Cloud),
{
    (
        sprites_of_kind(sprites, SpriteKind::Game),
        sprites_of_kind(sprites, SpriteKind::Skybox),
        sprites_of_kind(sprites, SpriteKind::Cloud),
    )
}

/// Every sprite is drawn in exactly one list.
pub proof fn sprites_are_split(
    game: Seq<usize>,
    sky: Seq<usize>,
    cloud: Seq<usize>,
    sprites: Seq<SpriteInfo>,
    n: usize,
)
    requires
        sorted_sprites(game, sprites, SpriteKind::Game),
        sorted_sprites(sky, sprites, SpriteKind::Skybox),
        sorted_sprites(cloud, sprites, SpriteKind::Cloud),
        n < sprites.len(),
    ensures
        game.contains(n) || sky.contains(n) || cloud.contains(n),
        !(game.contains(n) && sky.contains(n)),
        !(game.contains(n) && cloud.contains(n)),
        !(sky.contains(n) && cloud.contains(n)),
{
    let s = sprites[n as int];
}

/// The pictures that the user interface draws, by texture.
#[verifier::reject_recursive_types(I)]
pub struct EguiTextures<I> {
    pub ids: HashMap<u32, I>,
}

impl<I: Copy> EguiTextures<I> {
    pub fn new() -> (r: Self)
        ensures
            r.ids@ == Map::<u32, I>::empty(),
    {
        broadcast use vstd::std_specs::hash::group_hash_axioms;

        EguiTextures { ids: HashMap::new() }
    }

    /// The picture of a texture, registered on first request and remembered;
    /// `None` where there is no such texture.
    pub fn egui_texture_id<T, F: Fn(&T) -> I>(
        &mut self,
        handle: &TextureHandle,
        textures: &AssetMappings<T>,
        register: &F,
    ) -> (r: Option<I>)
        requires
            forall|t: &T| call_requires(*register, (t,)),
        ensures
            old(self).ids@.contains_key(handle.index) ==> r == Some(
                old(self).ids@[handle.index],
            ) && *final(self) == *old(self),
            !old(self).ids@.contains_key(handle.index) ==> match r {
                Some(id) => {
                    &&& textures@.assets.contains_key(handle.index)
                    &&& call_ensures(*register, (&textures@.assets[handle.index],), id)
                    &&& final(self).ids@ == old(self).ids@.insert(handle.index, id)
                },
                None => !textures@.assets.contains_key(handle.index) && *final(self) == *old(self),
            },
    {
        broadcast use vstd::std_specs::hash::group_hash_axioms;

        if let Some(id) = self.ids.get(&handle.index) {
            return Some(*id);
        }
        match textures.get(handle.index) {
            Some(texture) => {
                let id = register(texture);
                self.ids.insert(handle.index, id);
                Some(id)
            },
            None => None,
        }
    }
}

/// The number of a pass among those that share its place.
pub open spec fn turn(step: FrameStep) -> int {
    match step {
        FrameStep::WorldCustom(i) => i as int,
        FrameStep::ForegroundCustom(i) => i as int,
        FrameStep::CustomSprites(i) => i as int,
        _ => 0,
    }
}

/// `a` belongs before `b`.
pub open spec fn precedes(a: FrameStep, b: FrameStep) -> bool {
    rank(a) < rank(b) || (rank(a) == rank(b) && turn(a) < turn(b))
}

/// Every pass belongs before those that follow it, and none beyond a place.
#[verifier::opaque]
spec fn strict_to(steps: Seq<FrameStep>, high: int) -> bool {
    &&& forall|i: int, j: int|
        0 <= i < j < steps.len() ==> precedes(#[trigger] steps[i], #[trigger] steps[j])
    &&& forall|i: int| 0 <= i < steps.len() ==> rank(#[trigger] steps[i]) <= high
}

proof fn lemma_strict_join(a: Seq<FrameStep>, b: Seq<FrameStep>, mid: int, high: int)
    requires
        strict_to(a, mid),
        forall|i: int| 0 <= i < b.len() ==> rank(#[trigger] b[i]) == high,
        forall|i: int, j: int|
            0 <= i < j < b.len() ==> turn(#[trigger] b[i]) < turn(#[trigger] b[j]),
        mid < high,
    ensures
        strict_to(a + b, high),
{
    reveal(strict_to);
    let all = a + b;
    assert forall|i: int, j: int| 0 <= i < j < all.len() implies precedes(
        #[trigger] all[i],
        #[trigger] all[j],
    ) by {
        if j < a.len() {
            assert(all[i] == a[i] && all[j] == a[j]);
        } else if i >= a.len() {
            assert(all[i] == b[i - a.len()] && all[j] == b[j - a.len()]);
        } else {
            assert(all[i] == a[i] && all[j] == b[j - a.len()]);
        }
    }
    assert forall|i: int| 0 <= i < all.len() implies rank(#[trigger] all[i]) <= high by {
        if i < a.len() {
            assert(all[i] == a[i]);
        } else {
            assert(all[i] == b[i - a.len()]);
        }
    }
}

proof fn lemma_strict_if(a: Seq<FrameStep>, due: bool, step: FrameStep, mid: int)
    requires
        strict_to(a, mid),
        mid < rank(step),
    ensures
        strict_to(a + step_if(due, step), rank(step)),
{
    lemma_strict_join(a, step_if(due, step), mid, rank(step));
}

proof fn lemma_strict_step(a: Seq<FrameStep>, step: FrameStep, mid: int)
    requires
        strict_to(a, mid),
        mid < rank(step),
    ensures
        strict_to(a + seq![step], rank(step)),
{
    lemma_strict_join(a, seq![step], mid, rank(step));
}

/// A pass is among some passes.
#[verifier::opaque]
spec fn among(x: FrameStep, steps: Seq<FrameStep>) -> bool {
    steps.contains(x)
}

/// What joined passes contain.
proof fn lemma_joined(a: Seq<FrameStep>, b: Seq<FrameStep>, x: FrameStep)
    ensures
        among(x, a + b) <==> among(x, a) || among(x, b),
{
    reveal(among);
    let all = a + b;
    if a.contains(x) {
        let i = choose|i: int| 0 <= i < a.len() && a[i] == x;
        assert(all[i] == x);
    }
    if b.contains(x) {
        let i = choose|i: int| 0 <= i < b.len() && b[i] == x;
        assert(all[a.len() + i] == x);
    }
    if all.contains(x) {
        let i = choose|i: int| 0 <= i < all.len() && all[i] == x;
        if i < a.len() {
            assert(a[i] == x);
        } else {
            assert(b[i - a.len()] == x);
        }
    }
}

proof fn lemma_joined_if(a: Seq<FrameStep>, due: bool, step: FrameStep, x: FrameStep)
    ensures
        among(x, a + step_if(due, step)) <==> among(x, a) || (due && x == step),
{
    reveal(among);
    lemma_joined(a, step_if(due, step), x);
    if due {
        assert(step_if(due, step)[0] == step);
    }
}

proof fn lemma_joined_step(a: Seq<FrameStep>, step: FrameStep, x: FrameStep)
    ensures
        among(x, a + seq![step]) <==> among(x, a) || x == step,
{
    reveal(among);
    lemma_joined(a, seq![step], x);
    assert(seq![step][0] == step);
}

/// What a frame that is drawn is made of, pass by pass: each pass is there exactly
/// where what it draws is.
pub open spec fn is_due<A, L, P>(r: Renderer<A, L, P>, input: FrameInput, x: FrameStep) -> bool {
    let actors = exists|k: u32| r.actor_map@.contains_key(k);
    let particles = exists|k: u32| r.particle_map@.contains_key(k);
    let deferred = r.deferred_world_enabled && r.deferred_supported;
    let splats = r.gaussian_splat_pass matches Some(p) && p.models@.len() > 0;
    match x {
        FrameStep::DiscardEgui => false,
        FrameStep::BulletHole(id) => r.bullet_hole_actor_index == Some(id),
        FrameStep::WorldGBuffer => deferred,
        FrameStep::DeferredLighting => deferred,
        FrameStep::WorldOpaque => !deferred,
        FrameStep::WorldHoles => true,
        FrameStep::WorldCustom(k) => actors && k < r.custom_world_passes,
        FrameStep::Splats => splats,
        FrameStep::SplatComposite => splats,
        FrameStep::ShadowCatcher => splats && deferred,
        FrameStep::Lines => true,
        FrameStep::ParticlesAlpha => particles,
        FrameStep::ParticlesAdditive => particles,
        FrameStep::Sunbeam => input.sunbeams,
        FrameStep::ForegroundOpaque => actors,
        FrameStep::ForegroundCustom(k) => actors && k < r.custom_foreground_passes,
        FrameStep::SkySprites => input.sky_sprites,
        FrameStep::CloudSprites => input.cloud_sprites,
        FrameStep::GameSprites => input.game_sprites,
        FrameStep::CustomSprites(k) => k < r.custom_sprite_passes,
        FrameStep::Postprocess => true,
        FrameStep::DebugText => true,
        FrameStep::Egui => r.egui_pass_active,
        FrameStep::Present => true,
    }
}

proof fn lemma_some_key<V>(m: Map<u32, V>)
    requires
        m.dom().finite(),
    ensures
        m.dom().len() > 0 <==> exists|k: u32| m.contains_key(k),
{
    if m.dom().len() > 0 {
        let k = m.dom().choose();
        assert(m.contains_key(k));
    }
    if exists|k: u32| m.contains_key(k) {
        let k = choose|k: u32| m.contains_key(k);
        assert(m.dom().contains(k));
        assert(m.dom().len() > 0) by {
            if m.dom().len() == 0 {
                assert(m.dom() =~= Set::<u32>::empty());
            }
        }
    }
}

proof fn lemma_customs(n: nat, x: FrameStep)
    ensures
        n <= usize::MAX ==> (among(x, world_custom_steps(n)) <==> (x matches FrameStep::WorldCustom(
            k,
        ) && k < n)),
        n <= usize::MAX ==> (among(x, foreground_custom_steps(n)) <==> (
        x matches FrameStep::ForegroundCustom(k) && k < n)),
        n <= u32::MAX ==> (among(x, custom_sprite_steps(n)) <==> (x matches FrameStep::CustomSprites(
            k,
        ) && k < n)),
{
    reveal(among);
    if let FrameStep::WorldCustom(k) = x {
        if k < n {
            assert(world_custom_steps(n)[k as int] == x);
        }
    }
    if let FrameStep::ForegroundCustom(k) = x {
        if k < n {
            assert(foreground_custom_steps(n)[k as int] == x);
        }
    }
    if let FrameStep::CustomSprites(k) = x {
        if k < n {
            assert(custom_sprite_steps(n)[k as int] == x);
        }
    }
}

proof fn lemma_scene_holds<A, L, P>(r: Renderer<A, L, P>, input: FrameInput, x: FrameStep)
    requires
        r.actor_map@.dom().finite(),
        r.particle_map@.dom().finite(),
    ensures
        among(x, r.scene_steps(input)) <==> rank(x) <= 19 && is_due(r, input, x),
{
    lemma_some_key(r.actor_map@);
    lemma_some_key(r.particle_map@);
    let actors = r.actor_map@.dom().len() > 0;
    let particles = r.particle_map@.dom().len() > 0;
    let d = r.is_deferred();
    let s = r.has_splats();
    let hole = hole_steps(r.bullet_hole_actor_index);
    assert(among(x, hole) <==> (x matches FrameStep::BulletHole(id)
        && r.bullet_hole_actor_index == Some(id))) by {
        reveal(among);
        if r.bullet_hole_actor_index is Some {
            assert(hole[0] == FrameStep::BulletHole(r.bullet_hole_actor_index->0));
        }
    }
    let p = hole;
    lemma_joined_if(p, d, FrameStep::WorldGBuffer, x);
    let p = p + step_if(d, FrameStep::WorldGBuffer);
    lemma_joined_if(p, d, FrameStep::DeferredLighting, x);
    let q = p + step_if(d, FrameStep::DeferredLighting);
    lemma_joined_if(q, !d, FrameStep::WorldOpaque, x);
    let p = q + step_if(!d, FrameStep::WorldOpaque);
    lemma_joined_step(p, FrameStep::WorldHoles, x);
    let p = p + seq![FrameStep::WorldHoles];
    let n: nat = if actors {
        r.custom_world_passes as nat
    } else {
        0
    };
    lemma_customs(n, x);
    lemma_joined(p, world_custom_steps(n), x);
    let p = p + world_custom_steps(n);
    lemma_joined_if(p, s, FrameStep::Splats, x);
    let p = p + step_if(s, FrameStep::Splats);
    lemma_joined_if(p, s, FrameStep::SplatComposite, x);
    let p = p + step_if(s, FrameStep::SplatComposite);
    lemma_joined_if(p, s && d, FrameStep::ShadowCatcher, x);
    let p = p + step_if(s && d, FrameStep::ShadowCatcher);
    lemma_joined_step(p, FrameStep::Lines, x);
    let p = p + seq![FrameStep::Lines];
    lemma_joined_if(p, particles, FrameStep::ParticlesAlpha, x);
    let p = p + step_if(particles, FrameStep::ParticlesAlpha);
    lemma_joined_if(p, particles, FrameStep::ParticlesAdditive, x);
    let p = p + step_if(particles, FrameStep::ParticlesAdditive);
    lemma_joined_if(p, input.sunbeams, FrameStep::Sunbeam, x);
    let p = p + step_if(input.sunbeams, FrameStep::Sunbeam);
    lemma_joined_if(p, actors, FrameStep::ForegroundOpaque, x);
    let p = p + step_if(actors, FrameStep::ForegroundOpaque);
    let n: nat = if actors {
        r.custom_foreground_passes as nat
    } else {
        0
    };
    lemma_customs(n, x);
    lemma_joined(p, foreground_custom_steps(n), x);
    let p = p + foreground_custom_steps(n);
    lemma_joined_if(p, input.sky_sprites, FrameStep::SkySprites, x);
    let p = p + step_if(input.sky_sprites, FrameStep::SkySprites);
    lemma_joined_if(p, input.cloud_sprites, FrameStep::CloudSprites, x);
    let p = p + step_if(input.cloud_sprites, FrameStep::CloudSprites);
    lemma_joined_if(p, input.game_sprites, FrameStep::GameSprites, x);
    let p = p + step_if(input.game_sprites, FrameStep::GameSprites);
    let n = r.custom_sprite_passes as nat;
    lemma_customs(n, x);
    lemma_joined(p, custom_sprite_steps(n), x);
    let p = p + custom_sprite_steps(n);
    lemma_joined_step(p, FrameStep::Postprocess, x);
    let p = p + seq![FrameStep::Postprocess];
    lemma_joined_step(p, FrameStep::DebugText, x);
}

proof fn lemma_scene_is_strict<A, L, P>(r: Renderer<A, L, P>, input: FrameInput)
    ensures
        strict_to(r.scene_steps(input), 19),
{
    let actors = r.actor_map@.dom().len() > 0;
    let particles = r.particle_map@.dom().len() > 0;
    let d = r.is_deferred();
    let s = r.has_splats();
    let hole = hole_steps(r.bullet_hole_actor_index);
    assert(strict_to(hole, 0)) by {
        reveal(strict_to);
    }
    let p = hole;
    lemma_strict_if(p, d, FrameStep::WorldGBuffer, 0);
    let p = p + step_if(d, FrameStep::WorldGBuffer);
    lemma_strict_if(p, d, FrameStep::DeferredLighting, 1);
    lemma_strict_if(p, !d, FrameStep::WorldOpaque, 1);
    let q = p + step_if(d, FrameStep::DeferredLighting);
    assert(q + step_if(!d, FrameStep::WorldOpaque) =~= if d {
        q
    } else {
        p + step_if(!d, FrameStep::WorldOpaque)
    });
    let p = q + step_if(!d, FrameStep::WorldOpaque);
    lemma_strict_step(p, FrameStep::WorldHoles, 2);
    let p = p + seq![FrameStep::WorldHoles];
    let n: nat = if actors {
        r.custom_world_passes as nat
    } else {
        0
    };
    lemma_strict_join(p, world_custom_steps(n), 3, 4);
    let p = p + world_custom_steps(n);
    lemma_strict_if(p, s, FrameStep::Splats, 4);
    let p = p + step_if(s, FrameStep::Splats);
    lemma_strict_if(p, s, FrameStep::SplatComposite, 5);
    let p = p + step_if(s, FrameStep::SplatComposite);
    lemma_strict_if(p, s && d, FrameStep::ShadowCatcher, 6);
    let p = p + step_if(s && d, FrameStep::ShadowCatcher);
    lemma_strict_step(p, FrameStep::Lines, 7);
    let p = p + seq![FrameStep::Lines];
    lemma_strict_if(p, particles, FrameStep::ParticlesAlpha, 8);
    let p = p + step_if(particles, FrameStep::ParticlesAlpha);
    lemma_strict_if(p, particles, FrameStep::ParticlesAdditive, 9);
    let p = p + step_if(particles, FrameStep::ParticlesAdditive);
    lemma_strict_if(p, input.sunbeams, FrameStep::Sunbeam, 10);
    let p = p + step_if(input.sunbeams, FrameStep::Sunbeam);
    lemma_strict_if(p, actors, FrameStep::ForegroundOpaque, 11);
    let p = p + step_if(actors, FrameStep::ForegroundOpaque);
    let n: nat = if actors {
        r.custom_foreground_passes as nat
    } else {
        0
    };
    lemma_strict_join(p, foreground_custom_steps(n), 12, 13);
    let p = p + foreground_custom_steps(n);
    lemma_strict_if(p, input.sky_sprites, FrameStep::SkySprites, 13);
    let p = p + step_if(input.sky_sprites, FrameStep::SkySprites);
    lemma_strict_if(p, input.cloud_sprites, FrameStep::CloudSprites, 14);
    let p = p + step_if(input.cloud_sprites, FrameStep::CloudSprites);
    lemma_strict_if(p, input.game_sprites, FrameStep::GameSprites, 15);
    let p = p + step_if(input.game_sprites, FrameStep::GameSprites);
    let n = r.custom_sprite_passes as nat;
    lemma_strict_join(p, custom_sprite_steps(n), 16, 17);
    let p = p + custom_sprite_steps(n);
    lemma_strict_step(p, FrameStep::Postprocess, 17);
    let p = p + seq![FrameStep::Postprocess];
    lemma_strict_step(p, FrameStep::DebugText, 18);
}

proof fn lemma_frame_is_strict(scene: Seq<FrameStep>, active: bool)
    requires
        strict_to(scene, 19),
    ensures
        strict_to(scene + step_if(active, FrameStep::Egui) + seq![FrameStep::Present], 21),
{
    lemma_strict_if(scene, active, FrameStep::Egui, 19);
    lemma_strict_step(scene + step_if(active, FrameStep::Egui), FrameStep::Present, 20);
}

proof fn lemma_in_turn(steps: Seq<FrameStep>, high: int, i: int, j: int)
    requires
        strict_to(steps, high),
        0 <= i < j < steps.len(),
    ensures
        precedes(steps[i], steps[j]),
{
    reveal(strict_to);
}

proof fn lemma_composited(steps: Seq<FrameStep>, i: int)
    requires
        strict_to(steps, 21),
        among(FrameStep::Splats, steps) <==> among(FrameStep::SplatComposite, steps),
        0 <= i < steps.len(),
    ensures
        steps[i] == FrameStep::Splats ==> i + 1 < steps.len() && steps[i + 1]
            == FrameStep::SplatComposite,
        steps[i] == FrameStep::SplatComposite ==> i > 0 && steps[i - 1] == FrameStep::Splats,
{
    reveal(among);
    if steps[i] == FrameStep::Splats || steps[i] == FrameStep::SplatComposite {
        assert(steps.contains(steps[i]));
        let a = choose|a: int| 0 <= a < steps.len() && steps[a] == FrameStep::Splats;
        let b = choose|b: int| 0 <= b < steps.len() && steps[b] == FrameStep::SplatComposite;
        if b < a {
            lemma_in_turn(steps, 21, b, a);
        }
        if a + 1 < b {
            lemma_in_turn(steps, 21, a, a + 1);
            lemma_in_turn(steps, 21, a + 1, b);
        }
        if i < a {
            lemma_in_turn(steps, 21, i, a);
        } else if i > a {
            lemma_in_turn(steps, 21, a, i);
        }
        if i < b {
            lemma_in_turn(steps, 21, i, b);
        } else if i > b {
            lemma_in_turn(steps, 21, b, i);
        }
    }
}

/// A frame that is drawn contains each pass exactly where what it draws is there: the
/// splats wherever a cloud is loaded, whatever path draws the world; the deferred
/// passes where they are wanted and supported, and the plain one elsewhere; particles,
/// actors and sprites where there are any. A frame that is not drawn contains nothing
/// but the end of the user interface.
pub proof fn passes_run_where_there_is_something_to_draw<A, L, P>(
    r: Renderer<A, L, P>,
    input: FrameInput,
    x: FrameStep,
)
    requires
        r.actor_map@.dom().finite(),
        r.particle_map@.dom().finite(),
    ensures
        input.available ==> (r.frame_steps(input).contains(x) <==> is_due(r, input, x)),
        !input.available ==> (r.frame_steps(input).contains(x) <==> r.egui_pass_active && x
            == FrameStep::DiscardEgui),
{
    lemma_scene_holds(r, input, x);
    let scene = r.scene_steps(input);
    lemma_joined_if(scene, r.egui_pass_active, FrameStep::Egui, x);
    lemma_joined_step(scene + step_if(r.egui_pass_active, FrameStep::Egui), FrameStep::Present, x);
    reveal(among);
    if !input.available && r.egui_pass_active {
        assert(r.frame_steps(input)[0] == FrameStep::DiscardEgui);
    }
}

/// No pass of a frame runs twice, and every pass runs before those that belong after it;
/// custom passes run in the order of their numbers.
pub proof fn passes_run_once_and_in_turn<A, L, P>(
    r: Renderer<A, L, P>,
    input: FrameInput,
    i: int,
    j: int,
)
    requires
        0 <= i < j < r.frame_steps(input).len(),
    ensures
        precedes(r.frame_steps(input)[i], r.frame_steps(input)[j]),
        r.frame_steps(input)[i] != r.frame_steps(input)[j],
{
    if input.available {
        lemma_scene_is_strict(r, input);
        lemma_frame_is_strict(r.scene_steps(input), r.egui_pass_active);
        lemma_in_turn(r.frame_steps(input), 21, i, j);
    }
}

/// Splats are composited at once: where they are drawn, the very next pass lays them
/// over the scene, and nowhere else.
pub proof fn splats_are_composited_at_once<A, L, P>(r: Renderer<A, L, P>, input: FrameInput, i: int)
    requires
        r.actor_map@.dom().finite(),
        r.particle_map@.dom().finite(),
        input.available,
        0 <= i < r.frame_steps(input).len(),
    ensures
        r.frame_steps(input)[i] == FrameStep::Splats ==> i + 1 < r.frame_steps(input).len()
            && r.frame_steps(input)[i + 1] == FrameStep::SplatComposite,
        r.frame_steps(input)[i] == FrameStep::SplatComposite ==> i > 0 && r.frame_steps(input)[i
            - 1] == FrameStep::Splats,
{
    passes_run_where_there_is_something_to_draw(r, input, FrameStep::Splats);
    passes_run_where_there_is_something_to_draw(r, input, FrameStep::SplatComposite);
    lemma_scene_is_strict(r, input);
    lemma_frame_is_strict(r.scene_steps(input), r.egui_pass_active);
    assert(among(FrameStep::Splats, r.frame_steps(input)) <==> among(
        FrameStep::SplatComposite,
        r.frame_steps(input),
    )) by {
        reveal(among);
    }
    lemma_composited(r.frame_steps(input), i);
}

/// What `render_frame` plans is what is due, in turn, and a frame uses up what was asked
/// of it: the user interface is ended, and a hole that was drawn is not drawn again.
pub proof fn frames_draw_what_is_due<A, L, P>(
    renderer: &mut Renderer<A, L, P>,
    input: FrameInput,
    r: Vec<FrameStep>,
    x: FrameStep,
    i: int,
    j: int,
)
    requires
        old(renderer).actor_map@.dom().finite(),
        old(renderer).particle_map@.dom().finite(),
        call_ensures(Renderer::<A, L, P>::render_frame, (renderer, input), r),
    ensures
        input.available ==> (r@.contains(x) <==> is_due(*old(renderer), input, x)),
        !input.available ==> (r@.contains(x) <==> old(renderer).egui_pass_active && x
            == FrameStep::DiscardEgui),
        0 <= i < j < r@.len() ==> precedes(r@[i], r@[j]) && r@[i] != r@[j],
        input.available && 0 <= i < r@.len() && r@[i] == FrameStep::Splats ==> i + 1 < r@.len()
            && r@[i + 1] == FrameStep::SplatComposite,
        input.available ==> final(renderer).bullet_hole_actor_index is None,
        !input.available ==> final(renderer).bullet_hole_actor_index == old(
            renderer,
        ).bullet_hole_actor_index,
        !final(renderer).egui_pass_active,
        final(renderer).actor_map == old(renderer).actor_map,
        final(renderer).light_map == old(renderer).light_map,
        final(renderer).particle_map == old(renderer).particle_map,
        final(renderer).debug_lines == old(renderer).debug_lines,
        final(renderer).gaussian_splat_pass == old(renderer).gaussian_splat_pass,
{
    passes_run_where_there_is_something_to_draw(*old(renderer), input, x);
    if 0 <= i < j < r@.len() {
        passes_run_once_and_in_turn(*old(renderer), input, i, j);
    }
    if input.available && 0 <= i < r@.len() {
        splats_are_composited_at_once(*old(renderer), input, i);
    }
}

proof fn lemma_lines_after(lines: Seq<Line>, time: FloatBits)
    ensures
        forall|l: Line| #[trigger]
            lines_after(lines, time).contains(l) <==> lines.contains(l) && lt(time, l.end_time),
        lines_after(lines, time).len() <= lines.len(),
        (forall|k: int| 0 <= k < lines.len() ==> lt(time, (#[trigger] lines[k]).end_time))
            ==> lines_after(lines, time) == lines,
    decreases lines.len(),
{
    if lines.len() > 0 {
        let rest = lines.drop_last();
        lemma_lines_after(rest, time);
        let some = lines_after(rest, time);
        let all = lines_after(lines, time);
        assert forall|l: Line| #[trigger] all.contains(l) <==> lines.contains(l) && lt(
            time,
            l.end_time,
        ) by {
            if all.contains(l) {
                let k = choose|k: int| 0 <= k < all.len() && all[k] == l;
                if k < some.len() {
                    assert(some[k] == l);
                    assert(some.contains(l));
                    let n = choose|n: int| 0 <= n < rest.len() && rest[n] == l;
                    assert(lines[n] == l);
                } else {
                    assert(lines[lines.len() - 1] == l);
                }
            }
            if lines.contains(l) && lt(time, l.end_time) {
                let n = choose|n: int| 0 <= n < lines.len() && lines[n] == l;
                if n < rest.len() {
                    assert(rest[n] == l);
                    assert(some.contains(l));
                    let k = choose|k: int| 0 <= k < some.len() && some[k] == l;
                    assert(all[k] == l);
                } else {
                    assert(all[some.len() as int] == l);
                }
            }
        }
        if forall|k: int| 0 <= k < lines.len() ==> lt(time, (#[trigger] lines[k]).end_time) {
            assert forall|k: int| 0 <= k < rest.len() implies lt(time, (#[trigger] rest[k]).end_time) by {
                assert(rest[k] == lines[k]);
            }
            assert(lt(time, lines[lines.len() - 1].end_time));
            assert(all =~= lines);
        }
    }
}

proof fn lemma_lines_joined(a: Seq<Line>, b: Seq<Line>, time: FloatBits)
    ensures
        lines_after(a + b, time) == lines_after(a, time) + lines_after(b, time),
    decreases b.len(),
{
    if b.len() > 0 {
        lemma_lines_joined(a, b.drop_last(), time);
        assert((a + b).drop_last() =~= a + b.drop_last());
        assert((a + b).last() == b.last());
        assert(lines_after(a + b, time) =~= lines_after(a, time) + lines_after(b, time));
    } else {
        assert(a + b =~= a);
        assert(lines_after(a + b, time) =~= lines_after(a, time) + lines_after(b, time));
    }
}

/// After a frame that was drawn exactly the lines whose time is still to come are there,
/// and they stand as they stood: lines that stood before others still do. A frame that
/// was not drawn keeps them all.
pub proof fn lines_stay_until_their_time<A, L, P>(
    renderer: &mut Renderer<A, L, P>,
    available: bool,
    time: FloatBits,
    line: Line,
    before: Seq<Line>,
    behind: Seq<Line>,
)
    requires
        call_ensures(Renderer::<A, L, P>::finish_frame, (renderer, available, time), ()),
    ensures
        !available ==> final(renderer).debug_lines@ == old(renderer).debug_lines@,
        available ==> (final(renderer).debug_lines@.contains(line) <==> old(
            renderer,
        ).debug_lines@.contains(line) && lt(time, line.end_time)),
        available && old(renderer).debug_lines@ == before + seq![line] + behind ==> {
            let kept = final(renderer).debug_lines@;
            let (a, b) = (lines_after(before, time), lines_after(behind, time));
            kept == if lt(time, line.end_time) {
                a + seq![line] + b
            } else {
                a + b
            }
        },
        available && (forall|k: int|
            0 <= k < old(renderer).debug_lines@.len() ==> lt(
                time,
                (#[trigger] old(renderer).debug_lines@[k]).end_time,
            )) ==> final(renderer).debug_lines@ == old(renderer).debug_lines@,
        *final(renderer) == (Renderer {
            debug_lines: final(renderer).debug_lines,
            ..*old(renderer)
        }),
{
    lemma_lines_after(old(renderer).debug_lines@, time);
    if old(renderer).debug_lines@ == before + seq![line] + behind {
        reveal_with_fuel(lines_after, 2);
        lemma_lines_joined(before + seq![line], behind, time);
        lemma_lines_joined(before, seq![line], time);
        assert(seq![line].drop_last().len() == 0);
        assert(seq![line].last() == line);
        assert(lines_after(seq![line], time) =~= if lt(time, line.end_time) {
            seq![line]
        } else {
            seq![]
        });
        assert(lines_after(before, time) + Seq::<Line>::empty() =~= lines_after(before, time));
    }
}

/// Emitters are numbered in turn from zero on, and from zero again after the largest
/// number. A new one stands under its number as it was given; no other changes.
pub proof fn emitters_are_numbered_in_turn<A, L, P>(
    renderer: &mut Renderer<A, L, P>,
    position: Vec3,
    scale: Vec3,
    params: P,
    active: bool,
    r: u32,
)
    requires
        call_ensures(
            Renderer::<A, L, P>::add_particle_actor,
            (renderer, &position, &scale, params, active),
            r,
        ),
    ensures
        old(renderer).next_particle_id == 0xffff_ffff ==> r == 0,
        old(renderer).next_particle_id < 0xffff_ffff ==> r == old(renderer).next_particle_id + 1,
        final(renderer).next_particle_id == r,
        final(renderer).particle_map@.contains_key(r),
        final(renderer).particle_map@[r] == (ParticleEntry { active, position, scale, params }),
        forall|k: u32|
            k != r ==> (#[trigger] final(renderer).particle_map@.contains_key(k) <==> old(
                renderer,
            ).particle_map@.contains_key(k)) && final(renderer).particle_map@[k] == old(
                renderer,
            ).particle_map@[k],
{
}

/// Moving an emitter sets its place, and its scale where one is given; starting or
/// stopping it sets that alone. No other emitter changes.
pub proof fn emitters_change_alone<A, L, P>(
    renderer: &mut Renderer<A, L, P>,
    handle: u32,
    position: Vec3,
    scale: Option<Vec3>,
    other: u32,
)
    requires
        old(renderer).particle_map@.contains_key(handle),
        call_ensures(
            Renderer::<A, L, P>::update_particle_transform,
            (renderer, handle, &position, &scale),
            (),
        ),
    ensures
        ({
            let before = old(renderer).particle_map@;
            let after = final(renderer).particle_map@;
            &&& after[handle].position == position
            &&& scale is None ==> after[handle].scale == before[handle].scale
            &&& scale matches Some(s) ==> after[handle].scale == s
            &&& after[handle].active == before[handle].active
            &&& after[handle].params == before[handle].params
            &&& after.contains_key(other) <==> before.contains_key(other)
            &&& other != handle ==> after[other] == before[other]
        }),
{
}

/// Starting or stopping an emitter sets that alone.
pub proof fn emitters_start_and_stop<A, L, P>(
    renderer: &mut Renderer<A, L, P>,
    handle: u32,
    enable: bool,
    other: u32,
)
    requires
        old(renderer).particle_map@.contains_key(handle),
        call_ensures(
            Renderer::<A, L, P>::enable_particle_actor,
            (renderer, handle, enable),
            (),
        ),
    ensures
        ({
            let before = old(renderer).particle_map@;
            let after = final(renderer).particle_map@;
            &&& after[handle].active == enable
            &&& after[handle].position == before[handle].position
            &&& after[handle].scale == before[handle].scale
            &&& after[handle].params == before[handle].params
            &&& after.contains_key(other) <==> before.contains_key(other)
            &&& other != handle ==> after[other] == before[other]
        }),
{
}

/// The emitters that run are those that are there and active, each once, and as many
/// are counted.
pub proof fn active_emitters_run<A, L, P>(
    renderer: &mut Renderer<A, L, P>,
    r: Vec<u32>,
    k: u32,
)
    requires
        call_ensures(Renderer::<A, L, P>::update_particles, (renderer,), r),
    ensures
        r@.contains(k) <==> old(renderer).particle_map@.contains_key(k) && old(
            renderer,
        ).particle_map@[k].active,
        r@.no_duplicates(),
        final(renderer).active_particles == r@.len(),
        final(renderer).particle_map == old(renderer).particle_map,
{
    assert(r@.len() == r.len());
}

/// A new window size reaches the device first and the passes after it, each once: the
/// deferred ones where they are supported, and the splats' where they were built.
pub proof fn sizes_reach_every_pass<A, L, P>(
    renderer: Renderer<A, L, P>,
    r: Vec<ResizeStep>,
    s: ResizeStep,
)
    requires
        call_ensures(Renderer::<A, L, P>::resize, (&renderer,), r),
    ensures
        r@.len() > 0 && r@[0] == ResizeStep::Device,
        r@.no_duplicates(),
        r@.contains(s) <==> match s {
            ResizeStep::Shadow => renderer.deferred_supported,
            ResizeStep::Lighting => renderer.deferred_supported,
            ResizeStep::SplatComposite => renderer.gaussian_splat_pass is Some,
            _ => true,
        },
{
    let d = renderer.deferred_supported;
    assert(r@[0] == ResizeStep::Device);
    assert(r@[1] == ResizeStep::Postprocess);
    assert(d ==> r@[2] == ResizeStep::Shadow && r@[3] == ResizeStep::Lighting);
    let n: int = if d { 4 } else { 2 };
    assert(r@[n] == ResizeStep::Sunbeam);
    assert(renderer.gaussian_splat_pass is Some ==> r@[n + 1] == ResizeStep::SplatComposite);
}

/// Of the text's parts the main one shows where debug text is allowed, the one at the
/// top right where help is shown too and there is something to show, and the status
/// line wherever there is one. Something is drawn exactly where a part shows.
pub proof fn texts_show_where_they_are_wanted<A, L, P, F: Fn(u32) -> FloatBits>(
    renderer: &mut Renderer<A, L, P>,
    rate: &str,
    ms: &str,
    backend: &str,
    adapter: &str,
    measure: F,
    r: Option<(String, Vec<TextPart>)>,
)
    requires
        old(renderer).wf(),
        call_ensures(
            Renderer::<A, L, P>::render_debug_text::<F>,
            (renderer, rate, ms, backend, adapter, &measure),
            r,
        ),
    ensures
        r is Some <==> old(renderer).allow_debug_text || old(renderer).status_msg@.len() > 0,
        r matches Some(drawn) ==> {
            let parts = drawn.1@;
            &&& parts.contains(TextPart::Main) <==> old(renderer).allow_debug_text
            &&& parts.contains(TextPart::TopRight) <==> old(renderer).allow_debug_text && old(
                renderer,
            ).display_debug_msg && old(renderer).game_topright_msg@.len() > 0
            &&& parts.contains(TextPart::Status) <==> old(renderer).status_msg@.len() > 0
            &&& parts.no_duplicates()
            &&& old(renderer).allow_debug_text ==> parts[0] == TextPart::Main
            &&& old(renderer).status_msg@.len() > 0 ==> parts.last() == TextPart::Status
        },
{
    if let Some(drawn) = r {
        let parts = drawn.1@;
        let a = old(renderer).allow_debug_text;
        let b = a && old(renderer).display_debug_msg && old(renderer).game_topright_msg@.len() > 0;
        let c = old(renderer).status_msg@.len() > 0;
        let m: int = if a { 1 } else { 0 };
        let n: int = if b { m + 1 } else { m };
        assert(a ==> parts[0] == TextPart::Main);
        assert(b ==> parts[m] == TextPart::TopRight);
        assert(c ==> parts[n] == TextPart::Status);
        assert(parts.len() == n + if c { 1int } else { 0 });
    }
}

/// The text holds the frame rate and the game's own line for the player, whatever is
/// shown; while help is shown it holds the game's debug text, the frame time, the
/// interface and the adapter too, in this order.
pub proof fn texts_hold_what_is_shown<A, L, P>(
    r: Renderer<A, L, P>,
    rate: Seq<char>,
    ms: Seq<char>,
    backend: Seq<char>,
    adapter: Seq<char>,
)
    ensures
        ({
            let text = r.main_text(rate, ms, backend, adapter);
            &&& contains_text(text, "FPS: "@ + rate)
            &&& contains_text(text, r.game_hud_msg@)
            &&& r.display_debug_msg ==> {
                &&& contains_text(text, r.game_debug_msg@ + "\nFPS: "@ + rate)
                &&& contains_text(text, "Frame time: "@ + ms + " ms"@)
                &&& contains_text(text, "Back End: "@ + backend + "\n"@)
                &&& contains_text(text, "Graphics: "@ + adapter + "\n"@)
            }
            &&& !r.display_debug_msg ==> r.game_hud_msg@.is_suffix_of(text)
            &&& !r.show_help_hint && !r.display_debug_msg ==> ("FPS: "@ + rate).is_prefix_of(text)
            &&& !r.show_help_hint && r.display_debug_msg ==> r.game_debug_msg@.is_prefix_of(text)
            &&& r.show_help_hint ==> "Press [H] "@.is_prefix_of(text)
        }),
{
    reveal_strlit("");
    reveal_strlit("FPS: ");
    reveal_strlit("\nFPS: ");
    reveal_strlit(" \nFrame time: ");
    reveal_strlit("Frame time: ");
    reveal_strlit(" ms");
    reveal_strlit(" ms\nBack End: ");
    reveal_strlit("Back End: ");
    reveal_strlit("\nGraphics: ");
    reveal_strlit("Graphics: ");
    reveal_strlit("\n\n");
    reveal_strlit("\n");
    reveal_strlit("\n\n ");
    reveal_strlit("Press [H] ");
    reveal_strlit("Press [H] to hide help\n");
    reveal_strlit("Press [H] for help.  Press [Space] to cycle scenes\n\n");
    let text = r.main_text(rate, ms, backend, adapter);
    let h = r.hint().len() as int;
    let g = r.game_debug_msg@.len() as int;
    let hud = r.game_hud_msg@;
    if r.display_debug_msg {
        let a = h + g;
        let b = a + 6 + rate.len();
        let c = b + 14 + ms.len();
        let d = c + 14 + backend.len();
        let e = d + 11 + adapter.len();
        assert(text.subrange(a + 1, a + 1 + ("FPS: "@ + rate).len()) =~= "FPS: "@ + rate);
        assert(text.subrange(h, h + (r.game_debug_msg@ + "\nFPS: "@ + rate).len())
            =~= r.game_debug_msg@ + "\nFPS: "@ + rate);
        assert(text.subrange(b + 2, b + 2 + ("Frame time: "@ + ms + " ms"@).len())
            =~= "Frame time: "@ + ms + " ms"@);
        assert(text.subrange(c + 4, c + 4 + ("Back End: "@ + backend + "\n"@).len())
            =~= "Back End: "@ + backend + "\n"@);
        assert(text.subrange(d + 1, d + 1 + ("Graphics: "@ + adapter + "\n"@).len())
            =~= "Graphics: "@ + adapter + "\n"@);
        assert(text.subrange(e + 2, e + 2 + hud.len()) =~= hud);
    } else {
        assert(text.subrange(h, h + ("FPS: "@ + rate).len()) =~= "FPS: "@ + rate);
        assert(text.subrange(h + 8 + rate.len(), h + 8 + rate.len() + hud.len()) =~= hud);
    }
}

/// The frame time is measured over every 17 frames; up to 11 measurements are kept, the
/// newest one last, and the oldest one leaves first.
pub proof fn frames_are_measured<A, L, P, F: Fn(u32) -> FloatBits>(
    renderer: &mut Renderer<A, L, P>,
    rate: &str,
    ms: &str,
    backend: &str,
    adapter: &str,
    measure: F,
    r: Option<(String, Vec<TextPart>)>,
)
    requires
        old(renderer).wf(),
        call_ensures(
            Renderer::<A, L, P>::render_debug_text::<F>,
            (renderer, rate, ms, backend, adapter, &measure),
            r,
        ),
    ensures
        ({
            let before = old(renderer).frame_times@;
            let after = final(renderer).frame_times@;
            &&& old(renderer).frame_count < 16 ==> after == before && final(renderer).frame_count
                == old(renderer).frame_count + 1
            &&& old(renderer).frame_count == 16 ==> {
                &&& final(renderer).frame_count == 0
                &&& after.len() == if before.len() < 11 {
                    before.len() + 1
                } else {
                    11
                }
                &&& call_ensures(measure, (17u32,), after.last())
                &&& before.len() < 11 ==> after.drop_last() == before
                &&& before.len() >= 11 ==> after.drop_last() == before.drop_first()
            }
        }),
{
    let before = old(renderer).frame_times@;
    if old(renderer).frame_count == 16 {
        let time = choose|time: FloatBits|
            call_ensures(measure, (FRAMES_PER_MEASUREMENT,), time) && final(renderer).frame_times@ == #[trigger] with_frame_time(before, time);
        assert(before.skip(1).push(time).drop_last() =~= before.drop_first());
        assert(before.push(time).drop_last() =~= before);
    }
}

/// Custom passes are numbered in turn in their own layer, from zero on, and those of
/// sprites from one on.
pub proof fn custom_passes_are_numbered<A, L, P>(
    renderer: &mut Renderer<A, L, P>,
    layer: SceneLayer,
    r: usize,
)
    requires
        layer == SceneLayer::ForegroundCustom || layer == SceneLayer::WorldCustom,
        old(renderer).custom_foreground_passes < usize::MAX,
        old(renderer).custom_world_passes < usize::MAX,
        call_ensures(Renderer::<A, L, P>::add_custom_pass, (renderer, &layer), r),
    ensures
        layer == SceneLayer::ForegroundCustom ==> {
            &&& r == old(renderer).custom_foreground_passes
            &&& final(renderer).custom_foreground_passes == r + 1
            &&& final(renderer).custom_world_passes == old(renderer).custom_world_passes
        },
        layer == SceneLayer::WorldCustom ==> {
            &&& r == old(renderer).custom_world_passes
            &&& final(renderer).custom_world_passes == r + 1
            &&& final(renderer).custom_foreground_passes == old(renderer).custom_foreground_passes
        },
{
}

/// Sprite passes are numbered in turn; the first one that is added has number one.
pub proof fn sprite_passes_are_numbered<A, L, P>(renderer: &mut Renderer<A, L, P>, r: u32)
    requires
        old(renderer).custom_sprite_passes < u32::MAX,
        call_ensures(Renderer::<A, L, P>::add_sprite_pass, (renderer,), r),
    ensures
        r == old(renderer).custom_sprite_passes + 1,
        final(renderer).custom_sprite_passes == r,
{
}

/// The help that is shown is hidden and the help that is hidden is shown; nothing else
/// changes.
pub proof fn help_is_switched<A, L, P>(renderer: &mut Renderer<A, L, P>)
    requires
        call_ensures(Renderer::<A, L, P>::enable_help_text, (renderer,), ()),
    ensures
        final(renderer).display_debug_msg != old(renderer).display_debug_msg,
        *final(renderer) == (Renderer {
            display_debug_msg: final(renderer).display_debug_msg,
            ..*old(renderer)
        }),
{
}

/// Which places a kind's list gives to the sprites: all of that kind and no others, each
/// once, none behind one that is nearer, and those as near in their own order.
pub open spec fn drawn_in_order(list: Seq<usize>, sprites: Seq<SpriteInfo>, kind: SpriteKind) -> bool {
    &&& forall|n: usize|
        n < sprites.len() ==> (#[trigger] list.contains(n) <==> sprites[n as int].kind == kind)
    &&& forall|i: int| 0 <= i < list.len() ==> (#[trigger] list[i]) < sprites.len()
    &&& forall|i: int, j: int|
        0 <= i < j < list.len() ==> {
            let (a, b) = (sprites[(#[trigger] list[i]) as int].z, sprites[(#[trigger] list[j]) as int].z);
            !lt(b, a) && (lt(a, b) || list[i] < list[j])
        }
}

proof fn lemma_drawn_in_order(list: Seq<usize>, sprites: Seq<SpriteInfo>, kind: SpriteKind)
    requires
        comparable(sprites),
        sorted_sprites(list, sprites, kind),
    ensures
        drawn_in_order(list, sprites, kind),
{
    assert forall|n: usize| n < sprites.len() implies (#[trigger] list.contains(n)
        <==> sprites[n as int].kind == kind) by {
        if list.contains(n) {
            let i = choose|i: int| 0 <= i < list.len() && list[i] == n;
            assert(sprites[list[i] as int].kind == kind);
        }
        if sprites[n as int].kind == kind {
            let i = choose|i: int| 0 <= i < list.len() && #[trigger] list[i] == n as int;
            assert(list[i] == n);
        }
    }
    assert forall|i: int, j: int| 0 <= i < j < list.len() implies {
        let (a, b) = (sprites[(#[trigger] list[i]) as int].z, sprites[(#[trigger] list[j]) as int].z);
        !lt(b, a) && (lt(a, b) || list[i] < list[j])
    } by {
        assert(list[i] != list[j]);
        assert(sprites[list[i] as int].kind == kind && sprites[list[j] as int].kind == kind);
        assert(!is_nan(sprites[list[i] as int].z));
        assert(!is_nan(sprites[list[j] as int].z));
    }
}

/// The three lists of sprites are the game's, the sky's and the clouds', each drawn from
/// the lowest z up.
pub proof fn sprites_are_drawn_in_order(
    sprites: Vec<SpriteInfo>,
    r: (Vec<usize>, Vec<usize>, Vec<usize>),
)
    requires
        comparable(sprites@),
        call_ensures(get_sorted_render_objects, (&sprites,), r),
    ensures
        drawn_in_order(r.0@, sprites@, SpriteKind::Game),
        drawn_in_order(r.1@, sprites@, SpriteKind::Skybox),
        drawn_in_order(r.2@, sprites@, SpriteKind::Cloud),
{
    lemma_drawn_in_order(r.0@, sprites@, SpriteKind::Game);
    lemma_drawn_in_order(r.1@, sprites@, SpriteKind::Skybox);
    lemma_drawn_in_order(r.2@, sprites@, SpriteKind::Cloud);
}

/// A pass of the user interface that is begun is there to be ended, and one that was
/// begun before and never drawn is reported.
pub proof fn stale_interfaces_are_reported<A, L, P>(renderer: &mut Renderer<A, L, P>, r: bool)
    requires
        call_ensures(Renderer::<A, L, P>::begin_egui_pass, (renderer,), r),
    ensures
        r <==> old(renderer).egui_pass_active,
        final(renderer).egui_pass_active,
{
}

/// A line that is added stands behind the others.
pub proof fn added_lines_stand_last<A, L, P>(renderer: &mut Renderer<A, L, P>, line: Line)
    requires
        call_ensures(Renderer::<A, L, P>::add_line, (renderer, line), ()),
    ensures
        final(renderer).debug_lines@.len() == old(renderer).debug_lines@.len() + 1,
        final(renderer).debug_lines@.drop_last() == old(renderer).debug_lines@,
        final(renderer).debug_lines@.last() == line,
{
    assert(final(renderer).debug_lines@.drop_last() =~= old(renderer).debug_lines@);
}

/// An actor that is added or updated is the one of its number; no other changes.
pub proof fn actors_are_kept_by_number<A, L, P>(
    renderer: &mut Renderer<A, L, P>,
    id: u32,
    actor: A,
    other: u32,
)
    requires
        call_ensures(Renderer::<A, L, P>::add_or_update_actor, (renderer, id, actor), ()),
    ensures
        final(renderer).actor_map@.contains_key(id),
        final(renderer).actor_map@[id] == actor,
        other != id ==> (final(renderer).actor_map@.contains_key(other) <==> old(
            renderer,
        ).actor_map@.contains_key(other)) && final(renderer).actor_map@[other] == old(
            renderer,
        ).actor_map@[other],
        final(renderer).light_map == old(renderer).light_map,
{
}

/// An actor that is removed is gone; no other changes.
pub proof fn removed_actors_are_gone<A, L, P>(
    renderer: &mut Renderer<A, L, P>,
    id: u32,
    other: u32,
)
    requires
        call_ensures(Renderer::<A, L, P>::remove_actor, (renderer, id), ()),
    ensures
        !final(renderer).actor_map@.contains_key(id),
        other != id ==> (final(renderer).actor_map@.contains_key(other) <==> old(
            renderer,
        ).actor_map@.contains_key(other)) && final(renderer).actor_map@[other] == old(
            renderer,
        ).actor_map@[other],
        final(renderer).light_map == old(renderer).light_map,
{
}

/// A light that is added or updated is the one of its number; no other changes.
pub proof fn lights_are_kept_by_number<A, L, P>(
    renderer: &mut Renderer<A, L, P>,
    id: u32,
    light: L,
    other: u32,
)
    requires
        call_ensures(Renderer::<A, L, P>::add_or_update_light, (renderer, id, light), ()),
    ensures
        final(renderer).light_map@.contains_key(id),
        final(renderer).light_map@[id] == light,
        other != id ==> (final(renderer).light_map@.contains_key(other) <==> old(
            renderer,
        ).light_map@.contains_key(other)) && final(renderer).light_map@[other] == old(
            renderer,
        ).light_map@[other],
        final(renderer).actor_map == old(renderer).actor_map,
{
}

/// A light that is removed is gone; no other changes.
pub proof fn removed_lights_are_gone<A, L, P>(
    renderer: &mut Renderer<A, L, P>,
    id: u32,
    other: u32,
)
    requires
        call_ensures(Renderer::<A, L, P>::remove_light, (renderer, id), ()),
    ensures
        !final(renderer).light_map@.contains_key(id),
        other != id ==> (final(renderer).light_map@.contains_key(other) <==> old(
            renderer,
        ).light_map@.contains_key(other)) && final(renderer).light_map@[other] == old(
            renderer,
        ).light_map@[other],
        final(renderer).actor_map == old(renderer).actor_map,
{
}

/// An emitter that is removed is gone; no other changes.
pub proof fn removed_emitters_are_gone<A, L, P>(
    renderer: &mut Renderer<A, L, P>,
    handle: u32,
    other: u32,
)
    requires
        call_ensures(Renderer::<A, L, P>::remove_particle_actor, (renderer, handle), ()),
    ensures
        !final(renderer).particle_map@.contains_key(handle),
        other != handle ==> (final(renderer).particle_map@.contains_key(other) <==> old(
            renderer,
        ).particle_map@.contains_key(other)) && final(renderer).particle_map@[other] == old(
            renderer,
        ).particle_map@[other],
        final(renderer).next_particle_id == old(renderer).next_particle_id,
{
}

/// A hole that is asked for is the one of the next frame, along the trace given.
pub proof fn holes_are_asked_for<A, L, P>(
    renderer: &mut Renderer<A, L, P>,
    actor: u32,
    from: Vec3,
    to: Vec3,
)
    requires
        call_ensures(Renderer::<A, L, P>::add_bullet_hole, (renderer, actor, &from, &to), ()),
    ensures
        final(renderer).bullet_hole_actor_index == Some(actor),
        final(renderer).bullet_hole_trace.0 == from,
        final(renderer).bullet_hole_trace.1 == to,
        final(renderer).actor_map == old(renderer).actor_map,
{
}

/// A texture's picture is registered once and remembered: the first request registers
/// it, and every later one gives the same. A texture that is not there has none.
pub proof fn pictures_are_registered_once<I: Copy, T, F: Fn(&T) -> I>(
    pictures: &mut EguiTextures<I>,
    handle: TextureHandle,
    textures: AssetMappings<T>,
    register: F,
    r: Option<I>,
    other: u32,
)
    requires
        call_ensures(
            EguiTextures::<I>::egui_texture_id::<T, F>,
            (pictures, &handle, &textures, &register),
            r,
        ),
    ensures
        ({
            let before = old(pictures).ids@;
            let after = final(pictures).ids@;
            let known = before.contains_key(handle.index);
            &&& known ==> r == Some(before[handle.index]) && after == before
            &&& !known ==> (r is Some <==> textures@.assets.contains_key(handle.index))
            &&& r is Some ==> after.contains_key(handle.index) && after[handle.index] == r->0
            &&& r is None ==> after == before
            &&& !known && r is Some ==> call_ensures(
                register,
                (&textures@.assets[handle.index],),
                r->0,
            )
            &&& other != handle.index ==> (after.contains_key(other) <==> before.contains_key(
                other,
            )) && after[other] == before[other]
        }),
{
}

/// The splat pass is built once: where there is none, empty and with its first settings;
/// one that is there stays as it is.
pub proof fn the_splat_pass_is_built_once<A, L, P>(renderer: &mut Renderer<A, L, P>, r: bool)
    requires
        old(renderer).wf(),
        call_ensures(Renderer::<A, L, P>::ensure_gaussian_splat_pipeline, (renderer,), r),
    ensures
        final(renderer).gaussian_splat_pass is Some,
        old(renderer).gaussian_splat_pass is Some ==> !r && final(renderer).gaussian_splat_pass
            == old(renderer).gaussian_splat_pass,
        old(renderer).gaussian_splat_pass is None ==> r
            && final(renderer).gaussian_splat_pass->0.models@.len() == 0,
{
}

} // verus!
