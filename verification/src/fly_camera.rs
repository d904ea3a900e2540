//! A free-fly or walking camera.
//!
//! The camera's state and the decisions on keys and mouse stand here; the caller
//! multiplies and adds the numbers.

use vstd::prelude::*;

use crate::float_bits::{
    clamped, double_at_most, double_le, float_clamp, le, lt, DoubleBits, FloatBits, Vec3, ONE,
};

verus! {

/// Raw mouse travel before a held button looks around: 4.0. Below it the press
/// stays an ordinary click.
pub const LOOK_DRAG_THRESHOLD: DoubleBits = 0x4010_0000_0000_0000;

/// A camera that keys and mouse move.
#[derive(Clone, Copy)]
pub struct FlyCamera {
    /// Units per second.
    pub move_rate: FloatBits,
    /// Factor while shift is held.
    pub shift_move_multiplier: FloatBits,
    /// Degrees per second of the arrow keys.
    pub key_look_rate: FloatBits,
    /// Degrees per pixel of mouse travel.
    pub mouse_look_sensitivity: FloatBits,
    /// Movement stays on the ground plane.
    pub walk_on_plane: bool,
    pub invert_pitch: bool,
    pub pitch_min: FloatBits,
    pub pitch_max: FloatBits,
    /// A look drag is engaged.
    pub looking: bool,
    /// Mouse travel since the button went down.
    pub look_drag_accum: DoubleBits,
}

impl Default for FlyCamera {
    /// A fly-through viewer: rate 1.0, shift factor 3.0, 30.0 degrees per second,
    /// 0.18 degrees per pixel, pitch within 89.0 degrees.
    fn default() -> (r: Self)
        ensures
            r == (FlyCamera {
                move_rate: ONE,
                shift_move_multiplier: 0x4040_0000,
                key_look_rate: 0x41f0_0000,
                mouse_look_sensitivity: 0x3e38_51ec,
                walk_on_plane: false,
                invert_pitch: false,
                pitch_min: 0xc2b2_0000,
                pitch_max: 0x42b2_0000,
                looking: false,
                look_drag_accum: 0,
            }),
    {
        FlyCamera {
            move_rate: ONE,
            shift_move_multiplier: 0x4040_0000,
            key_look_rate: 0x41f0_0000,
            mouse_look_sensitivity: 0x3e38_51ec,
            walk_on_plane: false,
            invert_pitch: false,
            pitch_min: 0xc2b2_0000,
            pitch_max: 0x42b2_0000,
            looking: false,
            look_drag_accum: 0,
        }
    }
}

/// One contribution to the direction of movement.
#[derive(Clone, Copy, PartialEq, Eq, Structural)]
pub enum MoveStep {
    Forward,
    Back,
    Right,
    Left,
}

/// `step` alone where `held` holds.
pub open spec fn step_if<T>(held: bool, step: T) -> Seq<T> {
    if held {
        seq![step]
    } else {
        seq![]
    }
}

/// The contributions of the movement keys that are held.
pub open spec fn move_steps(w: bool, s: bool, d: bool, a: bool) -> Seq<MoveStep> {
    step_if(w, MoveStep::Forward) + step_if(s, MoveStep::Back) + step_if(d, MoveStep::Right)
        + step_if(a, MoveStep::Left)
}

/// One turn of the camera by a step of yaw or pitch.
#[derive(Clone, Copy, PartialEq, Eq, Structural)]
pub enum LookStep {
    YawPlus,
    YawMinus,
    PitchPlus,
    PitchMinus,
}

/// The pitch step of a key; an inverted camera turns the other way.
pub open spec fn pitch_step(up: bool, inverted: bool) -> LookStep {
    if up == inverted {
        LookStep::PitchPlus
    } else {
        LookStep::PitchMinus
    }
}

/// The turns of the arrow keys that are held.
pub open spec fn look_steps(left: bool, right: bool, up: bool, down: bool, inverted: bool) -> Seq<
    LookStep,
> {
    step_if(left, LookStep::YawPlus) + step_if(right, LookStep::YawMinus) + step_if(
        up,
        pitch_step(true, inverted),
    ) + step_if(down, pitch_step(false, inverted))
}

/// What happens to the cursor.
#[derive(Clone, Copy, PartialEq, Eq, Structural)]
pub enum CursorChange {
    Keep,
    /// Hide it, and hold it in place.
    Grab,
    /// Let it go, and show it.
    Release,
}

/// How the mouse's travel in a frame turns the camera.
#[derive(Clone, Copy, PartialEq, Eq, Structural)]
pub enum DragTurn {
    /// Not at all.
    Still,
    /// Travel to the right lowers the yaw; travel downwards raises the pitch.
    Plain,
    /// Travel to the right lowers the yaw; travel downwards lowers the pitch.
    Inverted,
}

/// What the mouse does to the view.
#[derive(Clone, Copy, PartialEq, Eq, Structural)]
pub struct LookOutcome {
    pub cursor: CursorChange,
    pub turn: DragTurn,
}

/// The turn of a camera that looks around.
pub open spec fn drag_turn(inverted: bool) -> DragTurn {
    if inverted {
        DragTurn::Inverted
    } else {
        DragTurn::Plain
    }
}

impl FlyCamera {
    /// The contributions to the direction of movement, in order.
    pub fn wasd_direction(&self, w: bool, s: bool, d: bool, a: bool) -> (r: Vec<MoveStep>)
        ensures
            r@ == move_steps(w, s, d, a),
    {
        let mut out: Vec<MoveStep> = Vec::new();
        if w {
            out.push(MoveStep::Forward);
        }
        if s {
            out.push(MoveStep::Back);
        }
        if d {
            out.push(MoveStep::Right);
        }
        if a {
            out.push(MoveStep::Left);
        }
        assert(out@ == move_steps(w, s, d, a));
        out
    }

    /// The turns of the arrow keys, in order.
    pub fn apply_key_look(&self, left: bool, right: bool, up: bool, down: bool) -> (r: Vec<LookStep>)
        ensures
            r@ == look_steps(left, right, up, down, self.invert_pitch),
    {
        let mut out: Vec<LookStep> = Vec::new();
        if left {
            out.push(LookStep::YawPlus);
        }
        if right {
            out.push(LookStep::YawMinus);
        }
        if up {
            out.push(
                if self.invert_pitch {
                    LookStep::PitchPlus
                } else {
                    LookStep::PitchMinus
                },
            );
        }
        if down {
            out.push(
                if self.invert_pitch {
                    LookStep::PitchMinus
                } else {
                    LookStep::PitchPlus
                },
            );
        }
        assert(out@ == look_steps(left, right, up, down, self.invert_pitch));
        out
    }

    /// The travel that a frame's mouse movement is added to: a fresh press begins
    /// at zero.
    pub fn drag_base(&self, just_pressed: bool) -> (r: DoubleBits)
        ensures
            r == if just_pressed {
                0
            } else {
                self.look_drag_accum
            },
    {
        if just_pressed {
            0
        } else {
            self.look_drag_accum
        }
    }

    /// Takes in the look button; `travel` is the mouse travel since it went down.
    /// A look begins once the hold has dragged far enough, and ends with it.
    pub fn apply_mouse_look(&mut self, down: bool, just_pressed: bool, travel: DoubleBits) -> (r:
        LookOutcome)
        ensures
            *final(self) == looked(*old(self), (LookInput { down, just_pressed, travel })),
            r == look_outcome(*old(self), (LookInput { down, just_pressed, travel })),
    {
        if down || just_pressed {
            self.look_drag_accum = travel;
            let mut cursor = CursorChange::Keep;
            if !self.looking && double_at_most(LOOK_DRAG_THRESHOLD, travel) {
                self.looking = true;
                cursor = CursorChange::Grab;
            }
            let turn = if !self.looking {
                DragTurn::Still
            } else if self.invert_pitch {
                DragTurn::Inverted
            } else {
                DragTurn::Plain
            };
            LookOutcome { cursor, turn }
        } else if self.looking {
            self.looking = false;
            LookOutcome { cursor: CursorChange::Release, turn: DragTurn::Still }
        } else {
            LookOutcome { cursor: CursorChange::Keep, turn: DragTurn::Still }
        }
    }

    pub fn is_looking(&self) -> (r: bool)
        ensures
            r == self.looking,
    {
        self.looking
    }

    /// Brings the pitch, which is `y`, into range.
    pub fn clamp_pitch(&self, rotation: &mut Vec3)
        requires
            le(self.pitch_min, self.pitch_max),
        ensures
            *final(rotation) == (Vec3 {
                y: clamped(old(rotation).y, self.pitch_min, self.pitch_max),
                ..*old(rotation)
            }),
    {
        rotation.y = float_clamp(rotation.y, self.pitch_min, self.pitch_max);
    }
}

/// One frame of the look button.
pub struct LookInput {
    pub down: bool,
    pub just_pressed: bool,
    pub travel: DoubleBits,
}

impl LookInput {
    /// The button is held in this frame.
    pub open spec fn held(self) -> bool {
        self.down || self.just_pressed
    }

    /// The mouse has travelled far enough to look around.
    pub open spec fn far(self) -> bool {
        double_le(LOOK_DRAG_THRESHOLD, self.travel)
    }
}

/// What a frame of the look button makes of a camera.
pub open spec fn looked(camera: FlyCamera, input: LookInput) -> FlyCamera {
    FlyCamera {
        looking: input.held() && (camera.looking || input.far()),
        look_drag_accum: if input.held() {
            input.travel
        } else {
            camera.look_drag_accum
        },
        ..camera
    }
}

/// What a frame of the look button does to the cursor and the view.
pub open spec fn look_outcome(camera: FlyCamera, input: LookInput) -> LookOutcome {
    let after = looked(camera, input).looking;
    LookOutcome {
        cursor: if after && !camera.looking {
            CursorChange::Grab
        } else if camera.looking && !after {
            CursorChange::Release
        } else {
            CursorChange::Keep
        },
        turn: if after {
            drag_turn(camera.invert_pitch)
        } else {
            DragTurn::Still
        },
    }
}

/// The camera after some frames.
pub open spec fn after_frames(camera: FlyCamera, frames: Seq<LookInput>) -> FlyCamera
    decreases frames.len(),
{
    if frames.len() == 0 {
        camera
    } else {
        looked(after_frames(camera, frames.drop_last()), frames.last())
    }
}

/// What frame `i` does to the cursor and the view.
pub open spec fn outcome_at(camera: FlyCamera, frames: Seq<LookInput>, i: int) -> LookOutcome {
    look_outcome(after_frames(camera, frames.take(i)), frames[i])
}

proof fn lemma_before_the_drag(camera: FlyCamera, frames: Seq<LookInput>, n: int)
    requires
        !camera.looking,
        0 <= n <= frames.len(),
        forall|i: int| 0 <= i < n ==> !(#[trigger] frames[i]).far(),
    ensures
        !after_frames(camera, frames.take(n)).looking,
    decreases n,
{
    if n > 0 {
        lemma_before_the_drag(camera, frames, n - 1);
        assert(frames.take(n).drop_last() == frames.take(n - 1));
        assert(frames.take(n).last() == frames[n - 1]);
    }
}

proof fn lemma_during_the_drag(camera: FlyCamera, frames: Seq<LookInput>, first: int, n: int)
    requires
        0 <= first < n <= frames.len(),
        forall|i: int| 0 <= i < n ==> (#[trigger] frames[i]).held(),
        frames[first].far(),
    ensures
        after_frames(camera, frames.take(n)).looking,
    decreases n,
{
    assert(frames.take(n).drop_last() == frames.take(n - 1));
    assert(frames.take(n).last() == frames[n - 1]);
    if first < n - 1 {
        lemma_during_the_drag(camera, frames, first, n - 1);
    }
}

/// A press that never drags far enough never looks: no frame of it turns the camera
/// or touches the cursor, and it stays an ordinary click.
pub proof fn short_presses_stay_clicks(camera: FlyCamera, frames: Seq<LookInput>, i: int)
    requires
        !camera.looking,
        forall|k: int| 0 <= k < frames.len() ==> !(#[trigger] frames[k]).far(),
        0 <= i < frames.len(),
    ensures
        outcome_at(camera, frames, i) == (LookOutcome { cursor: CursorChange::Keep, turn: DragTurn::Still }),
        !after_frames(camera, frames).looking,
{
    lemma_before_the_drag(camera, frames, i);
    lemma_before_the_drag(camera, frames, frames.len() as int);
    assert(frames.take(frames.len() as int) == frames);
}

/// A whole drag, from the press to the release. Until it has gone far enough nothing
/// happens; the frame in which it has grabs the cursor and turns the camera; the
/// frames from then on turn the camera; and the frame in which the button is up lets
/// the cursor go and ends the look. Nothing else about the camera changes.
pub proof fn drags_look_until_released(
    camera: FlyCamera,
    frames: Seq<LookInput>,
    first: int,
    release: LookInput,
    i: int,
)
    requires
        !camera.looking,
        0 <= first < frames.len(),
        forall|k: int| 0 <= k < frames.len() ==> (#[trigger] frames[k]).held(),
        forall|k: int| 0 <= k < first ==> !(#[trigger] frames[k]).far(),
        frames[first].far(),
        !release.held(),
        0 <= i < frames.len(),
    ensures
        i < first ==> outcome_at(camera, frames, i) == (LookOutcome {
            cursor: CursorChange::Keep,
            turn: DragTurn::Still,
        }),
        i == first ==> outcome_at(camera, frames, i) == (LookOutcome {
            cursor: CursorChange::Grab,
            turn: drag_turn(camera.invert_pitch),
        }),
        i > first ==> outcome_at(camera, frames, i) == (LookOutcome {
            cursor: CursorChange::Keep,
            turn: drag_turn(camera.invert_pitch),
        }),
        look_outcome(after_frames(camera, frames), release) == (LookOutcome {
            cursor: CursorChange::Release,
            turn: DragTurn::Still,
        }),
        after_frames(camera, frames.push(release)) == (FlyCamera {
            look_drag_accum: frames.last().travel,
            ..camera
        }),
{
    lemma_rest_stays(camera, frames.take(i));
    if i <= first {
        lemma_before_the_drag(camera, frames, i);
    } else {
        lemma_during_the_drag(camera, frames, first, i);
    }
    lemma_during_the_drag(camera, frames, first, frames.len() as int);
    assert(frames.take(frames.len() as int) == frames);
    assert(frames.push(release).drop_last() == frames);
    assert(frames.last() == frames[frames.len() - 1]);
    lemma_rest_stays(camera, frames);
}

proof fn lemma_rest_stays(camera: FlyCamera, frames: Seq<LookInput>)
    ensures
        after_frames(camera, frames) == (FlyCamera {
            looking: after_frames(camera, frames).looking,
            look_drag_accum: after_frames(camera, frames).look_drag_accum,
            ..camera
        }),
    decreases frames.len(),
{
    if frames.len() > 0 {
        lemma_rest_stays(camera, frames.drop_last());
    }
}

/// Looking ends with the frame in which the button is up.
pub proof fn release_ends_the_look(camera: FlyCamera, frames: Seq<LookInput>)
    requires
        frames.len() > 0,
        !frames.last().held(),
    ensures
        !after_frames(camera, frames).looking,
{
}

/// Every movement key that is held takes its own step, once, and no other does; the
/// steps stand in the order of the keys. So opposite keys both take theirs.
pub proof fn held_keys_take_their_steps(
    camera: FlyCamera,
    w: bool,
    s: bool,
    d: bool,
    a: bool,
    r: Vec<MoveStep>,
)
    requires
        call_ensures(FlyCamera::wasd_direction, (&camera, w, s, d, a), r),
    ensures
        r@.contains(MoveStep::Forward) <==> w,
        r@.contains(MoveStep::Back) <==> s,
        r@.contains(MoveStep::Right) <==> d,
        r@.contains(MoveStep::Left) <==> a,
        r@.no_duplicates(),
        forall|i: int, j: int|
            0 <= i < j < r@.len() ==> move_rank(#[trigger] r@[i]) < move_rank(#[trigger] r@[j]),
{
    assert(w ==> r@[0] == MoveStep::Forward);
    let n1: int = if w { 1 } else { 0 };
    let n2: int = if s { n1 + 1 } else { n1 };
    let n3: int = if d { n2 + 1 } else { n2 };
    assert(s ==> r@[n1] == MoveStep::Back);
    assert(d ==> r@[n2] == MoveStep::Right);
    assert(a ==> r@[n3] == MoveStep::Left);
}

/// The place of a step among those of a frame.
pub open spec fn move_rank(step: MoveStep) -> int {
    match step {
        MoveStep::Forward => 0,
        MoveStep::Back => 1,
        MoveStep::Right => 2,
        MoveStep::Left => 3,
    }
}

/// Every arrow key that is held turns the camera once: left raises the yaw and right
/// lowers it, up lowers the pitch and down raises it. An inverted camera does the
/// opposite with the pitch, and the same with the yaw.
pub proof fn held_arrows_turn_the_camera(
    camera: FlyCamera,
    left: bool,
    right: bool,
    up: bool,
    down: bool,
    r: Vec<LookStep>,
)
    requires
        call_ensures(FlyCamera::apply_key_look, (&camera, left, right, up, down), r),
    ensures
        r@.contains(LookStep::YawPlus) <==> left,
        r@.contains(LookStep::YawMinus) <==> right,
        r@.contains(LookStep::PitchMinus) <==> if camera.invert_pitch { down } else { up },
        r@.contains(LookStep::PitchPlus) <==> if camera.invert_pitch { up } else { down },
        r@.no_duplicates(),
        left && r@.len() > 0 ==> r@[0] == LookStep::YawPlus,
        down && r@.len() > 0 ==> r@.last() == if camera.invert_pitch {
            LookStep::PitchMinus
        } else {
            LookStep::PitchPlus
        },
{
    let n1: int = if left { 1 } else { 0 };
    let n2: int = if right { n1 + 1 } else { n1 };
    let n3: int = if up { n2 + 1 } else { n2 };
    let n4: int = if down { n3 + 1 } else { n3 };
    assert(r@.len() == n4);
    assert(left ==> r@[0] == LookStep::YawPlus);
    assert(right ==> r@[n1] == LookStep::YawMinus);
    assert(up ==> r@[n2] == pitch_step(true, camera.invert_pitch));
    assert(down ==> r@[n3] == pitch_step(false, camera.invert_pitch));
}

/// A frame of the look button in its own words: the camera looks afterwards exactly
/// where the button is held and either looked before or has the mouse travel 4.0 or
/// more; the cursor is taken when looking begins and let go when it ends; and the view
/// turns exactly while the camera looks, by the pitch's own direction.
pub proof fn frames_of_the_look_button(
    camera: &mut FlyCamera,
    down: bool,
    just_pressed: bool,
    travel: DoubleBits,
    r: LookOutcome,
)
    requires
        call_ensures(FlyCamera::apply_mouse_look, (camera, down, just_pressed, travel), r),
    ensures
        final(camera).looking <==> (down || just_pressed) && (old(camera).looking || double_le(
            0x4010_0000_0000_0000,
            travel,
        )),
        final(camera).look_drag_accum == if down || just_pressed {
            travel
        } else {
            old(camera).look_drag_accum
        },
        *final(camera) == (FlyCamera {
            looking: final(camera).looking,
            look_drag_accum: final(camera).look_drag_accum,
            ..*old(camera)
        }),
        r.cursor == CursorChange::Grab <==> !old(camera).looking && final(camera).looking,
        r.cursor == CursorChange::Release <==> old(camera).looking && !final(camera).looking,
        r.turn == DragTurn::Still <==> !final(camera).looking,
        r.turn == DragTurn::Inverted ==> old(camera).invert_pitch,
        r.turn == DragTurn::Plain ==> !old(camera).invert_pitch,
{
}

/// The pitch is brought to the nearest end of its range and stays where it is within;
/// nothing else of the rotation changes.
pub proof fn pitch_stays_in_range(camera: FlyCamera, rotation: &mut Vec3)
    requires
        le(camera.pitch_min, camera.pitch_max),
        call_ensures(FlyCamera::clamp_pitch, (&camera, rotation), ()),
    ensures
        final(rotation).x == old(rotation).x,
        final(rotation).z == old(rotation).z,
        lt(old(rotation).y, camera.pitch_min) ==> final(rotation).y == camera.pitch_min,
        lt(camera.pitch_max, old(rotation).y) ==> final(rotation).y == camera.pitch_max,
        !lt(old(rotation).y, camera.pitch_min) && !lt(camera.pitch_max, old(rotation).y)
            ==> final(rotation).y == old(rotation).y,
{
}

/// Travel starts anew with every press, and goes on where none was.
pub proof fn presses_start_anew(camera: FlyCamera, just_pressed: bool, r: DoubleBits)
    requires
        call_ensures(FlyCamera::drag_base, (&camera, just_pressed), r),
    ensures
        just_pressed ==> r == 0,
        !just_pressed ==> r == camera.look_drag_accum,
{
}

} // verus!
