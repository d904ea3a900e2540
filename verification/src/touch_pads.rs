//! Two on-screen thumb pads: the left one moves, the right one looks.

use vstd::prelude::*;

use crate::float_bits::{float_le, float_lt, le, lt, FloatBits, ONE};

verus! {

/// Settings and state of the pads.
#[derive(Clone, Copy)]
pub struct TouchPads {
    /// Radius relative to the shorter screen axis.
    pub radius_frac: FloatBits,
    /// Gap to the screen edge relative to the shorter axis.
    pub margin_frac: FloatBits,
    /// Part of the radius that counts as full deflection.
    pub span_frac: FloatBits,
    /// Deflections shorter than this count as none.
    pub dead_zone: FloatBits,
    /// Degrees per second at full deflection.
    pub look_rate: FloatBits,
    /// The pads stay hidden until the first touch.
    pub reveal_on_touch: bool,
    /// A touch was seen.
    pub revealed: bool,
}

impl Default for TouchPads {
    /// Radius 0.16, margin 0.05, span 0.75, dead zone 0.12, 70.0 degrees per
    /// second, shown from the start.
    fn default() -> (r: Self)
        ensures
            r == (TouchPads {
                radius_frac: 0x3e23_d70a,
                margin_frac: 0x3d4c_cccd,
                span_frac: 0x3f40_0000,
                dead_zone: 0x3df5_c28f,
                look_rate: 0x428c_0000,
                reveal_on_touch: false,
                revealed: false,
            }),
    {
        TouchPads {
            radius_frac: 0x3e23_d70a,
            margin_frac: 0x3d4c_cccd,
            span_frac: 0x3f40_0000,
            dead_zone: 0x3df5_c28f,
            look_rate: 0x428c_0000,
            reveal_on_touch: false,
            revealed: false,
        }
    }
}

/// A touch of this frame.
#[derive(Clone, Copy)]
pub struct PadTouch {
    /// The finger is on the screen.
    pub pressed: bool,
    /// Where it started: how far from the middle of the move pad.
    pub from_move: FloatBits,
    /// Where it started: how far from the middle of the look pad.
    pub from_look: FloatBits,
}

/// A touch belongs to the pad it started on, and to the move pad where the two
/// overlap.
pub open spec fn on_move_pad(t: PadTouch, radius: FloatBits) -> bool {
    t.pressed && le(t.from_move, radius)
}

pub open spec fn on_look_pad(t: PadTouch, radius: FloatBits) -> bool {
    t.pressed && !le(t.from_move, radius) && le(t.from_look, radius)
}

/// The last of the first `n` touches that `on` holds of.
pub open spec fn last_touch(touches: Seq<PadTouch>, on: spec_fn(PadTouch) -> bool, n: int) -> Option<
    int,
>
    decreases n,
{
    if n <= 0 {
        None
    } else if on(touches[n - 1]) {
        Some(n - 1)
    } else {
        last_touch(touches, on, n - 1)
    }
}

/// The touches that drive the two pads.
pub struct PadTouches {
    pub move_touch: Option<usize>,
    pub look_touch: Option<usize>,
}

pub open spec fn same_index(a: Option<usize>, b: Option<int>) -> bool {
    match (a, b) {
        (Some(i), Some(j)) => i == j,
        (None, None) => true,
        _ => false,
    }
}

/// How a deflection is treated.
#[derive(Clone, Copy, PartialEq, Eq, Structural)]
pub enum Deflection {
    /// Within the dead zone: none.
    Zero,
    /// Beyond the span: full, in its direction.
    Full,
    /// As it is.
    Partial,
}

impl TouchPads {
    /// Begins a frame and says whether the pads are shown; once a touch was seen
    /// they stay revealed.
    pub fn begin(&mut self, any_touch: bool) -> (r: bool)
        ensures
            *final(self) == (TouchPads { revealed: old(self).revealed || any_touch, ..*old(self) }),
            r == (!old(self).reveal_on_touch || final(self).revealed),
    {
        if any_touch {
            self.revealed = true;
        }
        !(self.reveal_on_touch && !self.revealed)
    }

    /// Finds the touch that drives each pad: of several the last one.
    pub fn assign(touches: &Vec<PadTouch>, radius: FloatBits) -> (r: PadTouches)
        ensures
            same_index(
                r.move_touch,
                last_touch(touches@, |t: PadTouch| on_move_pad(t, radius), touches@.len() as int),
            ),
            same_index(
                r.look_touch,
                last_touch(touches@, |t: PadTouch| on_look_pad(t, radius), touches@.len() as int),
            ),
    {
        let mut move_touch: Option<usize> = None;
        let mut look_touch: Option<usize> = None;
        let mut i: usize = 0;
        while i < touches.len()
            invariant
                i <= touches.len(),
                same_index(
                    move_touch,
                    last_touch(touches@, |t: PadTouch| on_move_pad(t, radius), i as int),
                ),
                same_index(
                    look_touch,
                    last_touch(touches@, |t: PadTouch| on_look_pad(t, radius), i as int),
                ),
            decreases touches.len() - i,
        {
            let t = touches[i];
            if t.pressed {
                if float_le(t.from_move, radius) {
                    move_touch = Some(i);
                } else if float_le(t.from_look, radius) {
                    look_touch = Some(i);
                }
            }
            i += 1;
        }
        PadTouches { move_touch, look_touch }
    }

    /// How a deflection of a length is treated.
    pub fn deflection(&self, length: FloatBits) -> (r: Deflection)
        ensures
            r == if lt(length, self.dead_zone) {
                Deflection::Zero
            } else if lt(ONE, length) {
                Deflection::Full
            } else {
                Deflection::Partial
            },
    {
        if float_lt(length, self.dead_zone) {
            Deflection::Zero
        } else if float_lt(ONE, length) {
            Deflection::Full
        } else {
            Deflection::Partial
        }
    }
}

/// No touch drives both pads.
pub proof fn pads_never_share_a_touch(t: PadTouch, radius: FloatBits)
    ensures
        !(on_move_pad(t, radius) && on_look_pad(t, radius)),
{
}

proof fn lemma_last_touch(touches: Seq<PadTouch>, on: spec_fn(PadTouch) -> bool, n: int)
    requires
        0 <= n <= touches.len(),
    ensures
        match last_touch(touches, on, n) {
            Some(i) => 0 <= i < n && on(touches[i]) && forall|j: int|
                i < j < n ==> !on(#[trigger] touches[j]),
            None => forall|j: int| 0 <= j < n ==> !on(#[trigger] touches[j]),
        },
    decreases n,
{
    if n > 0 {
        lemma_last_touch(touches, on, n - 1);
    }
}

/// The touch that drives the move pad is down and started within the pad, and no
/// later one did; where none drives it, none did. The same holds of the look pad, but
/// that a touch which started within both counts for the move pad alone. So two pads
/// are never driven by one touch.
pub proof fn pads_follow_their_last_touch(
    touches: Vec<PadTouch>,
    radius: FloatBits,
    r: PadTouches,
    j: int,
)
    requires
        call_ensures(TouchPads::assign, (&touches, radius), r),
        0 <= j < touches@.len(),
    ensures
        ({
            let t = touches@[j];
            let moving = t.pressed && le(t.from_move, radius);
            let looking = t.pressed && le(t.from_look, radius) && !le(t.from_move, radius);
            &&& r.move_touch is None ==> !moving
            &&& r.look_touch is None ==> !looking
            &&& r.move_touch matches Some(i) ==> i < touches@.len() && (j == i ==> moving) && (j > i
                ==> !moving)
            &&& r.look_touch matches Some(i) ==> i < touches@.len() && (j == i ==> looking) && (j > i
                ==> !looking)
        }),
        r.move_touch is Some && r.look_touch is Some ==> r.move_touch != r.look_touch,
{
    let n = touches@.len() as int;
    lemma_last_touch(touches@, |t: PadTouch| on_move_pad(t, radius), n);
    lemma_last_touch(touches@, |t: PadTouch| on_look_pad(t, radius), n);
}

/// A deflection is full only beyond one and none only within the dead zone; a dead
/// zone of one or less never swallows a full deflection, and without a dead zone
/// every deflection up to one counts as it is.
pub proof fn deflections_grow(pads: TouchPads, length: FloatBits, r: Deflection)
    requires
        call_ensures(TouchPads::deflection, (&pads, length), r),
    ensures
        r == Deflection::Zero <==> lt(length, pads.dead_zone),
        r == Deflection::Full ==> lt(0x3f80_0000, length),
        r == Deflection::Partial ==> !lt(0x3f80_0000, length),
        le(pads.dead_zone, 0x3f80_0000) && lt(0x3f80_0000, length) ==> r == Deflection::Full,
{
}

/// Pads that wait for a touch are shown from the first one on, and others always; a
/// touch is never forgotten, and no setting changes.
pub proof fn pads_stay_revealed(pads: &mut TouchPads, any_touch: bool, r: bool)
    requires
        call_ensures(TouchPads::begin, (pads, any_touch), r),
    ensures
        old(pads).revealed || any_touch <==> final(pads).revealed,
        !old(pads).reveal_on_touch ==> r,
        old(pads).reveal_on_touch ==> (r <==> old(pads).revealed || any_touch),
        *final(pads) == (TouchPads { revealed: final(pads).revealed, ..*old(pads) }),
{
}

} // verus!
