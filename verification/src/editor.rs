//! Editing of properties, and the transform gizmo of the viewport.

use vstd::prelude::*;

use crate::float_bits::{float_lt, lt, FloatBits};
use crate::handles::{ModelHandle, Named};
use crate::passes::gaussian_splat::SplatParams;

verus! {

/// Enums that are edited as a choice: a list of names, and a number for each
/// variant.
pub trait EditorChoice: Sized {
    /// The names in the order of the numbers.
    const NAMES: &'static [&'static str];

    /// The number of a variant.
    fn choice_index(&self) -> (r: usize);

    /// The variant of a number.
    fn from_choice_index(index: usize) -> (r: Self);
}

/// Every number that has a name is the number of its variant.
pub open spec fn numbers_match<T: EditorChoice>() -> bool {
    forall|i: usize, v: T, k: usize|
        i < T::NAMES@.len() && #[trigger] call_ensures(T::from_choice_index, (i,), v)
            && #[trigger] call_ensures(T::choice_index, (&v,), k) ==> k == i
}

/// The names that a value's type can be chosen from: the same for all values.
pub fn choice_names<T: EditorChoice>(_value: &T) -> (r: &'static [&'static str])
    ensures
        r@ == T::NAMES@,
{
    T::NAMES
}

/// The number of a value among its choices.
pub fn choice_index<T: EditorChoice>(value: &T) -> (r: usize)
    ensures
        call_ensures(T::choice_index, (value,), r),
{
    value.choice_index()
}

/// Makes a value the choice of that number. Where numbers and variants match, that
/// number reads back.
pub fn set_choice_index<T: EditorChoice>(value: &mut T, index: usize)
    ensures
        call_ensures(T::from_choice_index, (index,), *final(value)),
        numbers_match::<T>() && index < T::NAMES@.len() ==> forall|k: usize| #[trigger]
            call_ensures(T::choice_index, (final(value),), k) ==> k == index,
{
    *value = T::from_choice_index(index);
}

/// Takes over a choice that was made, if one was, and says whether one was.
pub fn apply_choice<T: EditorChoice>(value: &mut T, picked: Option<usize>) -> (r: bool)
    ensures
        r == picked is Some,
        match picked {
            Some(i) => call_ensures(T::from_choice_index, (i,), *final(value)),
            None => *final(value) == *old(value),
        },
{
    match picked {
        Some(index) => {
            set_choice_index(value, index);
            true
        },
        None => false,
    }
}

/// Where numbers and variants match, a choice that was set reads back as its number,
/// and shows its name.
pub proof fn choices_read_back<T: EditorChoice>(index: usize, value: T, read: usize)
    requires
        numbers_match::<T>(),
        index < T::NAMES@.len(),
        call_ensures(T::from_choice_index, (index,), value),
        call_ensures(T::choice_index, (&value,), read),
    ensures
        read == index,
        T::NAMES@[read as int] == T::NAMES@[index as int],
{
}

/// The name that is shown for a choice; a question mark where there is none.
pub fn choice_label(options: &[&'static str], index: usize) -> (r: &'static str)
    ensures
        r@ == if index < options@.len() {
            options@[index as int]@
        } else {
            "?"@
        },
{
    if index < options.len() {
        options[index]
    } else {
        "?"
    }
}

/// The name of the first resource with that handle.
pub open spec fn resource_name(resources: Seq<Named<u32>>, index: u32) -> Seq<char>
    decreases resources.len(),
{
    if resources.len() == 0 {
        "(none)"@
    } else if resources[0].value == index {
        resources[0].name@
    } else {
        resource_name(resources.skip(1), index)
    }
}

/// The name that is shown for a model; "(none)" where no resource has its handle.
pub fn model_label(resources: &Vec<Named<u32>>, value: &ModelHandle) -> (r: String)
    ensures
        r@ == resource_name(resources@, value.index),
{
    let mut i: usize = 0;
    assert(resources@.skip(0) == resources@);
    while i < resources.len()
        invariant
            i <= resources.len(),
            resource_name(resources@, value.index) == resource_name(
                resources@.skip(i as int),
                value.index,
            ),
        decreases resources.len() - i,
    {
        if resources[i].value == value.index {
            return resources[i].name.clone();
        }
        assert(resources@.skip(i as int).skip(1) == resources@.skip(i as int + 1));
        i += 1;
    }
    String::from_str("(none)")
}

/// The splat parameters that can be edited.
#[derive(Clone, Copy, PartialEq, Eq, Structural)]
pub enum SplatProperty {
    Falloff,
    Scale,
    Contrast,
    OverallScale,
    MaxShDegree,
}

/// The splat parameters in the order in which they are shown.
pub fn splat_properties() -> (r: [(SplatProperty, &'static str); 5])
    ensures
        r@[0] == (SplatProperty::Falloff, "Falloff"),
        r@[1] == (SplatProperty::Scale, "Splat Scale"),
        r@[2] == (SplatProperty::Contrast, "Contrast"),
        r@[3] == (SplatProperty::OverallScale, "Overall Scale"),
        r@[4] == (SplatProperty::MaxShDegree, "SH Degree"),
{
    [
        (SplatProperty::Falloff, "Falloff"),
        (SplatProperty::Scale, "Splat Scale"),
        (SplatProperty::Contrast, "Contrast"),
        (SplatProperty::OverallScale, "Overall Scale"),
        (SplatProperty::MaxShDegree, "SH Degree"),
    ]
}

impl SplatParams {
    /// The value of a property.
    pub open spec fn value(&self, p: SplatProperty) -> FloatBits {
        match p {
            SplatProperty::Falloff => self.falloff,
            SplatProperty::Scale => self.scale,
            SplatProperty::Contrast => self.contrast,
            SplatProperty::OverallScale => self.overall_scale,
            SplatProperty::MaxShDegree => self.max_sh_degree,
        }
    }

    pub fn property(&self, p: SplatProperty) -> (r: FloatBits)
        ensures
            r == self.value(p),
    {
        match p {
            SplatProperty::Falloff => self.falloff,
            SplatProperty::Scale => self.scale,
            SplatProperty::Contrast => self.contrast,
            SplatProperty::OverallScale => self.overall_scale,
            SplatProperty::MaxShDegree => self.max_sh_degree,
        }
    }

    /// Sets one property and leaves the others.
    pub fn set_property(&mut self, p: SplatProperty, value: FloatBits)
        ensures
            final(self).value(p) == value,
            forall|q: SplatProperty| q != p ==> #[trigger] final(self).value(q) == old(self).value(q),
    {
        match p {
            SplatProperty::Falloff => {
                self.falloff = value;
            },
            SplatProperty::Scale => {
                self.scale = value;
            },
            SplatProperty::Contrast => {
                self.contrast = value;
            },
            SplatProperty::OverallScale => {
                self.overall_scale = value;
            },
            SplatProperty::MaxShDegree => {
                self.max_sh_degree = value;
            },
        }
    }
}

/// Which transform the gizmo edits.
#[derive(Debug, Clone, Copy, PartialEq, Eq, Structural)]
pub enum GizmoMode {
    Translate,
    Rotate,
}

/// How close the pointer must be to a handle to grab it: 12.0 points.
pub const GIZMO_HIT_RADIUS: FloatBits = 0x4140_0000;

/// Line width of the handle that is dragged: 4.0.
pub const GIZMO_ACTIVE_WIDTH: FloatBits = 0x4080_0000;

/// Line width of an arrow: 2.5.
pub const GIZMO_ARROW_WIDTH: FloatBits = 0x4020_0000;

/// Line width of a ring: 2.0.
pub const GIZMO_RING_WIDTH: FloatBits = 0x4000_0000;

/// What one handle does in a frame.
#[derive(Clone, Copy, PartialEq, Eq, Structural)]
pub struct HandleState {
    /// The handle is the one that is dragged.
    pub active: bool,
    /// The pointer's movement is to be applied along or about its axis.
    pub drag: bool,
    /// Line width to draw it with.
    pub width: FloatBits,
}

/// A gizmo of three handles, one for each axis.
pub struct TransformGizmo {
    pub mode: GizmoMode,
    /// The axis that is dragged.
    pub drag_axis: Option<usize>,
}

impl Default for TransformGizmo {
    fn default() -> (r: Self)
        ensures
            r.mode == GizmoMode::Translate,
            r.drag_axis is None,
    {
        TransformGizmo { mode: GizmoMode::Translate, drag_axis: None }
    }
}

impl TransformGizmo {
    /// The dragged axis is one of the three.
    pub open spec fn wf(&self) -> bool {
        self.drag_axis matches Some(a) ==> a < 3
    }

    /// Begins a frame and says whether the gizmo is shown. A drag ends where the
    /// gizmo is behind the camera or the button is up.
    pub fn begin(&mut self, in_front: bool, down: bool) -> (r: bool)
        requires
            old(self).wf(),
        ensures
            final(self).wf(),
            r == in_front,
            final(self).mode == old(self).mode,
            final(self).drag_axis == if in_front && down {
                old(self).drag_axis
            } else {
                None
            },
    {
        if !in_front || !down {
            self.drag_axis = None;
        }
        in_front
    }

    /// A grab may begin: the button went down, and not on the editor's own
    /// panels.
    pub fn can_grab(pressed: bool, ui_wants_pointer: bool) -> (r: bool)
        ensures
            r == (pressed && !ui_wants_pointer),
    {
        pressed && !ui_wants_pointer
    }

    /// The width of a handle that is not dragged.
    pub open spec fn idle_width(&self) -> FloatBits {
        match self.mode {
            GizmoMode::Translate => GIZMO_ARROW_WIDTH,
            GizmoMode::Rotate => GIZMO_RING_WIDTH,
        }
    }

    /// The handle is grabbed in this frame.
    pub open spec fn grabs(can_grab: bool, distance: Option<FloatBits>) -> bool {
        can_grab && (distance matches Some(d) && lt(d, GIZMO_HIT_RADIUS))
    }

    /// Handles one axis, whose handle is `distance` away from the pointer. A
    /// handle that cannot be drawn is skipped.
    pub fn handle(
        &mut self,
        axis: usize,
        drawable: bool,
        distance: Option<FloatBits>,
        can_grab: bool,
        down: bool,
    ) -> (r: Option<HandleState>)
        requires
            old(self).wf(),
            axis < 3,
        ensures
            final(self).wf(),
            final(self).mode == old(self).mode,
            final(self).drag_axis == if drawable && Self::grabs(can_grab, distance) {
                Some(axis)
            } else {
                old(self).drag_axis
            },
            r == if drawable {
                let active = final(self).drag_axis == Some(axis);
                Some(
                    HandleState {
                        active,
                        drag: active && down,
                        width: if active {
                            GIZMO_ACTIVE_WIDTH
                        } else {
                            old(self).idle_width()
                        },
                    },
                )
            } else {
                None
            },
    {
        if !drawable {
            return None;
        }
        let near = match distance {
            Some(d) => float_lt(d, GIZMO_HIT_RADIUS),
            None => false,
        };
        if can_grab && near {
            self.drag_axis = Some(axis);
        }
        let active = match self.drag_axis {
            Some(a) => a == axis,
            None => false,
        };
        let width = if active {
            GIZMO_ACTIVE_WIDTH
        } else {
            match self.mode {
                GizmoMode::Translate => GIZMO_ARROW_WIDTH,
                GizmoMode::Rotate => GIZMO_RING_WIDTH,
            }
        };
        Some(HandleState { active, drag: active && down, width })
    }

    /// The two axes that span the ring about an axis.
    pub fn ring_axes(axis: usize) -> (r: (usize, usize))
        requires
            axis < 3,
        ensures
            r.0 == (axis + 1) % 3,
            r.1 == (axis + 2) % 3,
            r.0 != axis && r.1 != axis && r.0 != r.1,
    {
        ((axis + 1) % 3, (axis + 2) % 3)
    }
}

/// A label is the name of the first resource with the handle, whatever stands behind
/// it, and "(none)" exactly where no resource has it.
pub proof fn labels_name_the_first(
    resources: Vec<Named<u32>>,
    value: ModelHandle,
    r: String,
    at: int,
)
    requires
        call_ensures(model_label, (&resources, &value), r),
    ensures
        0 <= at < resources@.len() && resources@[at].value == value.index && (forall|k: int|
            0 <= k < at ==> (#[trigger] resources@[k]).value != value.index) ==> r@
            == resources@[at].name@,
        (forall|k: int|
            0 <= k < resources@.len() ==> (#[trigger] resources@[k]).value != value.index) ==> r@
            == "(none)"@,
{
    if 0 <= at < resources@.len() && resources@[at].value == value.index && (forall|k: int|
        0 <= k < at ==> (#[trigger] resources@[k]).value != value.index) {
        lemma_first_name(resources@, value.index, at);
    }
    if forall|k: int|
        0 <= k < resources@.len() ==> (#[trigger] resources@[k]).value != value.index {
        lemma_no_name(resources@, value.index);
    }
}

proof fn lemma_first_name(resources: Seq<Named<u32>>, index: u32, at: int)
    requires
        0 <= at < resources.len(),
        resources[at].value == index,
        forall|k: int| 0 <= k < at ==> (#[trigger] resources[k]).value != index,
    ensures
        resource_name(resources, index) == resources[at].name@,
    decreases at,
{
    if at > 0 {
        let rest = resources.skip(1);
        assert forall|k: int| 0 <= k < at - 1 implies (#[trigger] rest[k]).value != index by {
            assert(rest[k] == resources[k + 1]);
        }
        assert(resources[0].value != index);
        lemma_first_name(rest, index, at - 1);
    }
}

proof fn lemma_no_name(resources: Seq<Named<u32>>, index: u32)
    requires
        forall|k: int| 0 <= k < resources.len() ==> (#[trigger] resources[k]).value != index,
    ensures
        resource_name(resources, index) == "(none)"@,
    decreases resources.len(),
{
    if resources.len() > 0 {
        let rest = resources.skip(1);
        assert forall|k: int| 0 <= k < rest.len() implies (#[trigger] rest[k]).value != index by {
            assert(rest[k] == resources[k + 1]);
        }
        lemma_no_name(rest, index);
    }
}

/// Each property is a parameter of its own: reading it gives that parameter.
pub proof fn properties_are_parameters(params: SplatParams, p: SplatProperty, r: FloatBits)
    requires
        call_ensures(SplatParams::property, (&params, p), r),
    ensures
        p == SplatProperty::Falloff ==> r == params.falloff,
        p == SplatProperty::Scale ==> r == params.scale,
        p == SplatProperty::Contrast ==> r == params.contrast,
        p == SplatProperty::OverallScale ==> r == params.overall_scale,
        p == SplatProperty::MaxShDegree ==> r == params.max_sh_degree,
{
}

/// Setting a property sets its parameter and leaves the other four.
pub proof fn properties_are_set_alone(params: &mut SplatParams, p: SplatProperty, value: FloatBits)
    requires
        call_ensures(SplatParams::set_property, (params, p, value), ()),
    ensures
        final(params).falloff == if p == SplatProperty::Falloff {
            value
        } else {
            old(params).falloff
        },
        final(params).scale == if p == SplatProperty::Scale {
            value
        } else {
            old(params).scale
        },
        final(params).contrast == if p == SplatProperty::Contrast {
            value
        } else {
            old(params).contrast
        },
        final(params).overall_scale == if p == SplatProperty::OverallScale {
            value
        } else {
            old(params).overall_scale
        },
        final(params).max_sh_degree == if p == SplatProperty::MaxShDegree {
            value
        } else {
            old(params).max_sh_degree
        },
{
    let (a, b) = (*old(params), *final(params));
    assert(p != SplatProperty::Falloff ==> b.value(SplatProperty::Falloff) == a.value(
        SplatProperty::Falloff,
    ));
    assert(p != SplatProperty::Scale ==> b.value(SplatProperty::Scale) == a.value(
        SplatProperty::Scale,
    ));
    assert(p != SplatProperty::Contrast ==> b.value(SplatProperty::Contrast) == a.value(
        SplatProperty::Contrast,
    ));
    assert(p != SplatProperty::OverallScale ==> b.value(SplatProperty::OverallScale) == a.value(
        SplatProperty::OverallScale,
    ));
    assert(p != SplatProperty::MaxShDegree ==> b.value(SplatProperty::MaxShDegree) == a.value(
        SplatProperty::MaxShDegree,
    ));
}

/// A drag goes on from frame to frame while the gizmo is in front and the button is
/// down, and ends otherwise; its mode stays.
pub proof fn drags_end_with_the_button(
    gizmo: &mut TransformGizmo,
    in_front: bool,
    down: bool,
    r: bool,
)
    requires
        call_ensures(TransformGizmo::begin, (gizmo, in_front, down), r),
    ensures
        r <==> in_front,
        !in_front || !down ==> final(gizmo).drag_axis is None,
        in_front && down ==> final(gizmo).drag_axis == old(gizmo).drag_axis,
        final(gizmo).mode == old(gizmo).mode,
{
}

/// A handle is grabbed only by a press within 12.0 points of it, and keeps what is
/// dragged otherwise. A handle that is drawn is active exactly where it is the one that
/// is dragged, moves while the button is down, and is drawn 4.0 wide; an arrow that is
/// not is drawn 2.5 wide, and a ring 2.0.
pub proof fn near_presses_grab_handles(
    gizmo: &mut TransformGizmo,
    axis: usize,
    drawable: bool,
    distance: Option<FloatBits>,
    can_grab: bool,
    down: bool,
    r: Option<HandleState>,
)
    requires
        call_ensures(
            TransformGizmo::handle,
            (gizmo, axis, drawable, distance, can_grab, down),
            r,
        ),
    ensures
        r is Some <==> drawable,
        drawable && can_grab && (distance matches Some(d) && lt(d, 0x4140_0000))
            ==> final(gizmo).drag_axis == Some(axis),
        !drawable || !can_grab || (distance matches Some(d) ==> !lt(d, 0x4140_0000))
            ==> final(gizmo).drag_axis == old(gizmo).drag_axis,
        final(gizmo).mode == old(gizmo).mode,
        r matches Some(h) ==> {
            &&& h.active <==> final(gizmo).drag_axis == Some(axis)
            &&& h.drag <==> h.active && down
            &&& h.active ==> h.width == 0x4080_0000
            &&& !h.active && old(gizmo).mode == GizmoMode::Translate ==> h.width == 0x4020_0000
            &&& !h.active && old(gizmo).mode == GizmoMode::Rotate ==> h.width == 0x4000_0000
        },
{
}

/// The two axes of a ring follow its own in turn: from x to y to z and back to x.
pub proof fn ring_axes_follow_in_turn(axis: usize, r: (usize, usize))
    requires
        axis < 3,
        call_ensures(TransformGizmo::ring_axes, (axis,), r),
    ensures
        r.0 < 3 && r.1 < 3,
        axis == 0 ==> r == (1usize, 2usize),
        axis == 1 ==> r == (2usize, 0usize),
        axis == 2 ==> r == (0usize, 1usize),
{
}

/// A choice shows the name at its number, and a question mark where there is none.
pub proof fn choices_show_their_names(options: &[&'static str], index: usize, r: &'static str)
    requires
        call_ensures(choice_label, (options, index), r),
    ensures
        index < options@.len() ==> r@ == options@[index as int]@,
        index >= options@.len() ==> r@ == seq!['?'],
{
    reveal_strlit("?");
    assert("?"@ =~= seq!['?']);
}

/// The properties that are shown are all there are, each once.
pub proof fn every_property_is_shown(
    r: [(SplatProperty, &'static str); 5],
    p: SplatProperty,
    i: int,
    j: int,
)
    requires
        call_ensures(splat_properties, (), r),
    ensures
        exists|k: int| 0 <= k < 5 && (#[trigger] r@[k]).0 == p,
        0 <= i < j < 5 ==> r@[i].0 != r@[j].0,
{
    assert(r@[0].0 == p || r@[1].0 == p || r@[2].0 == p || r@[3].0 == p || r@[4].0 == p);
}

/// Only a press that the editor's own panels do not want grabs anything.
pub proof fn panels_keep_their_presses(pressed: bool, wanted: bool, r: bool)
    requires
        call_ensures(TransformGizmo::can_grab, (pressed, wanted), r),
    ensures
        r ==> pressed && !wanted,
        pressed && !wanted ==> r,
{
}

} // verus!
