use black_splat::collision::{
    box_edges, slab_test, CollisionAABB, CollisionManager, CollisionShape, CollisionSphere,
    FLOAT_MAX,
};
use black_splat::float_bits::Vec3;
use black_splat::fly_camera::{
    CursorChange, DragTurn, FlyCamera, LookStep, MoveStep, LOOK_DRAG_THRESHOLD,
};
use black_splat::handles::CollisionHandle;
use black_splat::text_agent::{AgentEvent, AgentKey, FocusChange, TextAgent};
use black_splat::touch_pads::{Deflection, PadTouch, TouchPads};

fn v(x: f32, y: f32, z: f32) -> Vec3 {
    Vec3 { x: x.to_bits(), y: y.to_bits(), z: z.to_bits() }
}

fn f(bits: u32) -> f32 {
    f32::from_bits(bits)
}

fn aabb(x: f32, block: bool) -> CollisionShape {
    CollisionShape::AABB(CollisionAABB {
        position: v(x, 0.0, 0.0),
        extents: v(1.0, 1.0, 1.0),
        block,
    })
}

// A ray along +x from the origin: the planes of the other axes are parallel to it.
fn along_x(b: &CollisionAABB) -> (Vec3, Vec3) {
    let (p, e) = (f(b.position.x), f(b.extents.x));
    (
        v(p - e, f32::NEG_INFINITY, f32::NEG_INFINITY),
        v(p + e, f32::INFINITY, f32::INFINITY),
    )
}

#[test]
fn rays_enter_boxes_ahead_of_them() {
    let inf = f32::INFINITY;
    assert_eq!(
        slab_test(&v(2.0, -inf, -inf), &v(4.0, inf, inf)),
        Some(2.0f32.to_bits())
    );
    assert_eq!(slab_test(&v(4.0, 1.0, -inf), &v(2.0, 3.0, inf)), Some(2.0f32.to_bits()));
    assert_eq!(slab_test(&v(-4.0, -inf, -inf), &v(-2.0, inf, inf)), None);
    assert_eq!(slab_test(&v(1.0, 3.0, -inf), &v(2.0, 4.0, inf)), None);
    assert_eq!(slab_test(&v(0.0, -inf, -inf), &v(2.0, inf, inf)), None);
}

#[test]
fn the_closest_box_is_hit() {
    let mut m = CollisionManager::default();
    let far = m.add_collision(&aabb(10.0, true));
    let near = m.add_collision(&aabb(5.0, false));
    m.add_collision(&CollisionShape::Sphere(CollisionSphere {
        position: v(2.0, 0.0, 0.0),
        radius: 1.0f32.to_bits(),
    }));
    m.add_collision(&aabb(-5.0, true));
    let hit = m.cast_ray(&along_x);
    assert_eq!((f(hit.time), hit.handle, hit.block), (4.0, near, Some(false)));
    m.remove_collision(&near);
    let hit = m.cast_ray(&along_x);
    assert_eq!((f(hit.time), hit.handle, hit.block), (9.0, far, Some(true)));
    m.remove_collision(&far);
    let hit = m.cast_ray(&along_x);
    assert_eq!((hit.time, hit.handle.is_valid(), hit.block), (FLOAT_MAX, false, None));
    assert_eq!(FLOAT_MAX, f32::MAX.to_bits());
}

#[test]
fn shapes_move_and_keep_the_rest() {
    let mut m = CollisionManager::new();
    let sphere = CollisionShape::Sphere(CollisionSphere { position: v(1.0, 1.0, 1.0), radius: 5 });
    let s = m.add_collision(&sphere);
    let b = m.add_collision(&aabb(1.0, true));
    assert_eq!(m.num_collision_objects(), 2);
    m.update_collision_position(&s, &v(3.0, 0.0, 0.0));
    m.update_collision_position(&b, &v(7.0, 0.0, 0.0));
    assert!(
        m.get_collision(&s)
            == CollisionShape::Sphere(CollisionSphere { position: v(3.0, 0.0, 0.0), radius: 5 })
    );
    assert!(m.get_collision(&b) == aabb(7.0, true));
    m.remove_collision(&CollisionHandle::make_invalid());
    assert_eq!(m.num_collision_objects(), 2);
    let lines = m.debug_draw();
    assert_eq!(lines.len(), 12);
    let edges = box_edges(&v(1.0, 1.0, 1.0));
    for (line, edge) in lines.iter().zip(&edges) {
        assert!(line.center == v(7.0, 0.0, 0.0) && (line.from, line.to) == *edge);
        assert_eq!((f(line.thickness), f(line.duration)), (0.05, 0.001));
        let c = line.color;
        assert_eq!([f(c.x), f(c.y), f(c.z), f(c.w)], [1.0, 1.0, 0.0, 1.0]);
    }
    m.add_collision(&aabb(9.0, false));
    assert_eq!(m.debug_draw().len(), 24);
    assert_eq!(m.num_collision_objects(), 3);
}

#[test]
fn handles_of_removed_shapes_are_not_given_out_again() {
    let mut m = CollisionManager::default();
    let mut given = Vec::new();
    for n in 0..6u32 {
        let handle = m.add_collision(&aabb(n as f32, true));
        assert_eq!(handle.index, n);
        given.push(handle);
        if n % 2 == 1 {
            m.remove_collision(&handle);
        }
    }
    assert_eq!(m.num_collision_objects(), 3);
    m.remove_collision(&given[1]);
    assert_eq!(m.num_collision_objects(), 3);
    let more = m.add_collision(&aabb(9.0, true));
    assert_eq!((more.index, m.num_collision_objects()), (6, 4));
    m.remove_collision(&more);
    assert_eq!(m.num_collision_objects(), 3);
    assert!(m.get_collision(&given[4]) == aabb(4.0, true));
}

#[test]
fn boxes_have_twelve_edges() {
    let edges = box_edges(&v(1.0, 2.0, 3.0));
    assert_eq!(edges.len(), 12);
    assert_eq!(edges[0], (v(-1.0, 2.0, 3.0), v(1.0, 2.0, 3.0)));
    assert_eq!(edges[3], (v(-1.0, -2.0, 3.0), v(-1.0, 2.0, 3.0)));
    assert_eq!(edges[4], (v(-1.0, 2.0, -3.0), v(1.0, 2.0, -3.0)));
    assert_eq!(edges[8], (v(-1.0, 2.0, 3.0), v(-1.0, 2.0, -3.0)));
    for (i, (a, b)) in edges.iter().enumerate() {
        assert!(edges[..i].iter().all(|e| *e != (*a, *b) && *e != (*b, *a)));
        let changed = [a.x != b.x, a.y != b.y, a.z != b.z];
        assert_eq!(changed.iter().filter(|c| **c).count(), 1);
    }
}

#[test]
fn keys_move_and_turn_the_camera() {
    let mut camera = FlyCamera::default();
    assert_eq!(f(camera.shift_move_multiplier), 3.0);
    assert_eq!((f(camera.key_look_rate), f(camera.mouse_look_sensitivity)), (30.0, 0.18));
    assert_eq!((f(camera.pitch_min), f(camera.pitch_max)), (-89.0, 89.0));
    assert!(camera.wasd_direction(true, false, false, true) == [MoveStep::Forward, MoveStep::Left]);
    assert!(camera.wasd_direction(false, true, true, false) == [MoveStep::Back, MoveStep::Right]);
    assert!(
        camera.apply_key_look(true, true, true, true)
            == [LookStep::YawPlus, LookStep::YawMinus, LookStep::PitchMinus, LookStep::PitchPlus]
    );
    camera.invert_pitch = true;
    assert!(camera.apply_key_look(false, false, true, false) == [LookStep::PitchPlus]);
    assert!(camera.apply_key_look(false, false, false, true) == [LookStep::PitchMinus]);
    let mut rotation = v(10.0, 120.0, 5.0);
    camera.clamp_pitch(&mut rotation);
    assert_eq!(rotation, v(10.0, 89.0, 5.0));
}

#[test]
fn a_look_begins_after_a_drag_and_ends_with_the_button() {
    let mut camera = FlyCamera::default();
    assert_eq!(f64::from_bits(LOOK_DRAG_THRESHOLD), 4.0);
    let outcome = camera.apply_mouse_look(true, true, 3.9f64.to_bits());
    assert!(outcome.cursor == CursorChange::Keep && outcome.turn == DragTurn::Still);
    assert!(!camera.is_looking());
    assert_eq!(camera.drag_base(false), 3.9f64.to_bits());
    assert_eq!(camera.drag_base(true), 0);
    let outcome = camera.apply_mouse_look(true, false, 4.0f64.to_bits());
    assert!(outcome.cursor == CursorChange::Grab && outcome.turn == DragTurn::Plain);
    assert!(camera.is_looking());
    camera.invert_pitch = true;
    let outcome = camera.apply_mouse_look(true, false, 0.5f64.to_bits());
    assert!(outcome.cursor == CursorChange::Keep && outcome.turn == DragTurn::Inverted);
    camera.invert_pitch = false;
    let outcome = camera.apply_mouse_look(true, false, 4.1f64.to_bits());
    assert!(outcome.cursor == CursorChange::Keep && outcome.turn == DragTurn::Plain);
    let outcome = camera.apply_mouse_look(false, false, 0);
    assert!(outcome.cursor == CursorChange::Release && outcome.turn == DragTurn::Still);
    assert!(!camera.is_looking());
    let outcome = camera.apply_mouse_look(false, false, 0);
    assert!(outcome.cursor == CursorChange::Keep && outcome.turn == DragTurn::Still);
}

#[test]
fn touches_drive_the_pad_they_started_on() {
    let t = |pressed, from_move: f32, from_look: f32| PadTouch {
        pressed,
        from_move: from_move.to_bits(),
        from_look: from_look.to_bits(),
    };
    let touches = vec![
        t(true, 0.5, 9.0),
        t(true, 9.0, 1.0),
        t(true, 0.9, 0.9),
        t(false, 0.1, 0.1),
        t(true, 5.0, 5.0),
    ];
    let r = TouchPads::assign(&touches, 1.0f32.to_bits());
    assert_eq!((r.move_touch, r.look_touch), (Some(2), Some(1)));
    let r = TouchPads::assign(&Vec::new(), 1.0f32.to_bits());
    assert_eq!((r.move_touch, r.look_touch), (None, None));
}

#[test]
fn pads_are_revealed_and_have_a_dead_zone() {
    let mut pads = TouchPads::default();
    assert_eq!((f(pads.radius_frac), f(pads.margin_frac), f(pads.span_frac)), (0.16, 0.05, 0.75));
    assert_eq!((f(pads.dead_zone), f(pads.look_rate)), (0.12, 70.0));
    assert!(pads.begin(false));
    pads.reveal_on_touch = true;
    assert!(!pads.begin(false));
    assert!(pads.begin(true));
    assert!(pads.begin(false));
    assert!(pads.deflection(0.11f32.to_bits()) == Deflection::Zero);
    assert!(pads.deflection(0.12f32.to_bits()) == Deflection::Partial);
    assert!(pads.deflection(1.0f32.to_bits()) == Deflection::Partial);
    assert!(pads.deflection(1.5f32.to_bits()) == Deflection::Full);
}

fn described(events: &[AgentEvent]) -> Vec<String> {
    events
        .iter()
        .map(|e| match e {
            AgentEvent::Text(t) => format!("text {t}"),
            AgentEvent::Key { key, pressed } => {
                let name = if *key == AgentKey::Enter { "enter" } else { "backspace" };
                format!("{name} {pressed}")
            }
        })
        .collect()
}

#[test]
fn captured_events_are_drained_once() {
    assert!(TextAgent::install(0).is_none());
    let mut agent = TextAgent::install(1).unwrap();
    agent.on_input("insertText", Some("h\u{fc}"));
    agent.on_input("insertText", Some(""));
    agent.on_input("insertText", None);
    agent.on_input("deleteContentBackward", Some("x"));
    agent.on_keydown("Enter");
    agent.on_keydown("Backspace");
    agent.on_keydown("a");
    let mut events = vec![AgentEvent::Text("first".to_string())];
    agent.drain_into(&mut events);
    assert_eq!(
        described(&events),
        vec![
            "text first",
            "text h\u{fc}",
            "backspace true",
            "backspace false",
            "enter true",
            "enter false",
            "backspace true",
            "backspace false",
        ]
    );
    agent.drain_into(&mut events);
    assert_eq!(events.len(), 8);
}

#[test]
fn focus_follows_the_interface() {
    assert!(TextAgent::set_focus(true, false) == FocusChange::Focus);
    assert!(TextAgent::set_focus(false, true) == FocusChange::Blur);
    assert!(TextAgent::set_focus(true, true) == FocusChange::Keep);
    assert!(TextAgent::set_focus(false, false) == FocusChange::Keep);
}
