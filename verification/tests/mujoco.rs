use black_splat::float_bits::{Vec3, Vec4, ONE};
use black_splat::handles::NameTable;
use black_splat::mujoco::{
    apply_trajectory_frame, draw_mj_geom, draw_wire_box, joint_tracks, mesh_actions,
    mesh_actions_of_text, mesh_name, mesh_steps, mj_basis, mj_vec3, wire_color, Axis, GeomInfo,
    JointInfo, JointKind, LocalPoint, MeshAction, MeshPaths, MeshStep, MujocoBridge, MujocoScene, Part, Wire,
    XmlNode, CROSS, GRID, MJ_GEOM_BOX, MJ_GEOM_CAPSULE, MJ_GEOM_CYLINDER, MJ_GEOM_MESH,
    MJ_GEOM_PLANE, MJ_GEOM_SPHERE, OUTLINE, PLANE_DEFAULT,
};
use black_splat::trajectory::{JointTrack, RetargetedClip};

fn b(v: f32) -> u32 {
    v.to_bits()
}

fn v(x: f32, y: f32, z: f32) -> Vec3 {
    Vec3 { x: b(x), y: b(y), z: b(z) }
}

fn text(s: &str) -> String {
    s.to_string()
}

#[test]
fn z_up_becomes_y_up() {
    assert_eq!(mj_vec3(v(1.0, 2.0, 3.0)), v(1.0, 3.0, -2.0));
    let mut turned = v(1.0, 2.0, 3.0);
    for _ in 0..4 {
        turned = mj_vec3(turned);
    }
    assert_eq!(turned, v(1.0, 2.0, 3.0));
    let m = [1.0, 2.0, 3.0, 4.0, 5.0, 6.0, 7.0, 8.0, 9.0f32].map(b);
    let (x, y, z) = mj_basis(&m);
    assert_eq!(x, v(1.0, 7.0, -4.0));
    assert_eq!(y, v(2.0, 8.0, -5.0));
    assert_eq!(z, v(3.0, 9.0, -6.0));
}

#[test]
fn wire_sizes_are_the_drawn_ones() {
    assert_eq!((OUTLINE, GRID), (b(0.02), b(0.008)));
    assert_eq!((PLANE_DEFAULT, CROSS), (b(3.0), b(0.1)));
    assert_eq!(
        wire_color(&[1, 2, 3, 4]),
        Vec4 { x: 1, y: 2, z: 3, w: ONE }
    );
}

#[test]
fn every_geom_but_a_mesh_has_wires() {
    let size = [0.5, 0.0, 2.0f32].map(b);
    let lens: Vec<usize> = [
        MJ_GEOM_PLANE,
        MJ_GEOM_SPHERE,
        MJ_GEOM_CAPSULE,
        MJ_GEOM_CYLINDER,
        MJ_GEOM_BOX,
        MJ_GEOM_MESH,
        4,
    ]
    .iter()
    .map(|k| draw_mj_geom(*k, &size).len())
    .collect();
    assert_eq!(lens, vec![30, 3, 10, 10, 12, 0, 3]);
}

#[test]
fn planes_without_a_size_take_the_default() {
    let wires = draw_mj_geom(MJ_GEOM_PLANE, &[0.5, 0.0, 2.0f32].map(b));
    let whole = |size: u32, num: i32| Part { size, num, den: 1 };
    let none = whole(0, 0);
    let corner = |sx: i32, sy: i32| LocalPoint {
        x: whole(b(0.5), sx),
        y: whole(PLANE_DEFAULT, sy),
        z: none,
    };
    assert!(
        wires[0] == Wire::Line { from: corner(1, 1), to: corner(-1, 1), thickness: OUTLINE }
    );
    assert!(
        wires[3] == Wire::Line { from: corner(1, -1), to: corner(1, 1), thickness: OUTLINE }
    );
    let x = Part { size: b(0.5), num: -6, den: 6 };
    assert!(
        wires[4]
            == Wire::Line {
                from: LocalPoint { x, y: whole(PLANE_DEFAULT, 1), z: none },
                to: LocalPoint { x, y: whole(PLANE_DEFAULT, -1), z: none },
                thickness: GRID,
            }
    );
}

#[test]
fn round_geoms_are_drawn_as_circles() {
    let wires = draw_mj_geom(MJ_GEOM_SPHERE, &[7, 8, 9]);
    let none = Part { size: 0, num: 0, den: 1 };
    assert!(wires[1] == Wire::Circle { at: none, u: Axis::X, v: Axis::Z, radius: 7 });
    let wires = draw_mj_geom(MJ_GEOM_CAPSULE, &[7, 8, 9]);
    let end = Part { size: 8, num: -1, den: 1 };
    assert!(wires[1] == Wire::Circle { at: end, u: Axis::X, v: Axis::Y, radius: 7 });
    assert!(wires[9] == Wire::Side { step: 7, radius: 7, half_len: 8 });
    let edges = draw_wire_box(1, 2, 3);
    let point = |x: i32, y: i32, z: i32| LocalPoint {
        x: Part { size: 1, num: x, den: 1 },
        y: Part { size: 2, num: y, den: 1 },
        z: Part { size: 3, num: z, den: 1 },
    };
    assert!(
        edges[0]
            == Wire::Line { from: point(-1, -1, -1), to: point(1, -1, -1), thickness: OUTLINE }
    );
}

#[test]
fn a_frame_catches_up_on_eight_steps_at_most() {
    let mut scene = MujocoScene::new(NameTable::new());
    assert!(scene.is_playing());
    assert_eq!(scene.speed(), ONE);
    scene.sim_time_accum = b(0.05);
    assert!(scene.step_due(b(0.05), 7));
    assert!(!scene.step_due(b(0.05), 8));
    assert!(!scene.step_due(b(0.06), 0));
    scene.set_playing(false);
    assert!(!scene.step_due(b(0.01), 0));
    scene.set_playing(true);
    scene.set_speed(b(2.0));
    scene.reset();
    assert_eq!((scene.sim_time_accum, scene.speed()), (0, b(2.0)));
    assert!(!scene.step_due(b(0.01), 0));
}

#[test]
fn joints_without_a_name_are_left_out() {
    let j = |name: Option<&str>, kind| JointInfo { name: name.map(text), kind };
    let tracks = joint_tracks(&vec![
        j(Some("base"), JointKind::Free),
        j(None, JointKind::Hinge),
        j(Some("hip"), JointKind::Ball),
        j(Some("rail"), JointKind::Slide),
        j(Some("knee"), JointKind::Hinge),
    ]);
    let list: Vec<_> = tracks.into_iter().map(|t| (t.name, t.dofs)).collect();
    assert_eq!(
        list,
        vec![(text("base"), 7), (text("hip"), 4), (text("rail"), 1), (text("knee"), 1)]
    );
}

#[test]
fn a_frame_is_cut_into_joints() {
    let clip = RetargetedClip {
        dt: 0,
        joints: vec![
            JointTrack { name: text("a"), dofs: 1 },
            JointTrack { name: text("b"), dofs: 2 },
        ],
        frames: vec![vec![1, 2, 3]],
        unmatched: Vec::new(),
        unmatched_frames: Vec::new(),
    };
    let writes = apply_trajectory_frame(&clip, 0).unwrap();
    let list: Vec<_> = writes.into_iter().map(|w| (w.name, w.values)).collect();
    assert_eq!(list, vec![(text("a"), vec![1]), (text("b"), vec![2, 3])]);
    assert!(apply_trajectory_frame(&clip, 1).is_none());
}

#[test]
fn joints_beyond_a_short_frame_are_left_out() {
    let joint = |name: &str, dofs| JointTrack { name: text(name), dofs };
    let clip = RetargetedClip {
        dt: 0,
        joints: vec![joint("a", 1), joint("b", 2), joint("c", usize::MAX), joint("d", 0)],
        frames: vec![vec![1, 2, 3], vec![1, 2], Vec::new()],
        unmatched: Vec::new(),
        unmatched_frames: Vec::new(),
    };
    let names = |i| -> Vec<String> {
        apply_trajectory_frame(&clip, i).unwrap().into_iter().map(|w| w.name).collect()
    };
    assert_eq!(names(0), ["a", "b"]);
    assert_eq!(names(1), ["a"]);
    assert!(names(2).is_empty());
}

#[test]
fn meshes_without_a_name_are_named_after_their_file() {
    assert_eq!(mesh_name(&Some(text("arm")), "x/leg.obj"), "arm");
    assert_eq!(mesh_name(&None, "x/leg.obj"), "leg");
    assert_eq!(mesh_name(&None, "leg.part.obj"), "leg.part");
    assert_eq!(mesh_name(&None, ".."), "");
}

#[test]
fn meshes_are_drawn_where_their_file_is_known() {
    let mut paths = NameTable::new();
    paths.set("arm", text("/m/arm.stl"));
    let scene = MujocoScene::new(paths);
    let g = |kind, name: Option<&str>, material| GeomInfo {
        kind,
        mesh_name: name.map(text),
        rgba: [1, 1, 1, 1],
        material_rgba: material,
    };
    let list = scene.mesh_geoms(&vec![
        g(MJ_GEOM_BOX, Some("arm"), None),
        g(MJ_GEOM_MESH, Some("arm"), None),
        g(MJ_GEOM_MESH, Some("leg"), None),
        g(MJ_GEOM_MESH, None, None),
        g(MJ_GEOM_MESH, Some("arm"), Some([2, 3, 4, 5])),
    ]);
    assert_eq!(list.len(), 2);
    assert_eq!((list[0].geom, list[0].rgba), (1, [1, 1, 1, 1]));
    assert_eq!((list[1].geom, list[1].rgba), (4, [2, 3, 4, 5]));
    assert_eq!(list[1].mesh_path, "/m/arm.stl");
}

fn described(actions: &[MeshAction]) -> Vec<String> {
    actions
        .iter()
        .map(|a| match a {
            MeshAction::MeshDir(d) => format!("dir {d}"),
            MeshAction::Mesh { name, file } => format!("mesh {name:?} {file}"),
            MeshAction::Open(f) => format!("open {f}"),
        })
        .collect()
}

#[test]
fn model_files_name_their_meshes() {
    let xml = r#"<mujoco model="m"><!-- note -->
        <compiler angle="radian" meshdir="assets"/>
        <compiler angle="degree"/>
        <include file="parts.xml"/>
        <asset>
            <mesh name="arm" file="arm.stl"/>
            <mesh file="leg.obj"/>
            <mesh name="built_in"/>
            <texture file="wood.png"/>
        </asset>
    </mujoco>"#;
    let actions = mesh_actions_of_text(xml).unwrap();
    assert_eq!(
        described(&actions),
        vec![
            "dir assets",
            "open parts.xml",
            "mesh Some(\"arm\") arm.stl",
            "mesh None leg.obj",
        ]
    );
    assert!(mesh_actions_of_text("<mujoco>").is_none());
    assert!(mesh_actions_of_text("").is_none());
}

#[test]
fn the_first_attribute_of_a_local_name_counts() {
    let xml = r#"<a xmlns:n="urn:n"><mesh n:file="x.stl"/><mesh n:file="y.stl" file="z.stl"/></a>"#;
    let actions = mesh_actions_of_text(xml).unwrap();
    assert_eq!(described(&actions), vec!["mesh None x.stl", "mesh None y.stl"]);
    let node = XmlNode {
        is_element: false,
        tag: text("mesh"),
        meshdir: None,
        file: Some(text("q")),
        name: None,
    };
    assert!(mesh_actions(&vec![node]).is_empty());
}

#[test]
fn a_mesh_lies_in_the_directory_in_force() {
    let xml = r#"<mujoco>
        <mesh file="a.stl"/>
        <compiler meshdir="one"/>
        <mesh name="b" file="b.stl"/>
        <include file="more.xml"/>
        <compiler meshdir="two"/>
        <compiler angle="radian"/>
        <mesh file="c.stl"/>
    </mujoco>"#;
    let steps = mesh_steps(&mesh_actions_of_text(xml).unwrap());
    let listed: Vec<String> = steps
        .iter()
        .map(|s| match s {
            MeshStep::Mesh { dir, name, file } => format!("{dir:?} {name:?} {file}"),
            MeshStep::Open(file) => format!("open {file}"),
        })
        .collect();
    assert_eq!(
        listed,
        vec![
            "None None a.stl",
            "Some(\"one\") Some(\"b\") b.stl",
            "open more.xml",
            "Some(\"two\") None c.stl",
        ]
    );
    assert!(mesh_steps(&Vec::new()).is_empty());
}

#[test]
fn a_model_file_is_walked_once() {
    let mut paths = MeshPaths::new();
    assert!(paths.enter("/a.xml"));
    assert!(paths.enter("/b.xml"));
    assert!(!paths.enter("/a.xml"));
    paths.add_mesh("arm", text("/1.stl"));
    paths.add_mesh("arm", text("/2.stl"));
    assert_eq!(paths.paths.find("arm"), Some(&text("/2.stl")));
    assert_eq!(paths.visited.len(), 2);
}

#[test]
fn the_bridge_hands_over_requests_once() {
    let mut bridge = MujocoBridge::new();
    assert_eq!(bridge.mj_bridge_model_xml(), "");
    bridge.set_model_xml(text("<mujoco/>"));
    assert_eq!(bridge.mj_bridge_model_xml(), "<mujoco/>");
    assert!(bridge.mj_bridge_playing());
    bridge.set_playback(false, b(0.5));
    assert!(!bridge.mj_bridge_playing());
    assert_eq!(bridge.mj_bridge_speed(), b(0.5));
    bridge.request_single_step();
    bridge.request_reset();
    assert!(bridge.mj_bridge_take_single_step_requested());
    assert!(!bridge.mj_bridge_take_single_step_requested());
    assert!(bridge.mj_bridge_take_reset_requested());
    assert!(!bridge.mj_bridge_take_reset_requested());
}

#[test]
fn watched_geoms_are_reported_by_name() {
    let mut bridge = MujocoBridge::new();
    bridge.watch_geom("ball");
    bridge.watch_joint("knee");
    assert_eq!(bridge.named_geom_id("ball"), None);
    assert_eq!(bridge.geom_world_pos("ball"), None);
    bridge.mj_bridge_report_geom_id("ball", 1);
    bridge.mj_bridge_report_joint_dof("knee", 4);
    bridge.watch_geom("ball");
    assert_eq!(bridge.named_geom_id("ball"), Some(1));
    assert_eq!(bridge.named_joint_dof("knee"), Some(4));
    assert_eq!(bridge.named_joint_dof("ball"), None);
    assert_eq!(bridge.mj_bridge_watched_geom_names(), vec!["ball"]);
    assert_eq!(bridge.mj_bridge_watched_joint_names(), vec!["knee"]);
    let values: Vec<u32> = (0..18).map(|i| b(i as f32)).collect();
    bridge.mj_bridge_set_geoms(&[2, 6], &values[0..6], &values[0..8], &values[0..6], &values);
    assert_eq!(bridge.geom_world_pos("ball"), Some(v(3.0, 5.0, -4.0)));
    assert_eq!(bridge.geoms.len(), 2);
    assert_eq!(bridge.geoms[1].kind, 6);
    assert_eq!(bridge.geoms[1].rgba, [4.0, 5.0, 6.0, 7.0f32].map(b));
    assert_eq!(bridge.geoms[1].xmat[8], b(17.0));
    // Arrays that do not belong together are ignored.
    bridge.mj_bridge_set_geoms(&[2], &values[0..6], &values[0..4], &values[0..3], &values[0..9]);
    assert_eq!(bridge.geoms.len(), 2);
}
