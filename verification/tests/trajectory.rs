use std::collections::hash_map::DefaultHasher;
use std::hash::{Hash, Hasher};

use black_splat::trajectory::{cache_key, cache_path, hash_text, JointTrack, TrajectoryClip};

fn jt(name: &str, dofs: usize) -> JointTrack {
    JointTrack { name: name.to_string(), dofs }
}

fn bits(values: &[f64]) -> Vec<u64> {
    values.iter().map(|v| v.to_bits()).collect()
}

#[test]
fn retarget_reorders_and_drops_unmatched() {
    let clip = TrajectoryClip {
        joints: vec![jt("a", 1), jt("b", 1), jt("free_base", 7), jt("c", 1)],
        dt: (1.0f32 / 30.0).to_bits(),
        frames: vec![bits(&[1.0, 2.0, 0.0, 0.0, 0.0, 1.0, 0.0, 0.0, 0.0, 3.0])],
    };
    // Target only has b, c (reordered), and a joint the clip never
    // mentions at all ("d") -- and free_base with a mismatched dof
    // count that should be dropped rather than misread.
    let target = vec![jt("c", 1), jt("b", 1), jt("d", 1), jt("free_base", 4)];
    let retargeted = clip.retarget(&target);
    assert_eq!(
        retargeted.joints.iter().map(|j| j.name.as_str()).collect::<Vec<_>>(),
        vec!["c", "b"]
    );
    assert_eq!(retargeted.frames[0], bits(&[3.0, 2.0]));
    // free_base is 7-dof in the source but the target's version is a
    // mismatched 4-dof, so it's dropped from the matched set above --
    // it should surface as unmatched instead of vanishing entirely.
    assert_eq!(
        retargeted.unmatched.iter().map(|j| j.name.as_str()).collect::<Vec<_>>(),
        vec!["free_base"]
    );
    assert_eq!(
        retargeted.unmatched_frames[0],
        bits(&[0.0, 0.0, 0.0, 1.0, 0.0, 0.0, 0.0])
    );
}

#[test]
fn retargeting_onto_its_own_joints_keeps_the_clip() {
    let clip = TrajectoryClip {
        joints: vec![jt("base", 7), jt("knee", 1), jt("hip", 4)],
        dt: 0.02f32.to_bits(),
        frames: vec![
            bits(&[1.0, 2.0, 3.0, 4.0, 5.0, 6.0, 7.0, 8.0, 9.0, 10.0, 11.0, 12.0]),
            bits(&[12.0, 11.0, 10.0, 9.0, 8.0, 7.0, 6.0, 5.0, 4.0, 3.0, 2.0, 1.0]),
        ],
    };
    let same = vec![jt("base", 7), jt("knee", 1), jt("hip", 4)];
    let r = clip.retarget(&same);
    assert_eq!(r.dt, 0.02f32.to_bits());
    assert_eq!(r.frame_count(), 2);
    assert_eq!(r.frames, clip.frames);
    assert!(r.unmatched.is_empty());
    assert_eq!(r.unmatched_frames, vec![Vec::<u64>::new(), Vec::new()]);
    assert_eq!(clip.joint_offsets(), vec![(0, 7), (7, 1), (8, 4)]);
}

#[test]
fn the_first_joint_of_a_name_decides() {
    let clip = TrajectoryClip {
        joints: vec![jt("a", 2), jt("a", 1)],
        dt: 0,
        frames: vec![bits(&[1.0, 2.0, 3.0])],
    };
    // The second "a" has the right width, but the first one is looked at.
    assert!(clip.retarget(&[jt("a", 1)]).joints.is_empty());
    assert_eq!(clip.retarget(&[jt("a", 2)]).frames[0], bits(&[1.0, 2.0]));
}

#[test]
fn keys_are_hashes_of_path_contents_and_joints() {
    let joints = vec![jt("knee", 1), jt("base", 7)];
    let mut hasher = DefaultHasher::new();
    "walk.json".hash(&mut hasher);
    "{}".hash(&mut hasher);
    for j in &joints {
        j.name.hash(&mut hasher);
        (j.dofs as u64).hash(&mut hasher);
    }
    let key = cache_key("walk.json", "{}", &joints);
    assert_eq!(key, format!("{:016x}", hasher.finish()));
    assert_ne!(key, cache_key("walk.json", "{ }", &joints));
    assert_ne!(key, cache_key("walk.json", "{}", &[jt("base", 7), jt("knee", 1)]));
    assert_ne!(key, cache_key("walk.jso", "n{}", &joints));
}

#[test]
fn hashes_are_written_with_leading_zeros() {
    assert_eq!(hash_text(0), "0000000000000000");
    assert_eq!(hash_text(0xbeef), "000000000000beef");
    assert_eq!(hash_text(u64::MAX), "ffffffffffffffff");
    assert_eq!(cache_path("00ff"), "resources/trajectory_cache/00ff.json");
}

#[test]
fn short_frames_are_told_apart() {
    let clip = |frame: &[f64]| TrajectoryClip {
        joints: vec![jt("a", 1), jt("b", 2), jt("c", 1)],
        dt: 0,
        frames: vec![bits(&[1.0, 2.0, 3.0, 4.0]), bits(frame)],
    };
    // The last joint is not needed, so its value may be missing.
    let kept = clip(&[5.0, 6.0, 7.0]).try_retarget(&[jt("b", 2)]).unwrap();
    assert_eq!(kept.frames, vec![bits(&[2.0, 3.0]), bits(&[6.0, 7.0])]);
    assert!(clip(&[5.0, 6.0]).try_retarget(&[jt("b", 2)]).is_none());
    assert!(clip(&[5.0, 6.0]).try_retarget(&[jt("a", 1)]).is_some());
    // A free joint that drives nothing needs its values too.
    let free = |frame: &[f64]| TrajectoryClip {
        joints: vec![jt("a", 1), jt("base", 7)],
        dt: 0,
        frames: vec![bits(frame)],
    };
    assert!(free(&[0.0; 8]).try_retarget(&[jt("a", 1)]).is_some());
    assert!(free(&[0.0; 7]).try_retarget(&[jt("a", 1)]).is_none());
    // Widths that cannot be added up.
    let wide = TrajectoryClip {
        joints: vec![jt("a", usize::MAX), jt("b", 1)],
        dt: 0,
        frames: Vec::new(),
    };
    assert!(wide.try_retarget(&[]).is_none());
}

#[test]
fn retargeting_twice_is_retargeting_once_over() {
    let clip = TrajectoryClip {
        joints: vec![jt("a", 1), jt("base", 7), jt("b", 2)],
        dt: 7,
        frames: vec![(0..10).collect(), (10..20).collect()],
    };
    for target in [
        vec![jt("b", 2), jt("x", 1), jt("base", 7), jt("a", 3)],
        vec![jt("base", 7), jt("b", 2), jt("base", 7)],
    ] {
        let once = clip.retarget(&target);
        let again = TrajectoryClip {
            joints: once.joints.iter().map(|j| jt(&j.name, j.dofs)).collect(),
            dt: once.dt,
            frames: once.frames.clone(),
        };
        let twice = again.retarget(&target);
        let pairs = |list: &[JointTrack]| -> Vec<(String, usize)> {
            list.iter().map(|j| (j.name.clone(), j.dofs)).collect()
        };
        assert_eq!(pairs(&twice.joints), pairs(&once.joints));
        assert_eq!((twice.dt, &twice.frames), (once.dt, &once.frames));
        // Only what the model names twice can be left over.
        assert_eq!(twice.unmatched.len(), usize::from(target.len() == 3));
    }
}
