use core3d::builder::{build_index_map, build_skeleton, derive_parents, remap_children, SceneJoint, SkeletonError};
use core3d::math::JointTransform;
use core3d::mesh::{build_mesh, MeshError, PrimitiveData, MAX_JOINTS};
use core3d::skeleton::{Joint, Skeleton};
use core3d::texture::{swizzle, Texture, TextureError, IDX_A, IDX_B, IDX_G, IDX_R};
use glam::{Mat4, Quat, Vec2, Vec3};

#[test]
fn it_works() {
    assert_eq!(2 + 2, 4);
}

#[test]
fn swizzle_known_indices() {
    assert_eq!(swizzle(0, 0, 8), 0);
    assert_eq!(swizzle(1, 0, 8), 1);
    assert_eq!(swizzle(0, 1, 8), 2);
    assert_eq!(swizzle(2, 0, 8), 4);
    assert_eq!(swizzle(0, 2, 8), 8);
    assert_eq!(swizzle(4, 0, 8), 16);
    assert_eq!(swizzle(0, 4, 8), 32);
    assert_eq!(swizzle(7, 7, 8), 63);
    assert_eq!(swizzle(8, 0, 16), 64);
    assert_eq!(swizzle(0, 8, 16), 128);
    assert_eq!(swizzle(9, 9, 16), 192 + 3);
}

#[test]
fn swizzle_is_a_bijection_on_a_16_by_16_image() {
    let mut seen = vec![false; 256];
    for x in 0..16u32 {
        for y in 0..16u32 {
            let i = swizzle(x, y, 16);
            assert!(i < 256);
            assert!(!seen[i]);
            seen[i] = true;
            assert_eq!(swizzle(x, y, 16), i);
            assert_eq!(swizzle(x, y, 16), swizzle(x, y, 16));
        }
    }
    assert!(seen.iter().all(|s| *s));
}

#[test]
fn swizzle_tile_offsets_cover_one_tile() {
    let mut seen = vec![false; 64];
    for x in 0..8u32 {
        for y in 0..8u32 {
            seen[swizzle(x, y, 64)] = true;
        }
    }
    assert!(seen.iter().all(|s| *s));
}

fn gradient(width: usize, height: usize, channels: usize) -> Vec<u8> {
    let mut pixels = Vec::new();
    for y in 0..height {
        for x in 0..width {
            pixels.push(x as u8);
            pixels.push(y as u8);
            pixels.push((x + y) as u8);
            if channels == 4 {
                pixels.push(200);
            }
        }
    }
    pixels
}

#[test]
fn repack_rgb_fills_alpha_and_reverses_channels() {
    let pixels = gradient(8, 8, 3);
    let tex = Texture::from_pixels(8, 8, &pixels, 3, false).unwrap();
    assert_eq!(tex.width, 8);
    assert_eq!(tex.height, 8);
    assert_eq!(tex.data.len(), 8 * 8 * 4);
    let d = swizzle(3, 5, 8) * 4;
    assert_eq!(tex.data[d + IDX_R], 3);
    assert_eq!(tex.data[d + IDX_G], 5);
    assert_eq!(tex.data[d + IDX_B], 8);
    assert_eq!(tex.data[d + IDX_A], 255);
    assert_eq!(&tex.data[0..4], &[255, 0, 0, 0]);
}

#[test]
fn repack_rgba_keeps_alpha() {
    let pixels = gradient(16, 8, 4);
    let tex = Texture::from_pixels(16, 8, &pixels, 4, false).unwrap();
    let d = swizzle(12, 6, 16) * 4;
    assert_eq!(&tex.data[d..d + 4], &[200, 18, 6, 12]);
}

#[test]
fn repack_flipped_reads_rows_bottom_up() {
    let pixels = gradient(8, 16, 3);
    let tex = Texture::from_pixels(8, 16, &pixels, 3, true).unwrap();
    let d = swizzle(2, 0, 8) * 4;
    assert_eq!(tex.data[d + IDX_R], 2);
    assert_eq!(tex.data[d + IDX_G], 15);
    assert_eq!(tex.data[d + IDX_B], 17);
}

#[test]
fn repack_rejects_unaligned_and_short_images() {
    let pixels = gradient(12, 8, 3);
    assert_eq!(Texture::from_pixels(12, 8, &pixels, 3, false).err(), Some(TextureError::UnalignedSize));
    assert_eq!(Texture::from_pixels(0, 8, &[].to_vec(), 3, false).err(), Some(TextureError::UnalignedSize));
    let short = gradient(8, 4, 3);
    assert_eq!(Texture::from_pixels(8, 8, &short, 3, false).err(), Some(TextureError::PixelCountMismatch));
}

fn scene_joint(node: u16, name: &str, children: Vec<u16>, pos: Vec3) -> SceneJoint {
    SceneJoint {
        node,
        name: name.to_string(),
        base_transform: JointTransform { pos, rot: Quat::IDENTITY, scale: Vec3::ONE },
        inverse_bind_matrix: Mat4::IDENTITY,
        children,
    }
}

#[test]
fn index_map_takes_last_position() {
    let map = build_index_map(&vec![4, 2, 4], 6);
    assert_eq!(map, vec![None, None, Some(1), None, Some(2), None]);
}

#[test]
fn remap_children_through_map() {
    let map = vec![None, Some(0), Some(2), Some(1)];
    assert_eq!(remap_children(&vec![3, 2], &map), Some(vec![1, 2]));
    assert_eq!(remap_children(&vec![3, 0], &map), None);
    assert_eq!(remap_children(&vec![7], &map), None);
}

#[test]
fn parents_come_from_the_last_lister() {
    let parents = derive_parents(&vec![vec![1, 2], vec![3], vec![], vec![]]);
    assert_eq!(parents, vec![None, Some(0), Some(0), Some(1)]);
    let parents = derive_parents(&vec![vec![2], vec![2], vec![]]);
    assert_eq!(parents, vec![None, None, Some(1)]);
}

#[test]
fn build_skeleton_remaps_scene_indices() {
    // Scene nodes 5 (root), 3 and 7; node 5 lists 3 and 7, node 3 lists nothing.
    let scene = vec![
        scene_joint(5, "root", vec![3, 7], Vec3::ZERO),
        scene_joint(3, "arm", vec![], Vec3::Y),
        scene_joint(7, "leg", vec![], Vec3::X),
    ];
    let (skel, map) = build_skeleton(&scene, 8).unwrap();
    assert_eq!(map, vec![None, None, None, Some(1), None, Some(0), None, Some(2)]);
    assert_eq!(skel.joints.len(), 3);
    assert_eq!(skel.joints[0].children, vec![1, 2]);
    assert_eq!(skel.joints[0].parent, None);
    assert_eq!(skel.joints[1].parent, Some(0));
    assert_eq!(skel.joints[2].parent, Some(0));
    assert_eq!(skel.joints[1].name, "arm");
    assert!(skel.is_well_ordered());
    for (i, j) in skel.joints.iter().enumerate() {
        if let Some(p) = j.parent {
            assert!((p as usize) < i);
            assert!(skel.joints[p as usize].children.contains(&(i as u16)));
        }
    }
}

#[test]
fn build_skeleton_without_skin_gives_one_default_joint() {
    let (skel, map) = build_skeleton(&Vec::new(), 2).unwrap();
    assert_eq!(map, vec![None, None]);
    assert_eq!(skel.joints.len(), 1);
    assert!(skel.joints[0].parent.is_none());
    assert!(skel.joints[0].children.is_empty());
    assert_eq!(skel.joints[0].name, "");
    assert_eq!(skel.joints[0].base_transform.scale, Vec3::ONE);
    assert_eq!(skel.joints[0].inverse_bind_matrix, Mat4::IDENTITY);
}

#[test]
fn build_skeleton_errors() {
    let scene = vec![scene_joint(9, "a", vec![], Vec3::ZERO)];
    assert_eq!(build_skeleton(&scene, 4).err(), Some(SkeletonError::NodeOutOfRange));
    let scene = vec![scene_joint(0, "a", vec![2], Vec3::ZERO)];
    assert_eq!(build_skeleton(&scene, 4).err(), Some(SkeletonError::ChildNotAJoint));
    let many: Vec<SceneJoint> = (0..256).map(|i| scene_joint(i, "j", vec![], Vec3::ZERO)).collect();
    assert_eq!(build_skeleton(&many, 256).err(), Some(SkeletonError::TooManyJoints));
}

#[test]
fn build_skeleton_rejects_child_listed_before_its_parent() {
    // A valid tree, but the child node comes first in the skin.
    let scene = vec![
        scene_joint(1, "child", vec![], Vec3::Y),
        scene_joint(0, "root", vec![1], Vec3::ZERO),
    ];
    assert_eq!(build_skeleton(&scene, 2).err(), Some(SkeletonError::NotParentFirst));
    // Two joints list the same child.
    let scene = vec![
        scene_joint(0, "root", vec![2], Vec3::ZERO),
        scene_joint(1, "other", vec![2], Vec3::ZERO),
        scene_joint(2, "child", vec![], Vec3::Y),
    ];
    assert_eq!(build_skeleton(&scene, 3).err(), Some(SkeletonError::NotParentFirst));
}

#[test]
fn build_skeleton_accepts_several_roots() {
    let scene = vec![
        scene_joint(0, "a", vec![2], Vec3::ZERO),
        scene_joint(1, "b", vec![], Vec3::ZERO),
        scene_joint(2, "c", vec![], Vec3::Y),
    ];
    let (skel, _) = build_skeleton(&scene, 3).unwrap();
    assert_eq!(skel.joints[0].parent, None);
    assert_eq!(skel.joints[1].parent, None);
    assert_eq!(skel.joints[2].parent, Some(0));
    assert!(skel.is_well_ordered());
}

fn two_joint_skeleton(child_ibm: Mat4) -> Skeleton {
    let root = Joint {
        name: "root".to_string(),
        base_transform: JointTransform { pos: Vec3::ZERO, rot: Quat::IDENTITY, scale: Vec3::ONE },
        inverse_bind_matrix: Mat4::IDENTITY,
        children: vec![1],
        parent: None,
    };
    let child = Joint {
        name: "child".to_string(),
        base_transform: JointTransform { pos: Vec3::new(0.0, 1.0, 0.0), rot: Quat::IDENTITY, scale: Vec3::ONE },
        inverse_bind_matrix: child_ibm,
        children: vec![],
        parent: Some(0),
    };
    Skeleton { joints: vec![root, child] }
}

#[test]
fn two_joint_rest_pose_resolves_child_translation() {
    let ibm = Mat4::from_translation(Vec3::new(0.0, -1.0, 0.0));
    let skel = two_joint_skeleton(ibm);
    assert!(skel.is_well_ordered());
    let mats = skel.apply_pose_to_joints(&skel.pose()).unwrap();
    assert_eq!(mats.len(), 2);
    assert_eq!(mats[0], Mat4::IDENTITY);
    let model = Mat4::from_translation(Vec3::new(0.0, 1.0, 0.0));
    assert_eq!(mats[1], model * ibm);
    assert_eq!(mats[1], Mat4::IDENTITY);
    let unbound = two_joint_skeleton(Mat4::IDENTITY);
    let mats = unbound.apply_pose_to_joints(&unbound.pose()).unwrap();
    assert_eq!(mats[1].w_axis.truncate(), Vec3::new(0.0, 1.0, 0.0));
}

#[test]
fn pose_length_mismatch_is_none() {
    let skel = two_joint_skeleton(Mat4::IDENTITY);
    let pose = vec![skel.joints[0].base_transform];
    assert!(skel.apply_pose_to_joints(&pose).is_none());
}

#[test]
fn misordered_skeleton_is_detected() {
    let mut skel = two_joint_skeleton(Mat4::IDENTITY);
    skel.joints.swap(0, 1);
    assert!(!skel.is_well_ordered());
    let mut skel = two_joint_skeleton(Mat4::IDENTITY);
    skel.joints[0].children.clear();
    assert!(!skel.is_well_ordered());
}

#[test]
fn find_joint_by_name() {
    let skel = two_joint_skeleton(Mat4::IDENTITY);
    assert_eq!(skel.find_joint("child"), Some(1));
    assert_eq!(skel.find_joint("root"), Some(0));
    assert_eq!(skel.find_joint("tail"), None);
}

#[test]
fn joint_matrix_composes_scale_rotation_translation() {
    let t = JointTransform { pos: Vec3::new(1.0, 2.0, 3.0), rot: Quat::IDENTITY, scale: Vec3::splat(2.0) };
    let m = t.matrix();
    assert_eq!(m, Mat4::from_scale_rotation_translation(Vec3::splat(2.0), Quat::IDENTITY, Vec3::new(1.0, 2.0, 3.0)));
    assert_ne!(m, Mat4::IDENTITY);
}

fn triangle() -> PrimitiveData {
    PrimitiveData {
        positions: Some(vec![Vec3::ZERO, Vec3::X, Vec3::Y]),
        normals: None,
        tex_coords: None,
        joints: None,
        weights: None,
        indices: Some(vec![0, 1, 2]),
        texture: None,
    }
}

#[test]
fn mesh_without_normals_gets_zero_normals() {
    let mesh = build_mesh(&triangle()).unwrap();
    assert_eq!(mesh.verts.len(), 3);
    for v in &mesh.verts {
        assert_eq!(v.norm, Vec3::ZERO);
        assert_eq!(v.tc, Vec2::ZERO);
        assert_eq!(v.joints, [0, 0, 0]);
        assert_eq!(v.weights, Vec3::new(1.0, 0.0, 0.0));
    }
    assert_eq!(mesh.verts[1].pos, Vec3::X);
    assert_eq!(mesh.inds, vec![0, 1, 2]);
    assert_eq!(mesh.texture, 0);
}

#[test]
fn mesh_with_all_attributes() {
    let mut p = triangle();
    p.normals = Some(vec![Vec3::Z; 3]);
    p.tex_coords = Some(vec![Vec2::ONE; 3]);
    p.joints = Some(vec![[1, 2, 18]; 3]);
    p.weights = Some(vec![Vec3::new(2.0, 0.0, 0.0); 3]);
    p.texture = Some(4);
    let mesh = build_mesh(&p).unwrap();
    assert_eq!(mesh.verts[2].norm, Vec3::Z);
    assert_eq!(mesh.verts[2].tc, Vec2::ONE);
    assert_eq!(mesh.verts[2].joints, [1, 2, 18]);
    assert_eq!(mesh.verts[2].weights, Vec3::X);
    assert_eq!(mesh.texture, 4);
}

#[test]
fn mesh_errors() {
    let mut p = triangle();
    p.positions = None;
    assert_eq!(build_mesh(&p).err(), Some(MeshError::MissingPositions));
    let mut p = triangle();
    p.positions = Some(vec![Vec3::ZERO; 65537]);
    p.indices = None;
    assert_eq!(build_mesh(&p).err(), Some(MeshError::TooManyVertices));
    p.positions = Some(vec![Vec3::ZERO; 65536]);
    assert_eq!(build_mesh(&p).unwrap().verts.len(), 65536);
    let mut p = triangle();
    p.normals = Some(vec![Vec3::Z; 2]);
    assert_eq!(build_mesh(&p).err(), Some(MeshError::AttributeCountMismatch));
    let mut p = triangle();
    p.joints = Some(vec![[0, 0, MAX_JOINTS]; 3]);
    assert_eq!(build_mesh(&p).err(), Some(MeshError::JointOutOfRange));
    let mut p = triangle();
    p.indices = Some(vec![0, 1, 65536]);
    assert_eq!(build_mesh(&p).err(), Some(MeshError::IndexTooLarge));
    let mut p = triangle();
    p.indices = Some(vec![0, 1, 65535]);
    assert_eq!(build_mesh(&p).unwrap().inds, vec![0, 1, 65535]);
}

#[test]
fn channel_targets_resolve_through_the_skeleton_map() {
    let map = build_index_map(&vec![2, 0], 3);
    assert_eq!(core3d::builder::joint_for_node(&map, 2), Some(0));
    assert_eq!(core3d::builder::joint_for_node(&map, 0), Some(1));
    assert_eq!(core3d::builder::joint_for_node(&map, 1), None);
    assert_eq!(core3d::builder::joint_for_node(&map, 5), None);
}

#[test]
fn default_joint_transform_has_zero_scale() {
    let t = JointTransform::default();
    assert_eq!(t.pos, Vec3::ZERO);
    assert_eq!(t.rot, Quat::IDENTITY);
    assert_eq!(t.scale, Vec3::ZERO);
}
