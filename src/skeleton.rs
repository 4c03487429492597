//! The joint hierarchy of a skinned mesh and the pose resolver that turns
//! per-joint local transforms into model-space skinning matrices.
use vstd::prelude::*;
use glam::Mat4;
use crate::math::{JointTransform, identity_matrix, mat_mul, mat_product, rest_transform, transform_matrix};

verus! {

/// One node of the joint hierarchy.
#[derive(Clone, Debug)]
pub struct Joint {
    pub name: String,
    /// In the joint's local space, relative to its parent
    pub base_transform: JointTransform,
    pub inverse_bind_matrix: Mat4,
    /// Indices into the skeleton's joints
    pub children: Vec<u16>,
    pub parent: Option<u8>,
}

impl Default for Joint {
    /// A root joint with no name, no children, the identity as inverse-bind
    /// matrix and no translation, no rotation and unit scale as base
    /// transform.
    fn default() -> (r: Joint)
        ensures
            r.name@.len() == 0,
            r.children@.len() == 0,
            r.parent is None,
    {
        Joint {
            name: String::new(),
            base_transform: rest_transform(),
            inverse_bind_matrix: identity_matrix(),
            children: Vec::new(),
            parent: None,
        }
    }
}

/// A collection of up to 255 joints; the first one is the root.
#[derive(Clone, Debug)]
pub struct Skeleton {
    pub joints: Vec<Joint>,
}

/// The parent-before-child ordering that the pose resolver needs: every
/// child that a joint lists comes after it and names it as its parent, and
/// every joint with a parent comes after that parent and is listed by it.
pub open spec fn hierarchy_ordered(joints: Seq<Joint>) -> bool {
    &&& forall|j: int, k: int| 0 <= j < joints.len() && 0 <= k < joints[j].children@.len()
        ==> {
            let c = #[trigger] joints[j].children@[k] as int;
            &&& j < c < joints.len()
            &&& joints[c].parent is Some
            &&& joints[c].parent->Some_0 as int == j
        }
    &&& forall|i: int| 0 <= i < joints.len() && (#[trigger] joints[i].parent) is Some
        ==> {
            let p = joints[i].parent->Some_0 as int;
            &&& p < i
            &&& exists|k: int| 0 <= k < joints[p].children@.len() && #[trigger] joints[p].children@[k] as int == i
        }
}

/// Model-space transform of joint `i` under `pose`: its local matrix,
/// left-multiplied by its parent's model-space transform when it has one.
pub open spec fn model_transform(joints: Seq<Joint>, pose: Seq<JointTransform>, i: nat) -> Mat4
    decreases i,
{
    match joints[i as int].parent {
        Some(p) if (p as nat) < i => mat_product(
            model_transform(joints, pose, p as nat),
            transform_matrix(pose[i as int]),
        ),
        _ => transform_matrix(pose[i as int]),
    }
}

/// Skinning matrix of joint `i`: its model-space transform times its
/// inverse-bind matrix.
pub open spec fn skinning_matrix(joints: Seq<Joint>, pose: Seq<JointTransform>, i: nat) -> Mat4 {
    mat_product(model_transform(joints, pose, i), joints[i as int].inverse_bind_matrix)
}

impl Skeleton {
    /// The rest pose: the base transform of every joint.
    #[must_use]
    pub fn pose(&self) -> (r: Vec<JointTransform>)
        ensures
            r@.len() == self.joints@.len(),
            forall|i: int| 0 <= i < r@.len() ==> #[trigger] r@[i] == self.joints@[i].base_transform,
    {
        let mut r: Vec<JointTransform> = Vec::new();
        let mut i: usize = 0;
        while i < self.joints.len()
            invariant
                i <= self.joints@.len(),
                r@.len() == i,
                forall|k: int| 0 <= k < i ==> #[trigger] r@[k] == self.joints@[k].base_transform,
            decreases self.joints@.len() - i,
        {
            r.push(self.joints[i].base_transform);
            i = i + 1;
        }
        r
    }

    /// Returns the index of the first joint with the given name.
    #[must_use]
    pub fn find_joint(&self, joint_name: &str) -> (r: Option<usize>)
        ensures
            r is None ==> forall|i: int| 0 <= i < self.joints@.len() ==> #[trigger] self.joints@[i].name@ != joint_name@,
            r is Some ==> {
                let i = r->Some_0 as int;
                &&& 0 <= i < self.joints@.len()
                &&& self.joints@[i].name@ == joint_name@
                &&& forall|k: int| 0 <= k < i ==> #[trigger] self.joints@[k].name@ != joint_name@
            },
    {
        let target: String = joint_name.to_owned();
        let mut i: usize = 0;
        while i < self.joints.len()
            invariant
                i <= self.joints@.len(),
                target@ == joint_name@,
                forall|k: int| 0 <= k < i ==> #[trigger] self.joints@[k].name@ != joint_name@,
            decreases self.joints@.len() - i,
        {
            if self.joints[i].name == target {
                return Some(i);
            }
            i = i + 1;
        }
        None
    }

    /// Whether the joints are ordered parents first, as the pose resolver
    /// needs.
    pub fn is_well_ordered(&self) -> (r: bool)
        ensures
            r == hierarchy_ordered(self.joints@),
    {
        let n: usize = self.joints.len();
        let mut j: usize = 0;
        while j < n
            invariant
                n == self.joints@.len(),
                j <= n,
                forall|j2: int, k: int| 0 <= j2 < j && 0 <= k < self.joints@[j2].children@.len()
                    ==> {
                        let c = #[trigger] self.joints@[j2].children@[k] as int;
                        &&& j2 < c < n
                        &&& self.joints@[c].parent is Some
                        &&& self.joints@[c].parent->Some_0 as int == j2
                    },
            decreases n - j,
        {
            let children = &self.joints[j].children;
            let mut k: usize = 0;
            while k < children.len()
                invariant
                    n == self.joints@.len(),
                    j < n,
                    children == self.joints@[j as int].children,
                    k <= children@.len(),
                    forall|j2: int, k2: int| 0 <= j2 < j && 0 <= k2 < self.joints@[j2].children@.len()
                        ==> {
                            let c = #[trigger] self.joints@[j2].children@[k2] as int;
                            &&& j2 < c < n
                            &&& self.joints@[c].parent is Some
                            &&& self.joints@[c].parent->Some_0 as int == j2
                        },
                    forall|k2: int| 0 <= k2 < k
                        ==> {
                            let c = #[trigger] children@[k2] as int;
                            &&& j < c < n
                            &&& self.joints@[c].parent is Some
                            &&& self.joints@[c].parent->Some_0 as int == j
                        },
                decreases children@.len() - k,
            {
                let c: usize = children[k] as usize;
                assert(self.joints@[j as int].children@[k as int] == children@[k as int]);
                if c <= j || c >= n {
                    return false;
                }
                match self.joints[c].parent {
                    Some(p) => {
                        if p as usize != j {
                            return false;
                        }
                    },
                    None => {
                        return false;
                    },
                }
                k = k + 1;
            }
            j = j + 1;
        }
        let mut i: usize = 0;
        while i < n
            invariant
                n == self.joints@.len(),
                i <= n,
                forall|j2: int, k: int| 0 <= j2 < n && 0 <= k < self.joints@[j2].children@.len()
                    ==> {
                        let c = #[trigger] self.joints@[j2].children@[k] as int;
                        &&& j2 < c < n
                        &&& self.joints@[c].parent is Some
                        &&& self.joints@[c].parent->Some_0 as int == j2
                    },
                forall|i2: int| 0 <= i2 < i && (#[trigger] self.joints@[i2].parent) is Some
                    ==> {
                        let p = self.joints@[i2].parent->Some_0 as int;
                        &&& p < i2
                        &&& exists|k: int| 0 <= k < self.joints@[p].children@.len() && #[trigger] self.joints@[p].children@[k] as int == i2
                    },
            decreases n - i,
        {
            match self.joints[i].parent {
                Some(p) => {
                    let p: usize = p as usize;
                    if p >= i {
                        return false;
                    }
                    let children = &self.joints[p].children;
                    let mut k: usize = 0;
                    let mut found: bool = false;
                    while k < children.len()
                        invariant
                            children == self.joints@[p as int].children,
                            k <= children@.len(),
                            found == exists|k2: int| 0 <= k2 < k && #[trigger] children@[k2] as int == i,
                        decreases children@.len() - k,
                    {
                        if children[k] as usize == i {
                            found = true;
                        }
                        k = k + 1;
                    }
                    if !found {
                        return false;
                    }
                },
                None => {},
            }
            i = i + 1;
        }
        true
    }

    /// Computes the skinning matrix of every joint under `pose`, one local
    /// transform per joint. Returns `None` when the pose does not have one
    /// entry per joint.
    #[must_use]
    pub fn apply_pose_to_joints(&self, pose: &[JointTransform]) -> (r: Option<Vec<Mat4>>)
        requires
            hierarchy_ordered(self.joints@),
        ensures
            pose@.len() != self.joints@.len() ==> r is None,
            pose@.len() == self.joints@.len() ==> {
                &&& r is Some
                &&& r->Some_0@.len() == self.joints@.len()
                &&& forall|i: int| 0 <= i < self.joints@.len()
                    ==> #[trigger] r->Some_0@[i] == skinning_matrix(self.joints@, pose@, i as nat)
            },
    {
        let n: usize = self.joints.len();
        if pose.len() != n {
            return None;
        }
        // Model-space transform of each joint's parent, filled in as the
        // parent is reached.
        let mut parent_transforms: Vec<Option<Mat4>> = Vec::new();
        let mut k: usize = 0;
        while k < n
            invariant
                k <= n,
                parent_transforms@.len() == k,
            decreases n - k,
        {
            parent_transforms.push(None);
            k = k + 1;
        }
        let mut transforms: Vec<Mat4> = Vec::new();
        let mut i: usize = 0;
        while i < n
            invariant
                n == self.joints@.len(),
                n == pose@.len(),
                hierarchy_ordered(self.joints@),
                i <= n,
                parent_transforms@.len() == n,
                transforms@.len() == i,
                forall|i2: int| 0 <= i2 < i ==> #[trigger] transforms@[i2] == skinning_matrix(self.joints@, pose@, i2 as nat),
                forall|c: int| i <= c < n && (#[trigger] self.joints@[c].parent) is Some
                    && (self.joints@[c].parent->Some_0 as int) < i
                    ==> parent_transforms@[c] == Some(model_transform(self.joints@, pose@, self.joints@[c].parent->Some_0 as nat)),
            decreases n - i,
        {
            let joint = &self.joints[i];
            let local: Mat4 = pose[i].matrix();
            let current: Mat4 = match joint.parent {
                None => local,
                Some(_) => {
                    match parent_transforms[i] {
                        Some(m) => mat_mul(m, local),
                        None => local,
                    }
                },
            };
            assert(current == model_transform(self.joints@, pose@, i as nat));
            let ghost before = parent_transforms@;
            let children = &joint.children;
            let mut k: usize = 0;
            while k < children.len()
                invariant
                    n == self.joints@.len(),
                    hierarchy_ordered(self.joints@),
                    i < n,
                    children == self.joints@[i as int].children,
                    k <= children@.len(),
                    parent_transforms@.len() == n,
                    forall|k2: int| 0 <= k2 < k ==> parent_transforms@[#[trigger] children@[k2] as int] == Some(current),
                    forall|c: int| 0 <= c < n && !(exists|k2: int| 0 <= k2 < k && #[trigger] children@[k2] as int == c)
                        ==> parent_transforms@[c] == before[c],
                decreases children@.len() - k,
            {
                let c: usize = children[k] as usize;
                assert(self.joints@[i as int].children@[k as int] == children@[k as int]);
                parent_transforms.set(c, Some(current));
                k = k + 1;
            }
            assert forall|c: int| i + 1 <= c < n && (#[trigger] self.joints@[c].parent) is Some
                && (self.joints@[c].parent->Some_0 as int) < i + 1
                implies parent_transforms@[c] == Some(model_transform(self.joints@, pose@, self.joints@[c].parent->Some_0 as nat)) by {
                let p = self.joints@[c].parent->Some_0 as int;
                if p == i {
                    let k2 = choose|k2: int| 0 <= k2 < self.joints@[p].children@.len() && #[trigger] self.joints@[p].children@[k2] as int == c;
                    assert(parent_transforms@[children@[k2] as int] == Some(current));
                } else {
                    if exists|k2: int| 0 <= k2 < children@.len() && #[trigger] children@[k2] as int == c {
                        let k2 = choose|k2: int| 0 <= k2 < children@.len() && #[trigger] children@[k2] as int == c;
                        assert(self.joints@[i as int].children@[k2] == children@[k2]);
                    }
                    assert(parent_transforms@[c] == before[c]);
                }
            }
            transforms.push(mat_mul(current, joint.inverse_bind_matrix));
            i = i + 1;
        }
        Some(transforms)
    }
}

} // verus!
