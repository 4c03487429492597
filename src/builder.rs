//! Construction of a skeleton from the joints of a scene's skin: the scene
//! numbers its nodes in its own index space, the skeleton numbers its joints
//! densely in the order the skin lists them.
use vstd::prelude::*;
use glam::Mat4;
use crate::math::JointTransform;
use crate::skeleton::{Joint, Skeleton, hierarchy_ordered};

verus! {

/// The largest number of joints a skeleton can hold.
pub const MAX_SKELETON_JOINTS: usize = 255;

/// A joint as the scene declares it; `node` and `children` are scene node
/// indices.
pub struct SceneJoint {
    pub node: u16,
    pub name: String,
    pub base_transform: JointTransform,
    pub inverse_bind_matrix: Mat4,
    pub children: Vec<u16>,
}

/// Why a skin could not be turned into a skeleton.
#[derive(Debug, Clone, Copy, PartialEq, Eq, Structural)]
pub enum SkeletonError {
    /// The skin lists more than 255 joints.
    TooManyJoints,
    /// A joint's node index is not below the scene's node count.
    NodeOutOfRange,
    /// A joint lists a child node that is not one of the skin's joints.
    ChildNotAJoint,
    /// The child lists do not form a tree listed parents first: a joint lists
    /// a child that comes before it, or two lists share a child.
    NotParentFirst,
}

/// Skeleton index of scene node `k`: the last position at which `nodes`
/// holds `k`, or `None` when it holds it nowhere.
pub open spec fn joint_index_of(nodes: Seq<u16>, k: int) -> Option<u8>
    decreases nodes.len(),
{
    if nodes.len() == 0 {
        None
    } else if nodes.last() as int == k {
        Some((nodes.len() - 1) as u8)
    } else {
        joint_index_of(nodes.drop_last(), k)
    }
}

/// Whether `s` holds `c`.
pub open spec fn holds(s: Seq<u16>, c: int) -> bool {
    exists|k: int| 0 <= k < s.len() && #[trigger] s[k] as int == c
}

/// The parent that the single reverse pass derives for joint `c` from the
/// first `j` child lists: the last of them that holds `c`.
pub open spec fn last_lister(children: Seq<Seq<u16>>, c: int, j: int) -> Option<u8>
    decreases j,
{
    if j <= 0 {
        None
    } else if holds(children[j - 1], c) {
        Some((j - 1) as u8)
    } else {
        last_lister(children, c, j - 1)
    }
}

/// The child lists form a tree listed parents first: each child index is
/// larger than the index of the joint that lists it, below the joint count,
/// and no joint is listed twice.
pub open spec fn tree_parent_first(children: Seq<Seq<u16>>) -> bool {
    &&& forall|j: int, k: int| 0 <= j < children.len() && 0 <= k < children[j].len()
        ==> j < #[trigger] children[j][k] < children.len()
    &&& forall|j1: int, k1: int, j2: int, k2: int|
        0 <= j1 < children.len() && 0 <= k1 < children[j1].len()
        && 0 <= j2 < children.len() && 0 <= k2 < children[j2].len()
        && #[trigger] children[j1][k1] == #[trigger] children[j2][k2]
        ==> j1 == j2 && k1 == k2
}

/// Whether entry `k2` of list `j2` comes before entry `k` of list `j`.
pub open spec fn entry_before(j2: int, k2: int, j: int, k: int) -> bool {
    j2 < j || (j2 == j && k2 < k)
}

/// Whether the child lists form a tree listed parents first.
pub fn is_tree_parent_first(children: &Vec<Vec<u16>>) -> (r: bool)
    ensures
        r == tree_parent_first(children@.map_values(|l: Vec<u16>| l@)),
{
    let ghost l = children@.map_values(|l: Vec<u16>| l@);
    let n: usize = children.len();
    let mut seen: Vec<bool> = Vec::new();
    let mut c: usize = 0;
    while c < n
        invariant
            c <= n,
            seen@.len() == c,
            forall|c2: int| 0 <= c2 < c ==> !#[trigger] seen@[c2],
        decreases n - c,
    {
        seen.push(false);
        c = c + 1;
    }
    let mut j: usize = 0;
    while j < n
        invariant
            n == children@.len(),
            l == children@.map_values(|l: Vec<u16>| l@),
            j <= n,
            seen@.len() == n,
            forall|j2: int, k2: int| 0 <= j2 < j && 0 <= k2 < l[j2].len()
                ==> j2 < #[trigger] l[j2][k2] < n,
            forall|c2: int| 0 <= c2 < n ==> (#[trigger] seen@[c2] <==> exists|j2: int, k2: int|
                0 <= j2 < j && 0 <= k2 < l[j2].len() && #[trigger] l[j2][k2] as int == c2),
            forall|j1: int, k1: int, j2: int, k2: int|
                0 <= j1 < j && 0 <= k1 < l[j1].len() && 0 <= j2 < j && 0 <= k2 < l[j2].len()
                && #[trigger] l[j1][k1] == #[trigger] l[j2][k2]
                ==> j1 == j2 && k1 == k2,
        decreases n - j,
    {
        let list = &children[j];
        assert(l[j as int] == list@);
        let mut k: usize = 0;
        while k < list.len()
            invariant
                n == children@.len(),
                l == children@.map_values(|l: Vec<u16>| l@),
                j < n,
                list == children@[j as int],
                l[j as int] == list@,
                k <= list@.len(),
                seen@.len() == n,
                forall|j2: int, k2: int| 0 <= j2 <= j && 0 <= k2 < l[j2].len() && entry_before(j2, k2, j as int, k as int)
                    ==> j2 < #[trigger] l[j2][k2] < n,
                forall|c2: int| 0 <= c2 < n ==> (#[trigger] seen@[c2] <==> exists|j2: int, k2: int|
                    0 <= j2 <= j && 0 <= k2 < l[j2].len() && entry_before(j2, k2, j as int, k as int)
                    && #[trigger] l[j2][k2] as int == c2),
                forall|j1: int, k1: int, j2: int, k2: int|
                    0 <= j1 <= j && 0 <= k1 < l[j1].len() && 0 <= j2 <= j && 0 <= k2 < l[j2].len()
                    && entry_before(j1, k1, j as int, k as int) && entry_before(j2, k2, j as int, k as int)
                    && #[trigger] l[j1][k1] == #[trigger] l[j2][k2]
                    ==> j1 == j2 && k1 == k2,
            decreases list@.len() - k,
        {
            let c: usize = list[k] as usize;
            assert(l[j as int][k as int] == list@[k as int]);
            if c <= j || c >= n {
                return false;
            }
            if seen[c] {
                proof {
                    let (j2, k2) = choose|j2: int, k2: int|
                        0 <= j2 <= j && 0 <= k2 < l[j2].len() && entry_before(j2, k2, j as int, k as int)
                        && #[trigger] l[j2][k2] as int == c;
                    assert(l[j2][k2] == l[j as int][k as int]);
                }
                return false;
            }
            seen.set(c, true);
            proof {
                assert forall|c2: int| 0 <= c2 < n implies (#[trigger] seen@[c2] <==> exists|j2: int, k2: int|
                    0 <= j2 <= j && 0 <= k2 < l[j2].len() && entry_before(j2, k2, j as int, k + 1)
                    && #[trigger] l[j2][k2] as int == c2) by {
                    if c2 == c {
                        assert(entry_before(j as int, k as int, j as int, k + 1) && l[j as int][k as int] as int == c2);
                    } else if seen@[c2] {
                        let (j2, k2) = choose|j2: int, k2: int|
                            0 <= j2 <= j && 0 <= k2 < l[j2].len() && entry_before(j2, k2, j as int, k as int)
                            && #[trigger] l[j2][k2] as int == c2;
                        assert(entry_before(j2, k2, j as int, k + 1));
                    } else {
                        if exists|j2: int, k2: int|
                            0 <= j2 <= j && 0 <= k2 < l[j2].len() && entry_before(j2, k2, j as int, k + 1)
                            && #[trigger] l[j2][k2] as int == c2 {
                            let (j2, k2) = choose|j2: int, k2: int|
                                0 <= j2 <= j && 0 <= k2 < l[j2].len() && entry_before(j2, k2, j as int, k + 1)
                                && #[trigger] l[j2][k2] as int == c2;
                            assert(entry_before(j2, k2, j as int, k as int));
                        }
                    }
                }
                assert forall|j1: int, k1: int, j2: int, k2: int|
                    0 <= j1 <= j && 0 <= k1 < l[j1].len() && 0 <= j2 <= j && 0 <= k2 < l[j2].len()
                    && entry_before(j1, k1, j as int, k + 1) && entry_before(j2, k2, j as int, k + 1)
                    && #[trigger] l[j1][k1] == #[trigger] l[j2][k2]
                    implies j1 == j2 && k1 == k2 by {
                    if !(j1 == j && k1 == k) && (j2 == j && k2 == k) {
                        assert(entry_before(j1, k1, j as int, k as int));
                        assert(l[j1][k1] as int == c);
                    }
                    if (j1 == j && k1 == k) && !(j2 == j && k2 == k) {
                        assert(entry_before(j2, k2, j as int, k as int));
                        assert(l[j2][k2] as int == c);
                    }
                }
            }
            k = k + 1;
        }
        j = j + 1;
    }
    true
}

/// The child lists of a sequence of joints.
pub open spec fn child_lists(joints: Seq<Joint>) -> Seq<Seq<u16>> {
    Seq::new(joints.len(), |i: int| joints[i].children@)
}

/// Builds the map from scene node index to skeleton index: entry `k` is the
/// last position of `k` in `nodes`, `None` for a node that is no joint.
pub fn build_index_map(nodes: &Vec<u16>, node_count: usize) -> (r: Vec<Option<u8>>)
    requires
        nodes@.len() <= MAX_SKELETON_JOINTS,
        forall|i: int| 0 <= i < nodes@.len() ==> #[trigger] nodes@[i] < node_count,
    ensures
        r@.len() == node_count,
        forall|k: int| 0 <= k < node_count ==> #[trigger] r@[k] == joint_index_of(nodes@, k),
{
    let mut map: Vec<Option<u8>> = Vec::new();
    let mut k: usize = 0;
    while k < node_count
        invariant
            k <= node_count,
            map@.len() == k,
            forall|k2: int| 0 <= k2 < k ==> #[trigger] map@[k2] == None::<u8>,
        decreases node_count - k,
    {
        map.push(None);
        k = k + 1;
    }
    let mut i: usize = 0;
    while i < nodes.len()
        invariant
            nodes@.len() <= MAX_SKELETON_JOINTS,
            forall|i2: int| 0 <= i2 < nodes@.len() ==> #[trigger] nodes@[i2] < node_count,
            i <= nodes@.len(),
            map@.len() == node_count,
            forall|k2: int| 0 <= k2 < node_count ==> #[trigger] map@[k2] == joint_index_of(nodes@.subrange(0, i as int), k2),
        decreases nodes@.len() - i,
    {
        let node: usize = nodes[i] as usize;
        map.set(node, Some(i as u8));
        assert forall|k2: int| 0 <= k2 < node_count implies #[trigger] map@[k2] == joint_index_of(nodes@.subrange(0, i + 1), k2) by {
            assert(nodes@.subrange(0, i + 1).drop_last() == nodes@.subrange(0, i as int));
        }
        i = i + 1;
    }
    assert(nodes@.subrange(0, nodes@.len() as int) == nodes@);
    map
}

/// Skeleton index of the joint that an animation channel targets by scene
/// node index, through the same map that built the skeleton; `None` when the
/// node is no joint.
pub fn joint_for_node(map: &Vec<Option<u8>>, node: usize) -> (r: Option<usize>)
    ensures
        node >= map@.len() ==> r is None,
        node < map@.len() ==> r == match map@[node as int] {
            Some(j) => Some(j as usize),
            None => None::<usize>,
        },
{
    if node >= map.len() {
        return None;
    }
    match map[node] {
        Some(j) => Some(j as usize),
        None => None,
    }
}

/// Rewrites a list of scene node indices through `map`; `None` when one of
/// them is no joint.
pub fn remap_children(children: &Vec<u16>, map: &Vec<Option<u8>>) -> (r: Option<Vec<u16>>)
    ensures
        r is None <==> exists|k: int| 0 <= k < children@.len() && {
            let c = #[trigger] children@[k] as int;
            c >= map@.len() || map@[c] is None
        },
        r is Some ==> {
            &&& r->Some_0@.len() == children@.len()
            &&& forall|k: int| 0 <= k < children@.len()
                ==> #[trigger] r->Some_0@[k] as int == map@[children@[k] as int]->Some_0 as int
        },
{
    let mut out: Vec<u16> = Vec::new();
    let mut k: usize = 0;
    while k < children.len()
        invariant
            k <= children@.len(),
            out@.len() == k,
            forall|k2: int| 0 <= k2 < k ==> {
                let c = #[trigger] children@[k2] as int;
                c < map@.len() && map@[c] is Some
            },
            forall|k2: int| 0 <= k2 < k
                ==> #[trigger] out@[k2] as int == map@[children@[k2] as int]->Some_0 as int,
        decreases children@.len() - k,
    {
        let c: usize = children[k] as usize;
        if c >= map.len() {
            return None;
        }
        match map[c] {
            Some(j) => {
                out.push(j as u16);
            },
            None => {
                return None;
            },
        }
        k = k + 1;
    }
    Some(out)
}

/// Derives each joint's parent from the child lists in a single pass: joint
/// `c` gets as parent the last joint that lists it.
pub fn derive_parents(children: &Vec<Vec<u16>>) -> (r: Vec<Option<u8>>)
    requires
        children@.len() <= MAX_SKELETON_JOINTS,
        forall|j: int, k: int| 0 <= j < children@.len() && 0 <= k < children@[j]@.len()
            ==> #[trigger] children@[j]@[k] < children@.len(),
    ensures
        r@.len() == children@.len(),
        forall|c: int| 0 <= c < children@.len()
            ==> #[trigger] r@[c] == last_lister(children@.map_values(|l: Vec<u16>| l@), c, children@.len() as int),
{
    let n: usize = children.len();
    let ghost lists = children@.map_values(|l: Vec<u16>| l@);
    let mut parents: Vec<Option<u8>> = Vec::new();
    let mut k: usize = 0;
    while k < n
        invariant
            k <= n,
            parents@.len() == k,
            forall|c: int| 0 <= c < k ==> #[trigger] parents@[c] == None::<u8>,
        decreases n - k,
    {
        parents.push(None);
        k = k + 1;
    }
    let mut j: usize = 0;
    while j < n
        invariant
            n == children@.len(),
            n <= MAX_SKELETON_JOINTS,
            lists == children@.map_values(|l: Vec<u16>| l@),
            forall|j2: int, k2: int| 0 <= j2 < n && 0 <= k2 < children@[j2]@.len()
                ==> #[trigger] children@[j2]@[k2] < n,
            j <= n,
            parents@.len() == n,
            forall|c: int| 0 <= c < n ==> #[trigger] parents@[c] == last_lister(lists, c, j as int),
        decreases n - j,
    {
        let list = &children[j];
        assert(lists[j as int] == list@);
        let mut k: usize = 0;
        while k < list.len()
            invariant
                n == children@.len(),
                n <= MAX_SKELETON_JOINTS,
                lists == children@.map_values(|l: Vec<u16>| l@),
                j < n,
                list == children@[j as int],
                lists[j as int] == list@,
                forall|j2: int, k2: int| 0 <= j2 < n && 0 <= k2 < children@[j2]@.len()
                    ==> #[trigger] children@[j2]@[k2] < n,
                k <= list@.len(),
                parents@.len() == n,
                forall|c: int| 0 <= c < n ==> #[trigger] parents@[c] == if holds(list@.subrange(0, k as int), c) {
                    Some(j as u8)
                } else {
                    last_lister(lists, c, j as int)
                },
            decreases list@.len() - k,
        {
            let c: usize = list[k] as usize;
            assert(children@[j as int]@[k as int] == list@[k as int]);
            parents.set(c, Some(j as u8));
            assert forall|c2: int| 0 <= c2 < n implies #[trigger] parents@[c2] == if holds(list@.subrange(0, k + 1), c2) {
                Some(j as u8)
            } else {
                last_lister(lists, c2, j as int)
            } by {
                if holds(list@.subrange(0, k as int), c2) {
                    let k2 = choose|k2: int| 0 <= k2 < k && #[trigger] list@.subrange(0, k as int)[k2] as int == c2;
                    assert(list@.subrange(0, k + 1)[k2] as int == c2);
                }
                if c2 == c {
                    assert(list@.subrange(0, k + 1)[k as int] as int == c2);
                }
                if holds(list@.subrange(0, k + 1), c2) && c2 != c {
                    let k2 = choose|k2: int| 0 <= k2 < k + 1 && #[trigger] list@.subrange(0, k + 1)[k2] as int == c2;
                    assert(list@.subrange(0, k as int)[k2] as int == c2);
                }
            }
            k = k + 1;
        }
        assert(list@.subrange(0, list@.len() as int) == list@);
        j = j + 1;
    }
    parents
}

/// Scene node indices of the joints, in skin order.
pub open spec fn scene_nodes(scene: Seq<SceneJoint>) -> Seq<u16> {
    Seq::new(scene.len(), |i: int| scene[i].node)
}

/// Whether scene node `c` is one of the skin's joints.
pub open spec fn is_joint_node(scene: Seq<SceneJoint>, node_count: int, c: int) -> bool {
    c < node_count && joint_index_of(scene_nodes(scene), c) is Some
}

/// Every child that some joint lists is one of the skin's joints.
pub open spec fn children_are_joints(scene: Seq<SceneJoint>, node_count: int) -> bool {
    forall|i: int, k: int| 0 <= i < scene.len() && 0 <= k < scene[i].children@.len()
        ==> is_joint_node(scene, node_count, #[trigger] scene[i].children@[k] as int)
}

/// The child lists of the skin rewritten from scene node indices to skeleton
/// indices.
pub open spec fn remapped_lists(scene: Seq<SceneJoint>) -> Seq<Seq<u16>> {
    Seq::new(scene.len(), |i: int| Seq::new(scene[i].children@.len(), |k: int|
        joint_index_of(scene_nodes(scene), scene[i].children@[k] as int)->Some_0 as u16))
}

/// Builds a skeleton from the joints of a skin, in skin order, together with
/// the map from scene node index to skeleton index that animation channels
/// are resolved through. Node indices are mapped to skeleton indices, each
/// child list is rewritten through that map, and each joint's parent is the
/// last joint that lists it. A skin with no joints gives a skeleton of one
/// default joint.
///
/// The skeleton must come out ordered parents first, so the skin must list
/// each parent before its children and no joint twice; a skin that does not is
/// rejected with `NotParentFirst` rather than reordered. Several roots are
/// accepted: every joint that no list holds has no parent, and joint 0 is
/// always one of them.
pub fn build_skeleton(scene: &Vec<SceneJoint>, node_count: usize) -> (r: Result<(Skeleton, Vec<Option<u8>>), SkeletonError>)
    ensures
        scene@.len() > MAX_SKELETON_JOINTS ==> r == Err::<(Skeleton, Vec<Option<u8>>), SkeletonError>(SkeletonError::TooManyJoints),
        scene@.len() <= MAX_SKELETON_JOINTS && (exists|i: int| 0 <= i < scene@.len() && #[trigger] scene@[i].node >= node_count)
            ==> r == Err::<(Skeleton, Vec<Option<u8>>), SkeletonError>(SkeletonError::NodeOutOfRange),
        scene@.len() <= MAX_SKELETON_JOINTS && (forall|i: int| 0 <= i < scene@.len() ==> #[trigger] scene@[i].node < node_count)
            && !children_are_joints(scene@, node_count as int)
            ==> r == Err::<(Skeleton, Vec<Option<u8>>), SkeletonError>(SkeletonError::ChildNotAJoint),
        scene@.len() <= MAX_SKELETON_JOINTS && (forall|i: int| 0 <= i < scene@.len() ==> #[trigger] scene@[i].node < node_count)
            && children_are_joints(scene@, node_count as int) && !tree_parent_first(remapped_lists(scene@))
            ==> r == Err::<(Skeleton, Vec<Option<u8>>), SkeletonError>(SkeletonError::NotParentFirst),
        r is Ok ==> {
            let (skeleton, map) = r->Ok_0;
            &&& hierarchy_ordered(skeleton.joints@)
            &&& map@.len() == node_count
            &&& forall|k: int| 0 <= k < node_count ==> #[trigger] map@[k] == joint_index_of(scene_nodes(scene@), k)
        },
        scene@.len() == 0 ==> {
            &&& r is Ok
            &&& r->Ok_0.0.joints@.len() == 1
            &&& r->Ok_0.0.joints@[0].name@.len() == 0
            &&& r->Ok_0.0.joints@[0].children@.len() == 0
            &&& r->Ok_0.0.joints@[0].parent is None
        },
        0 < scene@.len() <= MAX_SKELETON_JOINTS && (forall|i: int| 0 <= i < scene@.len() ==> #[trigger] scene@[i].node < node_count)
            && children_are_joints(scene@, node_count as int) && tree_parent_first(remapped_lists(scene@)) ==> {
            let joints = r->Ok_0.0.joints@;
            &&& r is Ok
            &&& joints.len() == scene@.len()
            &&& forall|i: int| 0 <= i < joints.len() ==> {
                &&& (#[trigger] joints[i]).name@ == scene@[i].name@
                &&& joints[i].base_transform == scene@[i].base_transform
                &&& joints[i].inverse_bind_matrix == scene@[i].inverse_bind_matrix
                &&& joints[i].children@ == remapped_lists(scene@)[i]
                &&& joints[i].parent == last_lister(child_lists(joints), i, joints.len() as int)
            }
        },
{
    let n: usize = scene.len();
    if n == 0 {
        let mut joints: Vec<Joint> = Vec::new();
        joints.push(Joint::default());
        let nodes: Vec<u16> = Vec::new();
        let map = build_index_map(&nodes, node_count);
        assert(nodes@ =~= scene_nodes(scene@));
        assert(hierarchy_ordered(joints@));
        return Ok((Skeleton { joints }, map));
    }
    if n > MAX_SKELETON_JOINTS {
        return Err(SkeletonError::TooManyJoints);
    }
    let mut nodes: Vec<u16> = Vec::new();
    let mut i: usize = 0;
    while i < n
        invariant
            n == scene@.len(),
            n <= MAX_SKELETON_JOINTS,
            i <= n,
            nodes@ == scene_nodes(scene@).subrange(0, i as int),
            forall|i2: int| 0 <= i2 < i ==> #[trigger] scene@[i2].node < node_count,
        decreases n - i,
    {
        if scene[i].node as usize >= node_count {
            return Err(SkeletonError::NodeOutOfRange);
        }
        nodes.push(scene[i].node);
        assert(nodes@ =~= scene_nodes(scene@).subrange(0, i + 1));
        i = i + 1;
    }
    assert(nodes@ =~= scene_nodes(scene@));
    let map = build_index_map(&nodes, node_count);
    let mut lists: Vec<Vec<u16>> = Vec::new();
    let mut i: usize = 0;
    while i < n
        invariant
            n == scene@.len(),
            n <= MAX_SKELETON_JOINTS,
            i <= n,
            nodes@ == scene_nodes(scene@),
            forall|i2: int| 0 <= i2 < n ==> #[trigger] scene@[i2].node < node_count,
            map@.len() == node_count,
            forall|k: int| 0 <= k < node_count ==> #[trigger] map@[k] == joint_index_of(nodes@, k),
            lists@.len() == i,
            forall|i2: int, k: int| 0 <= i2 < i && 0 <= k < scene@[i2].children@.len()
                ==> is_joint_node(scene@, node_count as int, #[trigger] scene@[i2].children@[k] as int),
            forall|i2: int| 0 <= i2 < i ==> (#[trigger] lists@[i2])@.len() == scene@[i2].children@.len(),
            forall|i2: int, k: int| 0 <= i2 < i && 0 <= k < lists@[i2]@.len()
                ==> #[trigger] lists@[i2]@[k] as int == joint_index_of(nodes@, scene@[i2].children@[k] as int)->Some_0 as int,
            forall|i2: int, k: int| 0 <= i2 < i && 0 <= k < lists@[i2]@.len() ==> #[trigger] lists@[i2]@[k] < n,
        decreases n - i,
    {
        match remap_children(&scene[i].children, &map) {
            Some(l) => {
                assert forall|k: int| 0 <= k < l@.len() implies #[trigger] l@[k] < n by {
                    let c = scene@[i as int].children@[k] as int;
                    lemma_joint_index_bound(nodes@, c);
                }
                lists.push(l);
            },
            None => {
                proof {
                    let k = choose|k: int| 0 <= k < scene@[i as int].children@.len() && {
                        let c = #[trigger] scene@[i as int].children@[k] as int;
                        c >= map@.len() || map@[c] is None
                    };
                    assert(!is_joint_node(scene@, node_count as int, scene@[i as int].children@[k] as int));
                }
                return Err(SkeletonError::ChildNotAJoint);
            },
        }
        i = i + 1;
    }
    let ghost l_view = lists@.map_values(|l: Vec<u16>| l@);
    assert forall|i2: int| 0 <= i2 < n implies #[trigger] l_view[i2] =~= remapped_lists(scene@)[i2] by {
        assert(l_view[i2] == lists@[i2]@);
    }
    assert(l_view =~= remapped_lists(scene@));
    if !is_tree_parent_first(&lists) {
        return Err(SkeletonError::NotParentFirst);
    }
    let parents = derive_parents(&lists);
    let mut joints: Vec<Joint> = Vec::new();
    let mut i: usize = 0;
    while i < n
        invariant
            n == scene@.len(),
            n <= MAX_SKELETON_JOINTS,
            i <= n,
            lists@.len() == n,
            parents@.len() == n,
            l_view == lists@.map_values(|l: Vec<u16>| l@),
            l_view == remapped_lists(scene@),
            nodes@ == scene_nodes(scene@),
            map@.len() == node_count,
            forall|k: int| 0 <= k < node_count ==> #[trigger] map@[k] == joint_index_of(nodes@, k),
            forall|c: int| 0 <= c < n ==> #[trigger] parents@[c] == last_lister(l_view, c, n as int),
            joints@.len() == i,
            forall|i2: int| 0 <= i2 < i ==> {
                &&& (#[trigger] joints@[i2]).name@ == scene@[i2].name@
                &&& joints@[i2].base_transform == scene@[i2].base_transform
                &&& joints@[i2].inverse_bind_matrix == scene@[i2].inverse_bind_matrix
                &&& joints@[i2].children@ == lists@[i2]@
                &&& joints@[i2].parent == parents@[i2]
            },
        decreases n - i,
    {
        joints.push(Joint {
            name: scene[i].name.clone(),
            base_transform: scene[i].base_transform,
            inverse_bind_matrix: scene[i].inverse_bind_matrix,
            children: lists[i].clone(),
            parent: parents[i],
        });
        i = i + 1;
    }
    assert(child_lists(joints@) =~= l_view);
    proof {
        lemma_tree_gives_ordered_hierarchy(joints@);
    }
    Ok((Skeleton { joints }, map))
}

proof fn lemma_joint_index_bound(nodes: Seq<u16>, c: int)
    requires
        joint_index_of(nodes, c) is Some,
        nodes.len() <= 256,
    ensures
        (joint_index_of(nodes, c)->Some_0 as int) < nodes.len(),
    decreases nodes.len(),
{
    if nodes.last() as int != c {
        lemma_joint_index_bound(nodes.drop_last(), c);
    }
}

proof fn lemma_last_lister_some(children: Seq<Seq<u16>>, c: int, m: int)
    requires
        last_lister(children, c, m) is Some,
        m <= 256,
    ensures
        ({
            let p = last_lister(children, c, m)->Some_0 as int;
            &&& 0 <= p < m
            &&& holds(children[p], c)
        }),
    decreases m,
{
    if m > 0 && !holds(children[m - 1], c) {
        lemma_last_lister_some(children, c, m - 1);
    }
}

proof fn lemma_last_lister_unique(children: Seq<Seq<u16>>, c: int, j: int, m: int)
    requires
        0 <= j < m <= children.len(),
        m <= 256,
        holds(children[j], c),
        forall|j2: int| 0 <= j2 < children.len() && j2 != j ==> !holds(#[trigger] children[j2], c),
    ensures
        last_lister(children, c, m) == Some(j as u8),
    decreases m,
{
    if m - 1 != j {
        lemma_last_lister_unique(children, c, j, m - 1);
    }
}

/// When the child lists form a tree listed parents first, the parents that
/// the single reverse pass derives make the hierarchy ordered: every joint's
/// parent comes before it, and a joint that lists a child is that child's
/// parent.
pub proof fn lemma_tree_gives_ordered_hierarchy(joints: Seq<Joint>)
    requires
        joints.len() <= MAX_SKELETON_JOINTS,
        tree_parent_first(child_lists(joints)),
        forall|i: int| 0 <= i < joints.len()
            ==> #[trigger] joints[i].parent == last_lister(child_lists(joints), i, joints.len() as int),
    ensures
        hierarchy_ordered(joints),
{
    let l = child_lists(joints);
    let n = joints.len() as int;
    assert forall|j: int, k: int| 0 <= j < n && 0 <= k < joints[j].children@.len()
        implies {
            let c = #[trigger] joints[j].children@[k] as int;
            &&& j < c < n
            &&& joints[c].parent is Some
            &&& joints[c].parent->Some_0 as int == j
        } by {
        let c = joints[j].children@[k] as int;
        assert(l[j][k] == joints[j].children@[k]);
        assert(holds(l[j], c));
        assert forall|j2: int| 0 <= j2 < l.len() && j2 != j implies !holds(#[trigger] l[j2], c) by {
            if holds(l[j2], c) {
                let k2 = choose|k2: int| 0 <= k2 < l[j2].len() && #[trigger] l[j2][k2] as int == c;
                assert(l[j2][k2] == l[j][k]);
            }
        }
        lemma_last_lister_unique(l, c, j, n);
    }
    assert forall|i: int| 0 <= i < n && (#[trigger] joints[i].parent) is Some
        implies {
            let p = joints[i].parent->Some_0 as int;
            &&& p < i
            &&& exists|k: int| 0 <= k < joints[p].children@.len() && #[trigger] joints[p].children@[k] as int == i
        } by {
        lemma_last_lister_some(l, i, n);
        let p = joints[i].parent->Some_0 as int;
        let k = choose|k: int| 0 <= k < l[p].len() && #[trigger] l[p][k] as int == i;
        assert(joints[p].children@[k] == l[p][k]);
    }
}

} // verus!
