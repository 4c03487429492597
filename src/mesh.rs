//! Extraction of a vertex/index mesh from the attribute streams of one scene
//! mesh primitive.
use vstd::prelude::*;
use glam::{Vec2, Vec3};

verus! {

/// Joint indices that vertices may name must stay below this budget.
pub const MAX_JOINTS: u16 = 19;

/// The most vertices a mesh can have: 16-bit indices address no more.
pub const MAX_VERTICES: usize = 65536;

/// One vertex of a skinned mesh.
#[derive(Clone, Copy, Debug)]
pub struct Vertex {
    pub pos: Vec3,
    pub norm: Vec3,
    pub tc: Vec2,
    /// Indices for which joints influence this vertex
    pub joints: [u8; 3],
    /// How much each of the 3 joints influence this vertex
    pub weights: Vec3,
}

/// Triangles over a vertex buffer, and the texture they are drawn with.
#[derive(Clone, Debug)]
pub struct Mesh {
    pub verts: Vec<Vertex>,
    pub inds: Vec<u16>,
    pub texture: u8,
}

/// The attribute streams of one mesh primitive, as the scene stores them;
/// an absent attribute is `None`.
pub struct PrimitiveData {
    pub positions: Option<Vec<Vec3>>,
    pub normals: Option<Vec<Vec3>>,
    pub tex_coords: Option<Vec<Vec2>>,
    pub joints: Option<Vec<[u16; 3]>>,
    pub weights: Option<Vec<Vec3>>,
    pub indices: Option<Vec<u32>>,
    /// The image bound as the base color texture, if any
    pub texture: Option<u8>,
}

/// Why a primitive could not be turned into a mesh.
#[derive(Debug, Clone, Copy, PartialEq, Eq, Structural)]
pub enum MeshError {
    /// The primitive has no positions.
    MissingPositions,
    /// The primitive has more vertices than 16-bit indices can address.
    TooManyVertices,
    /// An attribute has another number of entries than the positions.
    AttributeCountMismatch,
    /// A joint index is not below the joint budget.
    JointOutOfRange,
    /// A triangle index does not fit in 16 bits.
    IndexTooLarge,
}

/// `v`, scaled to unit length.
pub uninterp spec fn normalized(v: Vec3) -> Vec3;

/// Relies on glam's `Vec3::normalize`, whose result depends on the vector
/// alone. It checks that the result is finite only under glam's
/// `glam-assert` feature, which is off.
#[verifier::external_body]
fn normalize(v: Vec3) -> (r: Vec3)
    ensures
        r == normalized(v),
{
    v.normalize()
}

/// Relies on glam's `Vec3::ZERO`.
#[verifier::external_body]
fn zero_vec3() -> Vec3 {
    Vec3::ZERO
}

/// Relies on glam's `Vec2::ZERO`.
#[verifier::external_body]
fn zero_vec2() -> Vec2 {
    Vec2::ZERO
}

/// Relies on glam's `Vec3::X`: the weight (1, 0, 0).
#[verifier::external_body]
fn unit_x_vec3() -> Vec3 {
    Vec3::X
}

/// Whether an optional attribute stream, when present, has `n` entries.
pub open spec fn count_matches<T>(a: Option<Vec<T>>, n: int) -> bool {
    a is Some ==> a->Some_0@.len() == n
}

/// Whether every joint index of the stream is below the budget.
pub open spec fn joints_in_budget(joints: Seq<[u16; 3]>) -> bool {
    forall|i: int, c: int| 0 <= i < joints.len() && 0 <= c < 3 ==> (#[trigger] joints[i]@[c]) < MAX_JOINTS
}

/// Whether every triangle index fits in 16 bits.
pub open spec fn indices_fit(indices: Seq<u32>) -> bool {
    forall|i: int| 0 <= i < indices.len() ==> #[trigger] indices[i] <= u16::MAX
}

/// The error that `build_mesh` reports for `p`, if any.
pub open spec fn mesh_error(p: PrimitiveData) -> Option<MeshError> {
    if p.positions is None {
        Some(MeshError::MissingPositions)
    } else if p.positions->Some_0@.len() > MAX_VERTICES {
        Some(MeshError::TooManyVertices)
    } else if {
        let n = p.positions->Some_0@.len() as int;
        !count_matches(p.normals, n) || !count_matches(p.tex_coords, n)
            || !count_matches(p.joints, n) || !count_matches(p.weights, n)
    } {
        Some(MeshError::AttributeCountMismatch)
    } else if p.joints is Some && !joints_in_budget(p.joints->Some_0@) {
        Some(MeshError::JointOutOfRange)
    } else if p.indices is Some && !indices_fit(p.indices->Some_0@) {
        Some(MeshError::IndexTooLarge)
    } else {
        None
    }
}

/// Builds the mesh of one primitive. Positions are required, at most 65536
/// of them; a primitive
/// without normals, texture coordinates, joints or weights gets the default
/// of each (zero normal, zero texture coordinate, joints [0, 0, 0], weight
/// (1, 0, 0)); weights are normalized; triangle indices are narrowed to 16
/// bits; a primitive without a texture uses texture 0.
pub fn build_mesh(p: &PrimitiveData) -> (r: Result<Mesh, MeshError>)
    ensures
        mesh_error(*p) is Some ==> r == Err::<Mesh, MeshError>(mesh_error(*p)->Some_0),
        mesh_error(*p) is None ==> {
            let m = r->Ok_0;
            let pos = p.positions->Some_0@;
            &&& r is Ok
            &&& m.verts@.len() == pos.len()
            &&& forall|i: int| 0 <= i < pos.len() ==> {
                let v = #[trigger] m.verts@[i];
                &&& v.pos == pos[i]
                &&& p.normals is Some ==> v.norm == p.normals->Some_0@[i]
                &&& p.tex_coords is Some ==> v.tc == p.tex_coords->Some_0@[i]
                &&& p.joints is Some ==> forall|c: int| 0 <= c < 3
                    ==> #[trigger] v.joints@[c] as int == p.joints->Some_0@[i]@[c] as int
                &&& p.joints is None ==> v.joints@ == seq![0u8, 0u8, 0u8]
                &&& p.weights is Some ==> v.weights == normalized(p.weights->Some_0@[i])
            }
            &&& p.indices is Some ==> {
                &&& m.inds@.len() == p.indices->Some_0@.len()
                &&& forall|i: int| 0 <= i < m.inds@.len() ==> #[trigger] m.inds@[i] as int == p.indices->Some_0@[i] as int
            }
            &&& p.indices is None ==> m.inds@.len() == 0
            &&& m.texture == match p.texture {
                Some(t) => t,
                None => 0u8,
            }
        },
{
    let positions = match &p.positions {
        Some(v) => v,
        None => {
            return Err(MeshError::MissingPositions);
        },
    };
    let n: usize = positions.len();
    if n > MAX_VERTICES {
        return Err(MeshError::TooManyVertices);
    }
    let counts_ok: bool = match &p.normals {
        Some(v) => v.len() == n,
        None => true,
    } && match &p.tex_coords {
        Some(v) => v.len() == n,
        None => true,
    } && match &p.joints {
        Some(v) => v.len() == n,
        None => true,
    } && match &p.weights {
        Some(v) => v.len() == n,
        None => true,
    };
    if !counts_ok {
        return Err(MeshError::AttributeCountMismatch);
    }
    if let Some(joints) = &p.joints {
        let mut i: usize = 0;
        while i < joints.len()
            invariant
                p.positions is Some,
                n == p.positions->Some_0@.len(),
                n <= MAX_VERTICES,
                count_matches(p.normals, n as int),
                count_matches(p.tex_coords, n as int),
                count_matches(p.joints, n as int),
                count_matches(p.weights, n as int),
                p.joints is Some,
                *joints == p.joints->Some_0,
                i <= joints@.len(),
                forall|i2: int, c: int| 0 <= i2 < i && 0 <= c < 3 ==> (#[trigger] joints@[i2]@[c]) < MAX_JOINTS,
            decreases joints@.len() - i,
        {
            let ids: [u16; 3] = joints[i];
            if ids[0] >= MAX_JOINTS || ids[1] >= MAX_JOINTS || ids[2] >= MAX_JOINTS {
                return Err(MeshError::JointOutOfRange);
            }
            assert forall|i2: int, c: int| 0 <= i2 < i + 1 && 0 <= c < 3 implies (#[trigger] joints@[i2]@[c]) < MAX_JOINTS by {
                if i2 == i {
                    assert(c == 0 || c == 1 || c == 2);
                }
            }
            i = i + 1;
        }
    }
    let mut inds: Vec<u16> = Vec::new();
    if let Some(indices) = &p.indices {
        let mut i: usize = 0;
        while i < indices.len()
            invariant
                p.positions is Some,
                n == p.positions->Some_0@.len(),
                n <= MAX_VERTICES,
                count_matches(p.normals, n as int),
                count_matches(p.tex_coords, n as int),
                count_matches(p.joints, n as int),
                count_matches(p.weights, n as int),
                p.joints is Some ==> joints_in_budget(p.joints->Some_0@),
                p.indices is Some,
                *indices == p.indices->Some_0,
                i <= indices@.len(),
                inds@.len() == i,
                forall|i2: int| 0 <= i2 < i ==> #[trigger] inds@[i2] as int == indices@[i2] as int,
                forall|i2: int| 0 <= i2 < i ==> #[trigger] indices@[i2] <= u16::MAX,
            decreases indices@.len() - i,
        {
            let idx: u32 = indices[i];
            if idx > 65535 {
                return Err(MeshError::IndexTooLarge);
            }
            inds.push(idx as u16);
            i = i + 1;
        }
    }
    let zero3: Vec3 = zero_vec3();
    let zero2: Vec2 = zero_vec2();
    let unit_weight: Vec3 = unit_x_vec3();
    let mut verts: Vec<Vertex> = Vec::new();
    let mut i: usize = 0;
    while i < n
        invariant
            p.positions is Some,
            *positions == p.positions->Some_0,
            n == positions@.len(),
            count_matches(p.normals, n as int),
            count_matches(p.tex_coords, n as int),
            count_matches(p.joints, n as int),
            count_matches(p.weights, n as int),
            p.joints is Some ==> joints_in_budget(p.joints->Some_0@),
            p.indices is Some ==> indices_fit(p.indices->Some_0@),
            p.indices is Some ==> {
                &&& inds@.len() == p.indices->Some_0@.len()
                &&& forall|i2: int| 0 <= i2 < inds@.len() ==> #[trigger] inds@[i2] as int == p.indices->Some_0@[i2] as int
            },
            p.indices is None ==> inds@.len() == 0,
            i <= n,
            verts@.len() == i,
            forall|i2: int| 0 <= i2 < i ==> {
                let v = #[trigger] verts@[i2];
                &&& v.pos == positions@[i2]
                &&& p.normals is Some ==> v.norm == p.normals->Some_0@[i2]
                &&& p.tex_coords is Some ==> v.tc == p.tex_coords->Some_0@[i2]
                &&& p.joints is Some ==> forall|c: int| 0 <= c < 3
                    ==> #[trigger] v.joints@[c] as int == p.joints->Some_0@[i2]@[c] as int
                &&& p.joints is None ==> v.joints@ == seq![0u8, 0u8, 0u8]
                &&& p.weights is Some ==> v.weights == normalized(p.weights->Some_0@[i2])
            },
        decreases n - i,
    {
        let norm: Vec3 = match &p.normals {
            Some(v) => v[i],
            None => zero3,
        };
        let tc: Vec2 = match &p.tex_coords {
            Some(v) => v[i],
            None => zero2,
        };
        let joints: [u8; 3] = match &p.joints {
            Some(v) => {
                let ids: [u16; 3] = v[i];
                assert(ids@[0] < MAX_JOINTS && ids@[1] < MAX_JOINTS && ids@[2] < MAX_JOINTS);
                [ids[0] as u8, ids[1] as u8, ids[2] as u8]
            },
            None => [0u8, 0u8, 0u8],
        };
        let weights: Vec3 = match &p.weights {
            Some(v) => normalize(v[i]),
            None => unit_weight,
        };
        let vert = Vertex { pos: positions[i], norm, tc, joints, weights };
        proof {
            if p.joints is Some {
                let ids = p.joints->Some_0@[i as int];
                assert forall|c: int| 0 <= c < 3 implies #[trigger] vert.joints@[c] as int == ids@[c] as int by {
                    assert(c == 0 || c == 1 || c == 2);
                }
            } else {
                assert(vert.joints@ =~= seq![0u8, 0u8, 0u8]);
            }
        }
        verts.push(vert);
        i = i + 1;
    }
    let texture: u8 = match p.texture {
        Some(t) => t,
        None => 0,
    };
    Ok(Mesh { verts, inds, texture })
}

} // verus!
