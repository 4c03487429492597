//! The vector, quaternion and matrix types of glam, as opaque values, and the
//! few operations of glam that the pose resolver composes.
use vstd::prelude::*;
use glam::{Mat4, Quat, Vec2, Vec3};

verus! {

#[verifier::external_type_specification]
#[verifier::external_body]
pub struct ExVec2(Vec2);

#[verifier::external_type_specification]
#[verifier::external_body]
pub struct ExVec3(Vec3);

#[verifier::external_type_specification]
#[verifier::external_body]
pub struct ExQuat(Quat);

#[verifier::external_type_specification]
#[verifier::external_body]
pub struct ExMat4(Mat4);

/// Relies on glam's derived `Clone` for `Mat4`, a `Copy` type: the clone is
/// the same matrix.
pub assume_specification[ <Mat4 as Clone>::clone ](m: &Mat4) -> (r: Mat4)
    ensures
        r == *m,
;

/// A joint's local transform, decomposed into translation, rotation and scale.
#[derive(Clone, Copy, Debug)]
pub struct JointTransform {
    pub pos: Vec3,
    pub rot: Quat,
    pub scale: Vec3,
}

/// The affine matrix that scales by `scale`, then rotates by `rot`, then
/// translates by `pos`.
pub uninterp spec fn srt_matrix(scale: Vec3, rot: Quat, pos: Vec3) -> Mat4;

/// The matrix product `a * b`.
pub uninterp spec fn mat_product(a: Mat4, b: Mat4) -> Mat4;

/// The matrix of a joint transform.
pub open spec fn transform_matrix(t: JointTransform) -> Mat4 {
    srt_matrix(t.scale, t.rot, t.pos)
}

/// Relies on glam's `Mat4::from_scale_rotation_translation`, whose result
/// depends on its three arguments alone. It checks that the rotation is
/// normalized only under glam's `glam-assert` feature, which is off.
#[verifier::external_body]
pub(crate) fn compose_srt(scale: Vec3, rot: Quat, pos: Vec3) -> (r: Mat4)
    ensures
        r == srt_matrix(scale, rot, pos),
{
    Mat4::from_scale_rotation_translation(scale, rot, pos)
}

/// Relies on glam's `Mat4 * Mat4`, whose result depends on its two operands
/// alone.
#[verifier::external_body]
pub(crate) fn mat_mul(a: Mat4, b: Mat4) -> (r: Mat4)
    ensures
        r == mat_product(a, b),
{
    a * b
}

/// Relies on glam's `Mat4::IDENTITY`.
#[verifier::external_body]
pub(crate) fn identity_matrix() -> Mat4 {
    Mat4::IDENTITY
}

/// Relies on glam's `Vec3::ZERO`, `Quat::IDENTITY` and `Vec3::ONE`: no
/// translation, no rotation, unit scale.
#[verifier::external_body]
pub(crate) fn rest_transform() -> JointTransform {
    JointTransform { pos: Vec3::ZERO, rot: Quat::IDENTITY, scale: Vec3::ONE }
}

impl Default for JointTransform {
    /// Relies on glam's `Vec3::ZERO` and `Quat::IDENTITY`: no translation, no
    /// rotation and zero scale, what an empty keyframe track samples to.
    #[verifier::external_body]
    fn default() -> JointTransform {
        JointTransform { pos: Vec3::ZERO, rot: Quat::IDENTITY, scale: Vec3::ZERO }
    }
}

impl JointTransform {
    /// The matrix that applies this transform.
    #[must_use]
    pub fn matrix(&self) -> (r: Mat4)
        ensures
            r == transform_matrix(*self),
    {
        compose_srt(self.scale, self.rot, self.pos)
    }
}

} // verus!
