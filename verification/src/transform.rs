//! 2D rigid transforms and their composition.
//!
//! A transform carries a translation in integer sub-units and a rotation in
//! millidegrees. Composition follows the parent-to-child convention of the
//! hierarchy: the composed rotation is the normalized sum, and the child's
//! translation is rotated by the composed rotation before being added to the
//! parent's translation. Results are clamped to the 64-bit range.
use vstd::prelude::*;

verus! {

use crate::angle::{
    cos_fp,
    cos_mdeg,
    is_norm_mdeg,
    lemma_norm_add,
    lemma_norm_range,
    lemma_trig_bounds,
    norm_angle_wide,
    norm_mdeg,
    sin_fp,
    sin_mdeg,
};

/// A translation vector in integer sub-units.
#[derive(Clone, Copy, PartialEq, Eq, Structural, Debug)]
pub struct Vec2I {
    pub x: i64,
    pub y: i64,
}

/// A 2D transform: translation in sub-units, rotation in millidegrees.
#[derive(Clone, Copy, PartialEq, Eq, Structural, Debug)]
pub struct Transform2D {
    pub translation: Vec2I,
    pub rotation: i64,
}

/// The mathematical value of a transform.
pub struct TransformView {
    pub tx: int,
    pub ty: int,
    pub rot: int,
}

impl View for Transform2D {
    type V = TransformView;

    open spec fn view(&self) -> TransformView {
        TransformView { tx: self.translation.x as int, ty: self.translation.y as int, rot: self.rotation as int }
    }
}

/// Scaling a fixed-point product back down: division by 2^16 truncated
/// toward zero, so that rotating a negated vector negates the result.
pub open spec fn scale16(v: int) -> int {
    if v >= 0 {
        v / 65_536
    } else {
        -((-v) / 65_536)
    }
}

/// Clamping to the signed 64-bit range.
pub open spec fn sat64(v: int) -> int {
    if v > 0x7fff_ffff_ffff_ffff {
        0x7fff_ffff_ffff_ffff
    } else if v < -0x8000_0000_0000_0000 {
        -0x8000_0000_0000_0000
    } else {
        v
    }
}

/// Rotating the vector `(x, y)` by the normalized angle `rot`, in fixed
/// point.
pub open spec fn rotate_vec(x: int, y: int, rot: int) -> (int, int)
    recommends
        is_norm_mdeg(rot),
{
    let s = sin_mdeg(rot);
    let c = cos_mdeg(rot);
    (scale16(x * c - y * s), scale16(x * s + y * c))
}

/// The identity transform.
pub open spec fn identity_view() -> TransformView {
    TransformView { tx: 0, ty: 0, rot: 0 }
}

/// Composition of a parent transform with a child transform.
pub open spec fn spec_multiply(a: TransformView, b: TransformView) -> TransformView {
    let rot = norm_mdeg(a.rot + b.rot);
    let r = rotate_vec(b.tx, b.ty, rot);
    TransformView { tx: sat64(a.tx + r.0), ty: sat64(a.ty + r.1), rot: rot }
}

impl Transform2D {
    /// Builds a transform from its parts, exactly as given.
    pub fn new(translation: Vec2I, rotation: i64) -> (r: Transform2D)
        ensures
            r.translation == translation,
            r.rotation == rotation,
    {
        Transform2D { translation, rotation }
    }

    /// The identity transform: no translation, no rotation.
    pub fn identity() -> (r: Transform2D)
        ensures
            r@ == identity_view(),
    {
        Transform2D { translation: Vec2I { x: 0i64, y: 0i64 }, rotation: 0i64 }
    }

    /// Composes `self` (the parent's transform) with `other` (the child's
    /// local transform).
    pub fn multiply(&self, other: &Transform2D) -> (r: Transform2D)
        ensures
            r@ == spec_multiply(self@, other@),
            is_norm_mdeg(r@.rot),
    {
        let rot: i64 = norm_angle_wide(self.rotation as i128 + other.rotation as i128);
        let s: i64 = sin_fp(rot);
        let c: i64 = cos_fp(rot);
        proof {
            lemma_trig_bounds(rot as int);
            lemma_fixed_product_bounds(other.translation.x as int, other.translation.y as int, s as int, c as int);
        }
        let xs: i128 = other.translation.x as i128 * c as i128 - other.translation.y as i128 * s as i128;
        let ys: i128 = other.translation.x as i128 * s as i128 + other.translation.y as i128 * c as i128;
        let rx: i128 = scale16_exec(xs);
        let ry: i128 = scale16_exec(ys);
        let tx: i64 = sat64_exec(self.translation.x as i128 + rx);
        let ty: i64 = sat64_exec(self.translation.y as i128 + ry);
        Transform2D { translation: Vec2I { x: tx, y: ty }, rotation: rot }
    }
}

/// Bounds on the fixed-point products that feed `scale16`.
proof fn lemma_fixed_product_bounds(x: int, y: int, s: int, c: int)
    requires
        -0x8000_0000_0000_0000 <= x <= 0x7fff_ffff_ffff_ffff,
        -0x8000_0000_0000_0000 <= y <= 0x7fff_ffff_ffff_ffff,
        -65_536 <= s <= 65_536,
        -65_536 <= c <= 65_536,
    ensures
        -0x2_0000_0000_0000_0000_0000 <= x * c <= 0x2_0000_0000_0000_0000_0000,
        -0x2_0000_0000_0000_0000_0000 <= y * s <= 0x2_0000_0000_0000_0000_0000,
        -0x2_0000_0000_0000_0000_0000 <= x * s <= 0x2_0000_0000_0000_0000_0000,
        -0x2_0000_0000_0000_0000_0000 <= y * c <= 0x2_0000_0000_0000_0000_0000,
        -0x4_0000_0000_0000_0000_0000 <= x * c - y * s <= 0x4_0000_0000_0000_0000_0000,
        -0x4_0000_0000_0000_0000_0000 <= x * s + y * c <= 0x4_0000_0000_0000_0000_0000,
{
    assert(-0x2_0000_0000_0000_0000_0000 <= x * c <= 0x2_0000_0000_0000_0000_0000)
        by (nonlinear_arith)
        requires
            -0x8000_0000_0000_0000 <= x <= 0x7fff_ffff_ffff_ffff,
            -65_536 <= c <= 65_536,
    ;
    assert(-0x2_0000_0000_0000_0000_0000 <= y * s <= 0x2_0000_0000_0000_0000_0000)
        by (nonlinear_arith)
        requires
            -0x8000_0000_0000_0000 <= y <= 0x7fff_ffff_ffff_ffff,
            -65_536 <= s <= 65_536,
    ;
    assert(-0x2_0000_0000_0000_0000_0000 <= x * s <= 0x2_0000_0000_0000_0000_0000)
        by (nonlinear_arith)
        requires
            -0x8000_0000_0000_0000 <= x <= 0x7fff_ffff_ffff_ffff,
            -65_536 <= s <= 65_536,
    ;
    assert(-0x2_0000_0000_0000_0000_0000 <= y * c <= 0x2_0000_0000_0000_0000_0000)
        by (nonlinear_arith)
        requires
            -0x8000_0000_0000_0000 <= y <= 0x7fff_ffff_ffff_ffff,
            -65_536 <= c <= 65_536,
    ;
}

/// Fixed-point scale-down of a wide product, truncating toward zero.
fn scale16_exec(v: i128) -> (r: i128)
    requires
        -0x4_0000_0000_0000_0000_0000 <= v <= 0x4_0000_0000_0000_0000_0000,
    ensures
        r == scale16(v as int),
        -0x4_0000_0000_0000_0000 <= r <= 0x4_0000_0000_0000_0000,
{
    if v >= 0 {
        let m: u128 = v as u128;
        let q: u128 = m / 65_536;
        proof {
            vstd::arithmetic::div_mod::lemma_div_is_ordered(
                m as int,
                0x4_0000_0000_0000_0000_0000,
                65_536,
            );
        }
        q as i128
    } else {
        let m: u128 = (-v) as u128;
        let q: u128 = m / 65_536;
        proof {
            vstd::arithmetic::div_mod::lemma_div_is_ordered(
                m as int,
                0x4_0000_0000_0000_0000_0000,
                65_536,
            );
        }
        -(q as i128)
    }
}

/// Clamps a wide intermediate sum to the signed 64-bit range.
fn sat64_exec(v: i128) -> (r: i64)
    ensures
        r == sat64(v as int),
{
    if v > 0x7fff_ffff_ffff_ffff {
        0x7fff_ffff_ffff_ffffi64
    } else if v < -0x8000_0000_0000_0000 {
        -0x8000_0000_0000_0000i64
    } else {
        v as i64
    }
}

/// Composing with the identity on the right only normalizes the rotation;
/// the translation is kept.
pub proof fn lemma_multiply_identity(a: Transform2D)
    ensures
        spec_multiply(a@, identity_view()) == (TransformView {
            tx: a@.tx,
            ty: a@.ty,
            rot: norm_mdeg(a@.rot),
        }),
{
    lemma_norm_range(a@.rot);
    let rot = norm_mdeg(a@.rot + 0);
    assert(rotate_vec(0, 0, rot) == (0int, 0int));
}

/// Inserting an identity transform between a parent and a child does not
/// change the composed result: propagating through an intermediate entity
/// whose local transform is the identity leaves the child's global
/// transform exactly as if the child hung directly off the parent.
pub proof fn lemma_identity_intermediate(a: Transform2D, c: Transform2D)
    ensures
        spec_multiply(spec_multiply(a@, identity_view()), c@) == spec_multiply(a@, c@),
{
    lemma_multiply_identity(a);
    lemma_norm_add(a@.rot, c@.rot);
    assert(spec_multiply(spec_multiply(a@, identity_view()), c@).rot == spec_multiply(
        a@,
        c@,
    ).rot);
}

/// The composed rotation is the normalized sum of the two rotations: it
/// always lies in (-180_000, 180_000], and it does not depend on the order
/// of composition.
pub proof fn lemma_composed_rotation(a: Transform2D, b: Transform2D)
    ensures
        spec_multiply(a@, b@).rot == norm_mdeg(a@.rot + b@.rot),
        is_norm_mdeg(spec_multiply(a@, b@).rot),
        spec_multiply(a@, b@).rot == spec_multiply(b@, a@).rot,
{
    lemma_norm_range(a@.rot + b@.rot);
}

/// A transform used as an entity's authored, parent-relative placement.
#[derive(Clone, Copy, PartialEq, Eq, Structural, Debug)]
pub struct LocalTransform(pub Transform2D);

/// A transform computed by propagation: the entity's placement in world
/// space. Never authored directly.
#[derive(Clone, Copy, PartialEq, Eq, Structural, Debug)]
pub struct GlobalTransform(pub Transform2D);

} // verus!

