//! Sampling utilities: hemisphere directions from random words, and an
//! orthonormal-ish basis around a surface normal for rotating them into
//! world space.

use vstd::prelude::*;
use crate::coordinates::{
    bounded3, normalize_spec, vcross, Coordinates3D, Vec3i, UNIT_MAX,
    lemma_vcross_bound,
};
use crate::fixed::{
    fx_div, fx_div_spec, fx_mul, fx_mul_spec, fx_sqrt, fx_sqrt_spec, iabs, lemma_fx_div_bound,
    lemma_fx_mul_bound, ONE,
};
use crate::rng::variate_spec;

verus! {

/// Bound on the components of a basis tangent vector.
pub const BASIS_MAX: i64 = 0x40000;

/// A direction drawn on the upper (positive-y) unit hemisphere: three
/// centred variates, the hemisphere axis folded positive, normalized. A draw
/// too degenerate to normalize falls back to the hemisphere axis itself.
pub open spec fn hemisphere_spec(w1: u64, w2: u64, w3: u64) -> Vec3i {
    let x = variate_spec(w1);
    let z = variate_spec(w2);
    let rv = variate_spec(w3);
    let y = if rv < 0 { -rv } else { rv };
    match normalize_spec(Vec3i { x, y, z }) {
        None => Vec3i { x: 0, y: ONE as int, z: 0 },
        Some(u) => u,
    }
}

/// Draw a direction on the upper unit hemisphere from three random words.
pub fn uniform_sampling_hemisphere(w1: u64, w2: u64, w3: u64) -> (dir: Coordinates3D)
    ensures
        dir@ == hemisphere_spec(w1, w2, w3),
        bounded3(dir@, UNIT_MAX as int),
        dir@.y >= 0,
{
    let x = crate::rng::variate(w1);
    let z = crate::rng::variate(w2);
    let rv = crate::rng::variate(w3);
    let y = if rv < 0 { -rv } else { rv };
    let v = Coordinates3D { x, y, z };
    match v.normalize() {
        None => Coordinates3D { x: 0, y: ONE, z: 0 },
        Some(u) => u,
    }
}

/// The tangent chosen beside an up vector: built in the coordinate plane
/// avoiding the up vector's dominant axis. An up vector too short or too
/// skewed to carry the construction falls back to the x axis.
pub open spec fn basis_tangent_spec(up: Vec3i) -> Vec3i {
    let nt = if iabs(up.x) > iabs(up.y) {
        let ntl = fx_sqrt_spec(fx_mul_spec(up.x, up.x) + fx_mul_spec(up.z, up.z));
        if ntl == 0 {
            Vec3i { x: ONE as int, y: 0, z: 0 }
        } else {
            Vec3i { x: fx_div_spec(up.z, ntl), y: 0, z: -fx_div_spec(up.x, ntl) }
        }
    } else {
        let ntl = fx_sqrt_spec(fx_mul_spec(up.y, up.y) + fx_mul_spec(up.z, up.z));
        if ntl == 0 {
            Vec3i { x: ONE as int, y: 0, z: 0 }
        } else {
            Vec3i { x: 0, y: -fx_div_spec(up.z, ntl), z: fx_div_spec(up.y, ntl) }
        }
    };
    if !bounded3(nt, BASIS_MAX as int) {
        Vec3i { x: ONE as int, y: 0, z: 0 }
    } else {
        nt
    }
}

/// The basis around an up vector: tangent, the up vector itself, bitangent.
pub open spec fn basis_spec(up: Vec3i) -> (Vec3i, Vec3i, Vec3i) {
    let nt = basis_tangent_spec(up);
    (nt, up, vcross(up, nt))
}

/// Build the basis around an up vector, for rotating hemisphere samples into
/// the frame of a surface normal.
pub fn create_coordinate_system_from_up_vector(up_vector: &Coordinates3D) -> (basis: [Coordinates3D;
    3])
    requires
        bounded3(up_vector@, UNIT_MAX as int),
    ensures
        (basis[0]@, basis[1]@, basis[2]@) == basis_spec(up_vector@),
        bounded3(basis[0]@, BASIS_MAX as int),
        bounded3(basis[1]@, UNIT_MAX as int),
        bounded3(basis[2]@, 0x100000),
{
    proof {
        lemma_fx_mul_bound(up_vector@.x, up_vector@.x, UNIT_MAX as int, UNIT_MAX as int);
        lemma_fx_mul_bound(up_vector@.y, up_vector@.y, UNIT_MAX as int, UNIT_MAX as int);
        lemma_fx_mul_bound(up_vector@.z, up_vector@.z, UNIT_MAX as int, UNIT_MAX as int);
        assert(fx_mul_spec(up_vector@.x, up_vector@.x) >= 0) by {
            assert(up_vector@.x * up_vector@.x >= 0) by (nonlinear_arith);
            vstd::arithmetic::div_mod::lemma_div_pos_is_pos(
                up_vector@.x * up_vector@.x,
                ONE as int,
            );
        }
        assert(fx_mul_spec(up_vector@.y, up_vector@.y) >= 0) by {
            assert(up_vector@.y * up_vector@.y >= 0) by (nonlinear_arith);
            vstd::arithmetic::div_mod::lemma_div_pos_is_pos(
                up_vector@.y * up_vector@.y,
                ONE as int,
            );
        }
        assert(fx_mul_spec(up_vector@.z, up_vector@.z) >= 0) by {
            assert(up_vector@.z * up_vector@.z >= 0) by (nonlinear_arith);
            vstd::arithmetic::div_mod::lemma_div_pos_is_pos(
                up_vector@.z * up_vector@.z,
                ONE as int,
            );
        }
    }
    let ux_abs = if up_vector.x < 0 { -up_vector.x } else { up_vector.x };
    let uy_abs = if up_vector.y < 0 { -up_vector.y } else { up_vector.y };
    let nt0 = if ux_abs > uy_abs {
        let ntl = fx_sqrt(
            fx_mul(up_vector.x, up_vector.x) + fx_mul(up_vector.z, up_vector.z),
        );
        if ntl == 0 {
            Coordinates3D { x: ONE, y: 0, z: 0 }
        } else {
            proof {
                lemma_fx_div_bound(up_vector@.z, ntl as int, UNIT_MAX as int);
                lemma_fx_div_bound(up_vector@.x, ntl as int, UNIT_MAX as int);
            }
            Coordinates3D { x: fx_div(up_vector.z, ntl), y: 0, z: -fx_div(up_vector.x, ntl) }
        }
    } else {
        let ntl = fx_sqrt(
            fx_mul(up_vector.y, up_vector.y) + fx_mul(up_vector.z, up_vector.z),
        );
        if ntl == 0 {
            Coordinates3D { x: ONE, y: 0, z: 0 }
        } else {
            proof {
                lemma_fx_div_bound(up_vector@.z, ntl as int, UNIT_MAX as int);
                lemma_fx_div_bound(up_vector@.y, ntl as int, UNIT_MAX as int);
            }
            Coordinates3D { x: 0, y: -fx_div(up_vector.z, ntl), z: fx_div(up_vector.y, ntl) }
        }
    };
    let nt = if nt0.x > BASIS_MAX || nt0.x < -BASIS_MAX || nt0.y > BASIS_MAX || nt0.y < -BASIS_MAX
        || nt0.z > BASIS_MAX || nt0.z < -BASIS_MAX {
        Coordinates3D { x: ONE, y: 0, z: 0 }
    } else {
        nt0
    };
    proof {
        lemma_vcross_bound(up_vector@, nt@, UNIT_MAX as int, BASIS_MAX as int);
    }
    let nb = up_vector.cross(&nt);
    [nt, *up_vector, nb]
}

} // verus!
