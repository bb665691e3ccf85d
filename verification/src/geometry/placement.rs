//! What putting an object in place does to its barycenter.
use crate::algebra::{bounded, minus, plus};
use crate::exact::{lemma_quotient_near, lemma_quotient_nearest, quotient_toward_zero};
use crate::geometry::obj3d::{
    is_axis, placed, placed_triangle, rotated, scaled_axis, sum_of_barycenters, unit_scale, Mesh,
    Triangle,
    Turn, TURN_UNIT,
};
use crate::math::Vector3;
use vstd::prelude::*;

verus! {

/// No rotation about any of the three axes.
pub open spec fn no_turn() -> Vector3<Turn> {
    Vector3 {
        x: Turn { cos: TURN_UNIT, sin: 0 },
        y: Turn { cos: TURN_UNIT, sin: 0 },
        z: Turn { cos: TURN_UNIT, sin: 0 },
    }
}

/// A rotation of nothing, about any axis, leaves a point where it is.
pub proof fn lemma_no_turn(p: Vector3<int>, u: Vector3<int>)
    ensures
        rotated(p, u, Turn { cos: TURN_UNIT, sin: 0 }) == p,
{
    let c = 16384int;
    let mc = 0int;
    let s = 0int;
    let uxy = u.x * u.y;
    let uyz = u.y * u.z;
    let uzx = u.z * u.x;
    assert((u.x * u.x * mc + c) * p.x + (uxy * mc - u.z * s) * p.y + (uzx * mc + u.y * s) * p.z
        == 16384 * p.x) by (nonlinear_arith)
        requires
            c == 16384,
            mc == 0,
            s == 0,
    ;
    assert((uxy * mc + u.z * s) * p.x + (u.y * u.y * mc + c) * p.y + (uyz * mc - u.x * s) * p.z
        == 16384 * p.y) by (nonlinear_arith)
        requires
            c == 16384,
            mc == 0,
            s == 0,
    ;
    assert((uzx * mc - u.y * s) * p.x + (uyz * mc + u.x * s) * p.y + (u.z * u.z * mc + c) * p.z
        == 16384 * p.z) by (nonlinear_arith)
        requires
            c == 16384,
            mc == 0,
            s == 0,
    ;
    lemma_quotient_nearest(16384 * p.x, 16384);
    lemma_quotient_nearest(16384 * p.y, 16384);
    lemma_quotient_nearest(16384 * p.z, 16384);
}

/// A rotation about an axis leaves the coordinate along that axis as it
/// is, whatever the angle.
pub proof fn lemma_turn_keeps_axis(p: Vector3<int>, u: Vector3<int>, turn: Turn)
    requires
        is_axis(u),
    ensures
        crate::algebra::dot(rotated(p, u, turn), u) == crate::algebra::dot(p, u),
{
    let c = turn.cos as int;
    let mc = TURN_UNIT - c;
    let s = turn.sin as int;
    let r = rotated(p, u, turn);
    assert(u.x * u.x == (if u.x == 0 { 0int } else { 1int }) && u.y * u.y == (if u.y == 0 {
        0int
    } else {
        1int
    }) && u.z * u.z == (if u.z == 0 { 0int } else { 1int })) by (nonlinear_arith)
        requires
            -1 <= u.x <= 1,
            -1 <= u.y <= 1,
            -1 <= u.z <= 1,
    ;
    if u.x != 0 {
        assert((u.x * u.x * mc + c) * p.x + (u.x * u.y * mc - u.z * s) * p.y + (u.z * u.x * mc + u.y
            * s) * p.z == 16384 * p.x) by (nonlinear_arith)
            requires
                u.x * u.x == 1,
                u.y == 0,
                u.z == 0,
                mc + c == 16384,
        ;
        lemma_quotient_nearest(16384 * p.x, 16384);
        assert(r.x == p.x);
        assert(r.x * u.x + r.y * 0 + r.z * 0 == p.x * u.x + p.y * 0 + p.z * 0);
    } else if u.y != 0 {
        assert((u.x * u.y * mc + u.z * s) * p.x + (u.y * u.y * mc + c) * p.y + (u.y * u.z * mc - u.x
            * s) * p.z == 16384 * p.y) by (nonlinear_arith)
            requires
                u.y * u.y == 1,
                u.x == 0,
                u.z == 0,
                mc + c == 16384,
        ;
        lemma_quotient_nearest(16384 * p.y, 16384);
        assert(r.y == p.y);
        assert(r.x * 0 + r.y * u.y + r.z * 0 == p.x * 0 + p.y * u.y + p.z * 0);
    } else {
        assert((u.z * u.x * mc - u.y * s) * p.x + (u.y * u.z * mc + u.x * s) * p.y + (u.z * u.z * mc
            + c) * p.z == 16384 * p.z) by (nonlinear_arith)
            requires
                u.z * u.z == 1,
                u.x == 0,
                u.y == 0,
                mc + c == 16384,
        ;
        lemma_quotient_nearest(16384 * p.z, 16384);
        assert(r.z == p.z);
        assert(r.x * 0 + r.y * 0 + r.z * u.z == p.x * 0 + p.y * 0 + p.z * u.z);
    }
}

/// A scale of one and a rotation of nothing leave a point where it is.
pub proof fn lemma_unit_placement(p: Vector3<int>)
    ensures
        scaled_axis(p.x, 0, unit_scale().x) == p.x,
        scaled_axis(p.y, 0, unit_scale().y) == p.y,
        scaled_axis(p.z, 0, unit_scale().z) == p.z,
        rotated(p, Vector3 { x: 1, y: 0, z: 0 }, no_turn().x) == p,
        rotated(p, Vector3 { x: 0, y: 1, z: 0 }, no_turn().y) == p,
        rotated(p, Vector3 { x: 0, y: 0, z: 1 }, no_turn().z) == p,
{
    lemma_quotient_nearest(p.x * 1, 1);
    lemma_quotient_nearest(p.y * 1, 1);
    lemma_quotient_nearest(p.z * 1, 1);
    lemma_no_turn(p, Vector3 { x: 1, y: 0, z: 0 });
    lemma_no_turn(p, Vector3 { x: 0, y: 1, z: 0 });
    lemma_no_turn(p, Vector3 { x: 0, y: 0, z: 1 });
}

/// Where a point goes when its object is moved, but neither scaled nor
/// turned: by the way from the barycenter of the mesh to the position.
pub proof fn lemma_placed_by_a_move(p: Vector3<int>, barycenter: Vector3<int>, position: Vector3<int>)
    ensures
        placed(p, barycenter, unit_scale(), no_turn(), position) == plus(
            minus(p, barycenter),
            position,
        ),
{
    let centred = minus(p, barycenter);
    lemma_unit_placement(centred);
}

/// The sums of the barycenters of two sequences of triangles, where each
/// barycenter of the second is within a step of that of the first moved by
/// `d`, differ by `d` times their number, up to a step for each triangle.
proof fn lemma_moved_sums(first: Seq<Triangle>, second: Seq<Triangle>, d: Vector3<int>)
    requires
        first.len() == second.len(),
        forall|i: int|
            0 <= i < first.len() ==> bounded(
                minus(minus((#[trigger] second[i]).barycenter(), first[i].barycenter()), d),
                1,
            ),
    ensures
        bounded(
            minus(
                minus(sum_of_barycenters(second), sum_of_barycenters(first)),
                crate::algebra::scaled(d, first.len() as int),
            ),
            first.len() as int,
        ),
    decreases first.len(),
{
    let n = first.len() as int;
    if n > 0 {
        lemma_moved_sums(first.drop_last(), second.drop_last(), d);
        assert(bounded(minus(minus(second[n - 1].barycenter(), first[n - 1].barycenter()), d), 1));
        assert(d.x * n == d.x * (n - 1) + d.x && d.y * n == d.y * (n - 1) + d.y && d.z * n == d.z
            * (n - 1) + d.z) by (nonlinear_arith);
    } else {
        assert(d.x * 0 == 0 && d.y * 0 == 0 && d.z * 0 == 0);
    }
}

/// The mean of a sum that is near `n` times `c` is near `c`.
proof fn lemma_mean_near(sum: int, n: int, c: int)
    requires
        n >= 1,
        -(2 * n - 1) <= sum - n * c <= 2 * n - 1,
    ensures
        -2 <= quotient_toward_zero(sum, n) - c <= 2,
{
    let q = quotient_toward_zero(sum, n);
    lemma_quotient_near(sum, n);
    assert(-2 <= q - c <= 2) by (nonlinear_arith)
        requires
            n >= 1,
            -(n - 1) <= n * q - sum <= n - 1,
            -(2 * n - 1) <= sum - n * c <= 2 * n - 1,
    ;
}

/// The barycenter of a triangle that is moved by `d` is within a step, on
/// each axis, of the barycenter moved by `d`.
proof fn lemma_moved_barycenter(t: Triangle, r: Triangle, d: Vector3<int>)
    requires
        r.pa() == plus(t.pa(), d),
        r.pb() == plus(t.pb(), d),
        r.pc() == plus(t.pc(), d),
    ensures
        bounded(minus(minus(r.barycenter(), t.barycenter()), d), 1),
{
    lemma_quotient_near(t.pa().x + t.pb().x + t.pc().x, 3);
    lemma_quotient_near(t.pa().y + t.pb().y + t.pc().y, 3);
    lemma_quotient_near(t.pa().z + t.pb().z + t.pc().z, 3);
    lemma_quotient_near(r.pa().x + r.pb().x + r.pc().x, 3);
    lemma_quotient_near(r.pa().y + r.pb().y + r.pc().y, 3);
    lemma_quotient_near(r.pa().z + r.pb().z + r.pc().z, 3);
}

/// An object that is put in place without scale or rotation has its
/// barycenter at its position, up to the rounding of the means: within two
/// steps on each axis.
pub proof fn lemma_barycenter_at_position(mesh: Mesh, placed_mesh: Mesh, position: Vector3<int>)
    requires
        mesh.triangles@.len() > 0,
        placed_mesh.triangles@.len() == mesh.triangles@.len(),
        forall|i: int|
            0 <= i < mesh.triangles@.len() ==> placed_triangle(
                #[trigger] mesh.triangles@[i],
                mesh.barycenter(),
                unit_scale(),
                no_turn(),
                position,
                placed_mesh.triangles@[i],
            ),
    ensures
        bounded(minus(placed_mesh.barycenter(), position), 2),
{
    let first = mesh.triangles@;
    let second = placed_mesh.triangles@;
    let n = first.len() as int;
    let b = mesh.barycenter();
    let d = minus(position, b);
    assert forall|i: int| 0 <= i < n implies bounded(
        minus(minus((#[trigger] second[i]).barycenter(), first[i].barycenter()), d),
        1,
    ) by {
        assert(placed_triangle(first[i], b, unit_scale(), no_turn(), position, second[i]));
        lemma_placed_by_a_move(first[i].pa(), b, position);
        lemma_placed_by_a_move(first[i].pb(), b, position);
        lemma_placed_by_a_move(first[i].pc(), b, position);
        lemma_moved_barycenter(first[i], second[i], d);
    }
    lemma_moved_sums(first, second, d);
    let s1 = sum_of_barycenters(first);
    let s2 = sum_of_barycenters(second);
    lemma_quotient_near(s1.x, n);
    lemma_quotient_near(s1.y, n);
    lemma_quotient_near(s1.z, n);
    assert(n * position.x == n * b.x + d.x * n && n * position.y == n * b.y + d.y * n && n
        * position.z == n * b.z + d.z * n) by (nonlinear_arith)
        requires
            d.x == position.x - b.x,
            d.y == position.y - b.y,
            d.z == position.z - b.z,
    ;
    lemma_mean_near(s2.x, n, position.x);
    lemma_mean_near(s2.y, n, position.y);
    lemma_mean_near(s2.z, n, position.z);
}

} // verus!
