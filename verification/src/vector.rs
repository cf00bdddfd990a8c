//! Integer vectors in space, as the contracts see them, and the algebra that
//! the proofs about the cube lean on.

use vstd::prelude::*;

verus! {

/// A point of space, or a vector, with whole coordinates.
pub type Point3 = (int, int, int);

/// A point with a fourth coordinate.
pub type Point4 = (int, int, int, int);

/// The scalar product.
pub open spec fn dot(a: Point3, b: Point3) -> int {
    a.0 * b.0 + a.1 * b.1 + a.2 * b.2
}

/// The vector product.
pub open spec fn cross(a: Point3, b: Point3) -> Point3 {
    (a.1 * b.2 - a.2 * b.1, a.2 * b.0 - a.0 * b.2, a.0 * b.1 - a.1 * b.0)
}

/// A vector taken `k` times.
pub open spec fn scale(k: int, a: Point3) -> Point3 {
    (k * a.0, k * a.1, k * a.2)
}

/// The sum of two vectors.
pub open spec fn plus(a: Point3, b: Point3) -> Point3 {
    (a.0 + b.0, a.1 + b.1, a.2 + b.2)
}

/// Products with 0, 1 and -1, in the form the solver looks for.
pub proof fn lemma_unit_products()
    ensures
        forall|a: int, x: int| a == 0 ==> #[trigger] (a * x) == 0,
        forall|a: int, x: int| a == 0 ==> #[trigger] (x * a) == 0,
        forall|a: int, x: int| a == 1 ==> #[trigger] (a * x) == x,
        forall|a: int, x: int| a == 1 ==> #[trigger] (x * a) == x,
        forall|a: int, x: int| a == -1 ==> #[trigger] (a * x) == -x,
        forall|a: int, x: int| a == -1 ==> #[trigger] (x * a) == -x,
{
    assert forall|a: int, x: int| a == 0 implies #[trigger] (a * x) == 0 by {
        assert(a * x == 0) by (nonlinear_arith)
            requires
                a == 0,
        ;
    }
    assert forall|a: int, x: int| a == 0 implies #[trigger] (x * a) == 0 by {
        assert(x * a == 0) by (nonlinear_arith)
            requires
                a == 0,
        ;
    }
    assert forall|a: int, x: int| a == 1 implies #[trigger] (a * x) == x by {
        assert(a * x == x) by (nonlinear_arith)
            requires
                a == 1,
        ;
    }
    assert forall|a: int, x: int| a == 1 implies #[trigger] (x * a) == x by {
        assert(x * a == x) by (nonlinear_arith)
            requires
                a == 1,
        ;
    }
    assert forall|a: int, x: int| a == -1 implies #[trigger] (a * x) == -x by {
        assert(a * x == -x) by (nonlinear_arith)
            requires
                a == -1,
        ;
    }
    assert forall|a: int, x: int| a == -1 implies #[trigger] (x * a) == -x by {
        assert(x * a == -x) by (nonlinear_arith)
            requires
                a == -1,
        ;
    }
}

/// The scalar product with a unit vector along an axis picks a component.
pub(crate) proof fn lemma_dot_axis(w: Point3)
    ensures
        dot((1int, 0int, 0int), w) == w.0 && dot(w, (1int, 0int, 0int)) == w.0,
        dot((-1int, 0int, 0int), w) == -w.0 && dot(w, (-1int, 0int, 0int)) == -w.0,
        dot((0int, 1int, 0int), w) == w.1 && dot(w, (0int, 1int, 0int)) == w.1,
        dot((0int, -1int, 0int), w) == -w.1 && dot(w, (0int, -1int, 0int)) == -w.1,
        dot((0int, 0int, 1int), w) == w.2 && dot(w, (0int, 0int, 1int)) == w.2,
        dot((0int, 0int, -1int), w) == -w.2 && dot(w, (0int, 0int, -1int)) == -w.2,
{
}

/// A product distributes over a sum of three scaled terms.
pub(crate) proof fn lemma_mul_linear(u: int, k1: int, x: int, k2: int, y: int, k3: int, z: int)
    ensures
        u * (k1 * x + k2 * y + k3 * z) == k1 * (u * x) + k2 * (u * y) + k3 * (u * z),
{
    assert(u * (k1 * x + k2 * y + k3 * z) == u * (k1 * x) + u * (k2 * y) + u * (k3 * z))
        by (nonlinear_arith);
    assert(u * (k1 * x) == k1 * (u * x)) by (nonlinear_arith);
    assert(u * (k2 * y) == k2 * (u * y)) by (nonlinear_arith);
    assert(u * (k3 * z) == k3 * (u * z)) by (nonlinear_arith);
}

/// A factor distributes over a sum of three terms.
pub(crate) proof fn lemma_mul_sum(k: int, a: int, b: int, c: int)
    ensures
        k * (a + b + c) == k * a + k * b + k * c,
{
    assert(k * (a + b + c) == k * a + k * b + k * c) by (nonlinear_arith);
}

/// The scalar product is linear in its second argument.
pub proof fn lemma_dot_linear(u: Point3, k1: int, x: Point3, k2: int, y: Point3, k3: int, z: Point3)
    ensures
        dot(u, plus(plus(scale(k1, x), scale(k2, y)), scale(k3, z))) == k1 * dot(u, x) + k2 * dot(
            u,
            y,
        ) + k3 * dot(u, z),
{
    lemma_mul_linear(u.0, k1, x.0, k2, y.0, k3, z.0);
    lemma_mul_linear(u.1, k1, x.1, k2, y.1, k3, z.1);
    lemma_mul_linear(u.2, k1, x.2, k2, y.2, k3, z.2);
    lemma_mul_sum(k1, u.0 * x.0, u.1 * x.1, u.2 * x.2);
    lemma_mul_sum(k2, u.0 * y.0, u.1 * y.1, u.2 * y.2);
    lemma_mul_sum(k3, u.0 * z.0, u.1 * z.1, u.2 * z.2);
}

/// A product with a sign.
pub(crate) proof fn lemma_sign_product(k: int, s: int)
    requires
        -1 <= s <= 1,
    ensures
        k * s == (if s == 1 {
            k
        } else if s == -1 {
            -k
        } else {
            0
        }),
        s * k == k * s,
{
    assert(k * s == (if s == 1 {
        k
    } else if s == -1 {
        -k
    } else {
        0
    }) && s * k == k * s) by (nonlinear_arith)
        requires
            -1 <= s <= 1,
    ;
}

/// Two multiples of a vector add up to a multiple of it.
pub(crate) proof fn lemma_scale_add(a: int, b: int, w: Point3)
    ensures
        plus(scale(a, w), scale(b, w)) == scale(a + b, w),
{
    assert(a * w.0 + b * w.0 == (a + b) * w.0) by (nonlinear_arith);
    assert(a * w.1 + b * w.1 == (a + b) * w.1) by (nonlinear_arith);
    assert(a * w.2 + b * w.2 == (a + b) * w.2) by (nonlinear_arith);
}

/// A multiple of a sum is the sum of the multiples.
pub(crate) proof fn lemma_scale_plus(k: int, a: Point3, b: Point3)
    ensures
        scale(k, plus(a, b)) == plus(scale(k, a), scale(k, b)),
{
    assert(k * (a.0 + b.0) == k * a.0 + k * b.0) by (nonlinear_arith);
    assert(k * (a.1 + b.1) == k * a.1 + k * b.1) by (nonlinear_arith);
    assert(k * (a.2 + b.2) == k * a.2 + k * b.2) by (nonlinear_arith);
}

/// A multiple of a multiple.
pub(crate) proof fn lemma_scale_scale(a: int, b: int, w: Point3)
    ensures
        scale(a, scale(b, w)) == scale(a * b, w),
{
    assert(a * (b * w.0) == (a * b) * w.0) by (nonlinear_arith);
    assert(a * (b * w.1) == (a * b) * w.1) by (nonlinear_arith);
    assert(a * (b * w.2) == (a * b) * w.2) by (nonlinear_arith);
}

} // verus!
