//! The edges of the cube: how the raster of a face goes on in the storage of
//! the neighbour across an edge.
//!
//! Points are measured in half texels from the centre of the cube, so the
//! centre of every texel has whole coordinates and the face `size` texels
//! wide lies in the plane at distance `size` along its normal.

use crate::cubemap::{CubeFace, lemma_frame_resolves};
use crate::raster::{lemma_index_bound, texel_index};
use crate::vector::{dot, lemma_dot_axis, lemma_dot_linear, lemma_sign_product, plus, Point3, scale};
use vstd::prelude::*;

verus! {

/// The centre of texel `(x, y)` of a face, on a cube whose faces are `size`
/// texels wide. The unit is half a texel and the origin is the centre of the
/// cube, so the face lies in the plane at distance `size` along its normal.
pub open spec fn texel_center(face: CubeFace, size: int, x: int, y: int) -> Point3 {
    plus(
        plus(scale(size, face.normal_spec()), scale(2 * x + 1 - size, face.u_vec_spec())),
        scale(2 * y + 1 - size, face.v_vec_spec()),
    )
}

/// The texel of a face whose centre is the point `p` of its plane.
pub open spec fn texel_at(face: CubeFace, size: int, p: Point3) -> (int, int) {
    ((dot(face.u_vec_spec(), p) + size - 1) / 2, (dot(face.v_vec_spec(), p) + size - 1) / 2)
}

/// The face that the axis of `face` along its edge with `neighbor` points
/// to: the one of the two faces along its axes that is not the neighbour
/// nor across from it.
pub open spec fn edge_face(face: CubeFace, neighbor: CubeFace) -> CubeFace {
    if face.u_face_spec().abs_spec() == neighbor.abs_spec() {
        face.v_face_spec()
    } else {
        face.u_face_spec()
    }
}

/// The axis of `face` that runs along the edge it shares with `neighbor`.
pub open spec fn edge_axis(face: CubeFace, neighbor: CubeFace) -> Point3 {
    edge_face(face, neighbor).normal_spec()
}

/// The point reached from `face` by walking off it towards `neighbor`: at
/// position `along` on the shared edge, `depth` texels past it, with the part
/// of the walk that lies past the edge folded down onto the neighbour.
pub open spec fn across_center(
    face: CubeFace,
    neighbor: CubeFace,
    size: int,
    along: int,
    depth: int,
) -> Point3 {
    plus(
        plus(
            scale(size, neighbor.normal_spec()),
            scale(size - 2 * depth - 1, face.normal_spec()),
        ),
        scale(2 * along + 1 - size, edge_axis(face, neighbor)),
    )
}

/// The index in `neighbor`'s storage of the texel met `depth` texels past the
/// edge of `face`, at position `along` on it.
pub open spec fn across_index(
    face: CubeFace,
    neighbor: CubeFace,
    size: int,
    along: int,
    depth: int,
) -> int {
    texel_index(size, texel_at(neighbor, size, across_center(face, neighbor, size, along, depth)))
}

/// Whether an axis that points to the face `axis` points to `target`, away
/// from it, or neither: 1, -1 or 0.
pub open spec fn towards(axis: CubeFace, target: CubeFace) -> int {
    if axis == target {
        1
    } else if axis == target.opposite_spec() {
        -1
    } else {
        0
    }
}

/// How the frame of `neighbor` lies against `face`: one of its two axes runs
/// along the normal of `face`, the other along the shared edge, each in one of
/// the two directions.
pub struct EdgeSigns {
    /// `u` of the neighbour against the normal of the face.
    pub un: int,
    /// `v` of the neighbour against the normal of the face.
    pub vn: int,
    /// `u` of the neighbour against the axis along the edge.
    pub ue: int,
    /// `v` of the neighbour against the axis along the edge.
    pub ve: int,
}

pub open spec fn edge_signs(face: CubeFace, neighbor: CubeFace) -> EdgeSigns {
    EdgeSigns {
        un: towards(neighbor.u_face_spec(), face),
        vn: towards(neighbor.v_face_spec(), face),
        ue: towards(neighbor.u_face_spec(), edge_face(face, neighbor)),
        ve: towards(neighbor.v_face_spec(), edge_face(face, neighbor)),
    }
}

impl EdgeSigns {
    /// One axis of the neighbour is the normal of the face or its opposite,
    /// the other is the axis along the edge or its opposite.
    pub open spec fn wf(self) -> bool {
        ||| (self.un == 1 || self.un == -1) && self.vn == 0 && self.ue == 0 && (self.ve == 1
            || self.ve == -1)
        ||| self.un == 0 && (self.vn == 1 || self.vn == -1) && (self.ue == 1 || self.ue == -1)
            && self.ve == 0
    }
}

/// The texel of the neighbour that is met `depth` texels past the edge, at
/// position `along` on it: the depth is counted from the side of the
/// neighbour that touches the face, the position in the direction of the axis
/// along the edge or against it.
pub open spec fn across_texel(signs: EdgeSigns, size: int, along: int, depth: int) -> (int, int) {
    let inward = (if signs.un + signs.vn == 1 {
        size - 1 - depth
    } else {
        depth
    });
    let beside = (if signs.ue + signs.ve == 1 {
        along
    } else {
        size - 1 - along
    });
    if signs.vn == 0 {
        (inward, beside)
    } else {
        (beside, inward)
    }
}

/// The base index and the two strides with which the texels of `neighbor`
/// along its edge with `face` are read: the index of the texel at position 0
/// and depth 0, the step to the next position, and the step to the next
/// depth.
pub open spec fn edge_layout(face: CubeFace, neighbor: CubeFace, size: int) -> (int, int, int) {
    let signs = edge_signs(face, neighbor);
    (
        texel_index(size, across_texel(signs, size, 0, 0)),
        signs.ue + size * signs.ve,
        -signs.un - size * signs.vn,
    )
}

/// Describes how to read the texels of `face` that lie along its edge with
/// `edge`, as a continuation of the raster of `edge`.
///
/// The result is a base index and two strides into the storage of `face`: the
/// texel `depth` texels past the edge, at position `along` on it counted in
/// the coordinates of `edge`, is stored at `base + main * along + cross *
/// depth`.
pub fn map_edge_index(face: CubeFace, edge: CubeFace, size: usize) -> (r: (isize, isize, isize))
    requires
        face.adjacent(edge),
        1 <= size,
        size * size <= isize::MAX,
    ensures
        (r.0 as int, r.1 as int, r.2 as int) == edge_layout(edge, face, size as int),
        forall|along: int, depth: int|
            0 <= along < size && 0 <= depth < size ==> r.0 + r.1 * along + r.2 * depth
                == #[trigger] across_index(edge, face, size as int, along, depth),
{
    assert(size <= size * size && (size - 1) * size <= size * size) by (nonlinear_arith)
        requires
            1 <= size,
    ;
    let n: isize = size as isize;
    proof {
        lemma_edge_tests(edge, face);
        lemma_edge_index_cases(edge, face, size as int);
        assert((n - 1) * n == (size - 1) * size && (n - 1) * n + n - 1 == size * size - 1 && 0 * n
            == 0) by (nonlinear_arith)
            requires
                n == size,
        ;
    }
    let r = if face.u_face().abs() == edge.abs() {
        // The +U or the -U edge of `face` touches `edge`.
        let (x, cross_offs): (isize, isize) = if face.u_face() == edge {
            (n - 1, -1)
        } else {
            (0, 1)
        };
        if face.v_face() == edge.u_face() || face.v_face() == edge.v_face() {
            (x, n, cross_offs)
        } else {
            (x + (n - 1) * n, -n, cross_offs)
        }
    } else {
        // The +V or the -V edge of `face` touches `edge`.
        let (y, cross_offs): (isize, isize) = if face.v_face() == edge {
            (n - 1, -n)
        } else {
            (0, n)
        };
        if face.u_face() == edge.u_face() || face.u_face() == edge.v_face() {
            (y * n, 1, cross_offs)
        } else {
            (n - 1 + y * n, -1, cross_offs)
        }
    };
    proof {
        assert forall|along: int, depth: int|
            0 <= along < size && 0 <= depth < size implies r.0 + r.1 * along + r.2 * depth
            == #[trigger] across_index(edge, face, size as int, along, depth) by {
            lemma_across_index(edge, face, size as int, along, depth);
        }
        lemma_across_index(edge, face, size as int, 0, 0);
    }
    r
}

/// The point reached past an edge is the centre of a texel of the neighbour.
pub proof fn lemma_across_on_face(
    face: CubeFace,
    neighbor: CubeFace,
    size: int,
    along: int,
    depth: int,
)
    requires
        face.adjacent(neighbor),
        0 <= along < size,
        0 <= depth < size,
    ensures
        ({
            let p = across_center(face, neighbor, size, along, depth);
            let t = texel_at(neighbor, size, p);
            &&& 0 <= t.0 < size
            &&& 0 <= t.1 < size
            &&& texel_center(neighbor, size, t.0, t.1) == p
        }),
{
    lemma_across_texel(face, neighbor, size, along, depth);
    let p = across_center(face, neighbor, size, along, depth);
    let t = texel_at(neighbor, size, p);
    let s = edge_signs(face, neighbor);
    lemma_edge_tests(face, neighbor);
    lemma_frame_resolves(neighbor, p);
    lemma_dot_linear(
        neighbor.normal_spec(),
        size,
        neighbor.normal_spec(),
        size - 2 * depth - 1,
        face.normal_spec(),
        2 * along + 1 - size,
        edge_axis(face, neighbor),
    );
    lemma_dot_linear(
        neighbor.u_vec_spec(),
        size,
        neighbor.normal_spec(),
        size - 2 * depth - 1,
        face.normal_spec(),
        2 * along + 1 - size,
        edge_axis(face, neighbor),
    );
    lemma_dot_linear(
        neighbor.v_vec_spec(),
        size,
        neighbor.normal_spec(),
        size - 2 * depth - 1,
        face.normal_spec(),
        2 * along + 1 - size,
        edge_axis(face, neighbor),
    );
    lemma_sign_product(size, 0);
    lemma_sign_product(size, 1);
    lemma_sign_product(size - 2 * depth - 1, s.un);
    lemma_sign_product(size - 2 * depth - 1, s.vn);
    lemma_sign_product(size - 2 * depth - 1, 0);
    lemma_sign_product(2 * along + 1 - size, s.ue);
    lemma_sign_product(2 * along + 1 - size, s.ve);
    lemma_sign_product(2 * along + 1 - size, 0);
    lemma_face_dots(face, neighbor);
}

/// The texel met past an edge, in the coordinates of the neighbour.
pub proof fn lemma_across_texel(
    face: CubeFace,
    neighbor: CubeFace,
    size: int,
    along: int,
    depth: int,
)
    requires
        face.adjacent(neighbor),
    ensures
        texel_at(neighbor, size, across_center(face, neighbor, size, along, depth)) == across_texel(
            edge_signs(face, neighbor),
            size,
            along,
            depth,
        ),
{
    let s = edge_signs(face, neighbor);
    let c = across_center(face, neighbor, size, along, depth);
    lemma_edge_signs(face, neighbor);
    lemma_dot_linear(
        neighbor.u_vec_spec(),
        size,
        neighbor.normal_spec(),
        size - 2 * depth - 1,
        face.normal_spec(),
        2 * along + 1 - size,
        edge_axis(face, neighbor),
    );
    lemma_dot_linear(
        neighbor.v_vec_spec(),
        size,
        neighbor.normal_spec(),
        size - 2 * depth - 1,
        face.normal_spec(),
        2 * along + 1 - size,
        edge_axis(face, neighbor),
    );
    lemma_sign_product(size, 0);
    lemma_sign_product(size - 2 * depth - 1, s.un);
    lemma_sign_product(size - 2 * depth - 1, s.vn);
    lemma_sign_product(2 * along + 1 - size, s.ue);
    lemma_sign_product(2 * along + 1 - size, s.ve);
}

/// The frames of two faces that share an edge line up axis by axis.
pub proof fn lemma_edge_signs(face: CubeFace, neighbor: CubeFace)
    requires
        face.adjacent(neighbor),
    ensures
        edge_signs(face, neighbor).wf(),
        dot(neighbor.u_vec_spec(), face.normal_spec()) == edge_signs(face, neighbor).un,
        dot(neighbor.v_vec_spec(), face.normal_spec()) == edge_signs(face, neighbor).vn,
        dot(neighbor.u_vec_spec(), edge_axis(face, neighbor)) == edge_signs(face, neighbor).ue,
        dot(neighbor.v_vec_spec(), edge_axis(face, neighbor)) == edge_signs(face, neighbor).ve,
        dot(neighbor.u_vec_spec(), neighbor.normal_spec()) == 0,
        dot(neighbor.v_vec_spec(), neighbor.normal_spec()) == 0,
        dot(edge_axis(face, neighbor), neighbor.u_vec_spec()) == edge_signs(face, neighbor).ue,
        dot(edge_axis(face, neighbor), neighbor.v_vec_spec()) == edge_signs(face, neighbor).ve,
        dot(scale(-1, face.normal_spec()), neighbor.u_vec_spec()) == -edge_signs(
            face,
            neighbor,
        ).un,
        dot(scale(-1, face.normal_spec()), neighbor.v_vec_spec()) == -edge_signs(
            face,
            neighbor,
        ).vn,
{
    match face {
        CubeFace::PositiveX => lemma_edge_signs_of(face, neighbor),
        CubeFace::NegativeX => lemma_edge_signs_of(face, neighbor),
        CubeFace::PositiveY => lemma_edge_signs_of(face, neighbor),
        CubeFace::NegativeY => lemma_edge_signs_of(face, neighbor),
        CubeFace::PositiveZ => lemma_edge_signs_of(face, neighbor),
        CubeFace::NegativeZ => lemma_edge_signs_of(face, neighbor),
    }
}

/// The step in a neighbour's storage that goes with one texel along the
/// direction `dir`, a unit vector along one of the neighbour's own axes.
pub open spec fn stride_along(neighbor: CubeFace, size: int, dir: Point3) -> int {
    dot(dir, neighbor.u_vec_spec()) + size * dot(dir, neighbor.v_vec_spec())
}

/// The closed form of `across_index`: a base and two strides.
pub proof fn lemma_across_index(
    face: CubeFace,
    neighbor: CubeFace,
    size: int,
    along: int,
    depth: int,
)
    requires
        face.adjacent(neighbor),
    ensures
        across_index(face, neighbor, size, along, depth) == across_index(face, neighbor, size, 0, 0)
            + stride_along(neighbor, size, edge_axis(face, neighbor)) * along + stride_along(
            neighbor,
            size,
            scale(-1, face.normal_spec()),
        ) * depth,
{
    let n = size;
    let a = along;
    let d = depth;
    let s = edge_signs(face, neighbor);
    lemma_edge_signs(face, neighbor);
    lemma_across_texel(face, neighbor, n, a, d);
    lemma_across_texel(face, neighbor, n, 0, 0);
    let main = stride_along(neighbor, n, edge_axis(face, neighbor));
    let cross = stride_along(neighbor, n, scale(-1, face.normal_spec()));
    lemma_sign_product(n, s.ve);
    lemma_sign_product(n, -s.vn);
    assert(main == s.ue + n * s.ve);
    assert(cross == -s.un + n * (-s.vn));
    assert(n * (n - 1 - a) == n * (n - 1) - n * a) by (nonlinear_arith);
    assert(n * (n - 1 - d) == n * (n - 1) - n * d) by (nonlinear_arith);
    assert(n * (n - 1 - 0) == n * (n - 1)) by (nonlinear_arith);
    assert((-n) * a == -(n * a)) by (nonlinear_arith);
    assert((-n) * d == -(n * d)) by (nonlinear_arith);
    assert(n * 0 == 0) by (nonlinear_arith);
    assert(1 * a == a && (-1) * a == -a) by (nonlinear_arith);
    assert(1 * d == d && (-1) * d == -d) by (nonlinear_arith);
}

/// The texel met past an edge lies in the storage of the neighbour, and so
/// does every step on the way to it.
pub(crate) proof fn lemma_across_bounds(
    face: CubeFace,
    neighbor: CubeFace,
    size: int,
    along: int,
    depth: int,
)
    requires
        face.adjacent(neighbor),
        0 <= along < size,
        0 <= depth < size,
    ensures
        0 <= across_index(face, neighbor, size, along, depth) < size * size,
        -(size * size) <= stride_along(neighbor, size, edge_axis(face, neighbor)) * along <= size
            * size,
        -(size * size) <= stride_along(neighbor, size, scale(-1, face.normal_spec())) * depth
            <= size * size,
{
    lemma_edge_tests(face, neighbor);
    lemma_across_on_face(face, neighbor, size, along, depth);
    let t = texel_at(neighbor, size, across_center(face, neighbor, size, along, depth));
    lemma_index_bound(size, t.0, t.1);
    lemma_stride_bound(neighbor, size, edge_axis(face, neighbor), along);
    lemma_stride_bound(neighbor, size, scale(-1, face.normal_spec()), depth);
}

/// The same, one neighbour at a time.
pub(crate) proof fn lemma_edge_signs_of(face: CubeFace, neighbor: CubeFace)
    requires
        face.adjacent(neighbor),
    ensures
        edge_signs(face, neighbor).wf(),
        dot(neighbor.u_vec_spec(), face.normal_spec()) == edge_signs(face, neighbor).un,
        dot(neighbor.v_vec_spec(), face.normal_spec()) == edge_signs(face, neighbor).vn,
        dot(neighbor.u_vec_spec(), edge_axis(face, neighbor)) == edge_signs(face, neighbor).ue,
        dot(neighbor.v_vec_spec(), edge_axis(face, neighbor)) == edge_signs(face, neighbor).ve,
        dot(neighbor.u_vec_spec(), neighbor.normal_spec()) == 0,
        dot(neighbor.v_vec_spec(), neighbor.normal_spec()) == 0,
        dot(edge_axis(face, neighbor), neighbor.u_vec_spec()) == edge_signs(face, neighbor).ue,
        dot(edge_axis(face, neighbor), neighbor.v_vec_spec()) == edge_signs(face, neighbor).ve,
        dot(scale(-1, face.normal_spec()), neighbor.u_vec_spec()) == -edge_signs(
            face,
            neighbor,
        ).un,
        dot(scale(-1, face.normal_spec()), neighbor.v_vec_spec()) == -edge_signs(
            face,
            neighbor,
        ).vn,
{
    lemma_dot_axis(face.normal_spec());
    lemma_dot_axis(edge_axis(face, neighbor));
    lemma_dot_axis(scale(-1, face.normal_spec()));
    lemma_dot_axis(neighbor.normal_spec());
    lemma_dot_axis(neighbor.u_vec_spec());
    lemma_dot_axis(neighbor.v_vec_spec());
    match face {
        CubeFace::PositiveX => {},
        CubeFace::NegativeX => {},
        CubeFace::PositiveY => {},
        CubeFace::NegativeY => {},
        CubeFace::PositiveZ => {},
        CubeFace::NegativeZ => {},
    }
}

/// The tests on faces that tell how the frame of `neighbor` lies against
/// `face`.
pub(crate) proof fn lemma_edge_tests(face: CubeFace, neighbor: CubeFace)
    requires
        face.adjacent(neighbor),
    ensures
        edge_signs(face, neighbor).wf(),
        dot(edge_axis(face, neighbor), neighbor.u_vec_spec()) == edge_signs(face, neighbor).ue,
        dot(edge_axis(face, neighbor), neighbor.v_vec_spec()) == edge_signs(face, neighbor).ve,
        dot(scale(-1, face.normal_spec()), neighbor.u_vec_spec()) == -edge_signs(
            face,
            neighbor,
        ).un,
        dot(scale(-1, face.normal_spec()), neighbor.v_vec_spec()) == -edge_signs(
            face,
            neighbor,
        ).vn,
        neighbor.u_face_spec().abs_spec() == face.abs_spec() <==> edge_signs(face, neighbor).un
            != 0,
        neighbor.u_face_spec() == face <==> edge_signs(face, neighbor).un == 1,
        neighbor.v_face_spec() == face <==> edge_signs(face, neighbor).vn == 1,
        edge_signs(face, neighbor).un != 0 ==> ((neighbor.v_face_spec() == face.u_face_spec()
            || neighbor.v_face_spec() == face.v_face_spec()) <==> edge_signs(face, neighbor).ve
            == 1),
        edge_signs(face, neighbor).vn != 0 ==> ((neighbor.u_face_spec() == face.u_face_spec()
            || neighbor.u_face_spec() == face.v_face_spec()) <==> edge_signs(face, neighbor).ue
            == 1),
{
    lemma_edge_signs(face, neighbor);
    lemma_dot_axis(face.normal_spec());
    lemma_dot_axis(edge_axis(face, neighbor));
    match face {
        CubeFace::PositiveX => {},
        CubeFace::NegativeX => {},
        CubeFace::PositiveY => {},
        CubeFace::NegativeY => {},
        CubeFace::PositiveZ => {},
        CubeFace::NegativeZ => {},
    }
}

/// The normal of a face is at right angles to the normal of a neighbour and
/// to the edge between them.
pub(crate) proof fn lemma_face_dots(face: CubeFace, neighbor: CubeFace)
    requires
        face.adjacent(neighbor),
    ensures
        dot(neighbor.normal_spec(), neighbor.normal_spec()) == 1,
        dot(neighbor.normal_spec(), face.normal_spec()) == 0,
        dot(neighbor.normal_spec(), edge_axis(face, neighbor)) == 0,
{
    lemma_dot_axis(neighbor.normal_spec());
    lemma_dot_axis(face.normal_spec());
    lemma_dot_axis(edge_axis(face, neighbor));
    match face {
        CubeFace::PositiveX => {},
        CubeFace::NegativeX => {},
        CubeFace::PositiveY => {},
        CubeFace::NegativeY => {},
        CubeFace::PositiveZ => {},
        CubeFace::NegativeZ => {},
    }
}

/// The base and the strides, for each way in which the frame of the neighbour
/// can lie against the face.
pub(crate) proof fn lemma_edge_index_cases(face: CubeFace, neighbor: CubeFace, size: int)
    requires
        face.adjacent(neighbor),
    ensures
        ({
            let s = edge_signs(face, neighbor);
            let base = across_index(face, neighbor, size, 0, 0);
            let main = stride_along(neighbor, size, edge_axis(face, neighbor));
            let cross = stride_along(neighbor, size, scale(-1, face.normal_spec()));
            let last = (size - 1) * size;
            &&& edge_layout(face, neighbor, size) == (base, main, cross)
            &&& s.un == 1 && s.ve == 1 ==> base == size - 1 && main == size && cross == -1
            &&& s.un == 1 && s.ve == -1 ==> base == size - 1 + last && main == -size && cross
                == -1
            &&& s.un == -1 && s.ve == 1 ==> base == 0 && main == size && cross == 1
            &&& s.un == -1 && s.ve == -1 ==> base == last && main == -size && cross == 1
            &&& s.vn == 1 && s.ue == 1 ==> base == last && main == 1 && cross == -size
            &&& s.vn == 1 && s.ue == -1 ==> base == size - 1 + last && main == -1 && cross
                == -size
            &&& s.vn == -1 && s.ue == 1 ==> base == 0 && main == 1 && cross == size
            &&& s.vn == -1 && s.ue == -1 ==> base == size - 1 && main == -1 && cross == size
        }),
{
    let s = edge_signs(face, neighbor);
    lemma_edge_signs(face, neighbor);
    lemma_across_texel(face, neighbor, size, 0, 0);
    lemma_sign_product(size, s.ve);
    lemma_sign_product(size, -s.vn);
    lemma_sign_product(size, s.vn);
    assert(size * 0 == 0) by (nonlinear_arith);
    assert(size * (size - 1) == (size - 1) * size) by (nonlinear_arith);
    assert(size * (size - 1 - 0) == (size - 1) * size) by (nonlinear_arith);
}

/// A stride taken fewer than `size` times stays within one face.
pub(crate) proof fn lemma_stride_bound(neighbor: CubeFace, size: int, dir: Point3, k: int)
    requires
        0 <= k < size,
        -1 <= dot(dir, neighbor.u_vec_spec()) <= 1,
        -1 <= dot(dir, neighbor.v_vec_spec()) <= 1,
    ensures
        -(size * size) <= stride_along(neighbor, size, dir) * k <= size * size,
        -size - 1 <= stride_along(neighbor, size, dir) <= size + 1,
{
    let a = dot(dir, neighbor.u_vec_spec());
    let b = dot(dir, neighbor.v_vec_spec());
    lemma_sign_product(size, b);
    let st = stride_along(neighbor, size, dir);
    assert(-(size * size) <= st * k <= size * size) by (nonlinear_arith)
        requires
            0 <= k < size,
            -size - 1 <= st <= size + 1,
    ;
}

} // verus!
