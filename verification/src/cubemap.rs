//! The six faces of the cube, their local axes and their neighbours.
//!
//! Every face carries a left-handed frame of unit vectors: `u` runs along its
//! rows, `v` along its columns and the normal points out of the cube. All of
//! it is integer geometry, so the adjacency of the faces can be stated and
//! proved exactly.

use crate::vector::{lemma_dot_axis, cross, dot, lemma_unit_products, plus, Point3, Point4, scale};
use vstd::prelude::*;

verus! {

/// A vector of three integers.
#[derive(Debug, Copy, Clone, PartialEq, Eq, Structural)]
pub struct Vector3 {
    pub x: i32,
    pub y: i32,
    pub z: i32,
}

/// A vector of four integers.
#[derive(Debug, Copy, Clone, PartialEq, Eq, Structural)]
pub struct Vector4 {
    pub x: i32,
    pub y: i32,
    pub z: i32,
    pub w: i32,
}

/// A 4x4 integer matrix, stored by columns.
#[derive(Debug, Copy, Clone, PartialEq, Eq, Structural)]
pub struct Matrix4 {
    pub x: Vector4,
    pub y: Vector4,
    pub z: Vector4,
    pub w: Vector4,
}

impl Vector3 {
    /// The vector as a point of space.
    pub open spec fn view(&self) -> Point3 {
        (self.x as int, self.y as int, self.z as int)
    }
}

impl Vector4 {
    /// The vector as a point with a fourth coordinate.
    pub open spec fn view(&self) -> Point4 {
        (self.x as int, self.y as int, self.z as int, self.w as int)
    }
}

impl Matrix4 {
    /// The matrix applied to a column vector.
    pub open spec fn apply(&self, p: Point4) -> Point4 {
        (
            self.x.x * p.0 + self.y.x * p.1 + self.z.x * p.2 + self.w.x * p.3,
            self.x.y * p.0 + self.y.y * p.1 + self.z.y * p.2 + self.w.y * p.3,
            self.x.z * p.0 + self.y.z * p.1 + self.z.z * p.2 + self.w.z * p.3,
            self.x.w * p.0 + self.y.w * p.1 + self.z.w * p.2 + self.w.w * p.3,
        )
    }
}

/// One face of the cube, named by the axis its normal points along.
#[derive(Debug, Copy, Clone, PartialEq, Eq, Hash, Structural)]
pub enum CubeFace {
    PositiveX,
    NegativeX,
    PositiveY,
    NegativeY,
    PositiveZ,
    NegativeZ,
}

/// The matrices that take a direction in space to a face's clip space and
/// back.
#[derive(Debug, Copy, Clone, PartialEq, Eq, Structural)]
pub struct CubeFaceInfo {
    pub view_proj_mat: Matrix4,
    pub inv_view_proj_mat: Matrix4,
}

/// The faces in their fixed order.
pub fn cube_faces() -> (faces: [CubeFace; 6])
    ensures
        forall|i: int| 0 <= i < 6 ==> (#[trigger] faces@[i]).ordinal() == i,
{
    [
        CubeFace::PositiveX,
        CubeFace::NegativeX,
        CubeFace::PositiveY,
        CubeFace::NegativeY,
        CubeFace::PositiveZ,
        CubeFace::NegativeZ,
    ]
}

impl CubeFace {
    /// The position of the face in the fixed order.
    pub open spec fn ordinal(self) -> int {
        match self {
            CubeFace::PositiveX => 0,
            CubeFace::NegativeX => 1,
            CubeFace::PositiveY => 2,
            CubeFace::NegativeY => 3,
            CubeFace::PositiveZ => 4,
            CubeFace::NegativeZ => 5,
        }
    }

    /// The outward normal of the face.
    pub open spec fn normal_spec(self) -> Point3 {
        match self {
            CubeFace::PositiveX => (1, 0, 0),
            CubeFace::NegativeX => (-1, 0, 0),
            CubeFace::PositiveY => (0, 1, 0),
            CubeFace::NegativeY => (0, -1, 0),
            CubeFace::PositiveZ => (0, 0, 1),
            CubeFace::NegativeZ => (0, 0, -1),
        }
    }

    /// The direction in which the face's columns are counted.
    pub open spec fn u_vec_spec(self) -> Point3 {
        match self {
            CubeFace::PositiveX => (0, 0, -1),
            CubeFace::NegativeX => (0, 0, 1),
            CubeFace::PositiveY => (1, 0, 0),
            CubeFace::NegativeY => (1, 0, 0),
            CubeFace::PositiveZ => (1, 0, 0),
            CubeFace::NegativeZ => (-1, 0, 0),
        }
    }

    /// The direction in which the face's rows are counted.
    pub open spec fn v_vec_spec(self) -> Point3 {
        match self {
            CubeFace::PositiveX => (0, -1, 0),
            CubeFace::NegativeX => (0, -1, 0),
            CubeFace::PositiveY => (0, 0, 1),
            CubeFace::NegativeY => (0, 0, -1),
            CubeFace::PositiveZ => (0, -1, 0),
            CubeFace::NegativeZ => (0, -1, 0),
        }
    }

    /// The face on the other side of the cube.
    pub open spec fn opposite_spec(self) -> CubeFace {
        match self {
            CubeFace::PositiveX => CubeFace::NegativeX,
            CubeFace::NegativeX => CubeFace::PositiveX,
            CubeFace::PositiveY => CubeFace::NegativeY,
            CubeFace::NegativeY => CubeFace::PositiveY,
            CubeFace::PositiveZ => CubeFace::NegativeZ,
            CubeFace::NegativeZ => CubeFace::PositiveZ,
        }
    }

    /// Whether the normal points along the positive direction of its axis.
    pub open spec fn is_positive(self) -> bool {
        self.ordinal() % 2 == 0
    }

    /// The positive face of the same axis.
    pub open spec fn abs_spec(self) -> CubeFace {
        if self.is_positive() {
            self
        } else {
            self.opposite_spec()
        }
    }

    /// The face whose normal is the given unit vector along an axis.
    pub open spec fn facing(n: Point3) -> CubeFace {
        if n == (1int, 0int, 0int) {
            CubeFace::PositiveX
        } else if n == (-1int, 0int, 0int) {
            CubeFace::NegativeX
        } else if n == (0int, 1int, 0int) {
            CubeFace::PositiveY
        } else if n == (0int, -1int, 0int) {
            CubeFace::NegativeY
        } else if n == (0int, 0int, 1int) {
            CubeFace::PositiveZ
        } else {
            CubeFace::NegativeZ
        }
    }

    /// The face met when leaving this one in the direction of `u`.
    pub open spec fn u_face_spec(self) -> CubeFace {
        Self::facing(self.u_vec_spec())
    }

    /// The face met when leaving this one in the direction of `v`.
    pub open spec fn v_face_spec(self) -> CubeFace {
        Self::facing(self.v_vec_spec())
    }

    /// Whether the two faces share an edge: they lie across different axes.
    pub open spec fn adjacent(self, other: CubeFace) -> bool {
        self.abs_spec() != other.abs_spec()
    }

    /// The face at a place in the fixed order, if there is one.
    pub fn from_ordinal(i: usize) -> (face: Option<CubeFace>)
        ensures
            i < 6 ==> face.is_some() && face.unwrap().ordinal() == i,
            i >= 6 ==> face.is_none(),
    {
        match i {
            0 => Some(CubeFace::PositiveX),
            1 => Some(CubeFace::NegativeX),
            2 => Some(CubeFace::PositiveY),
            3 => Some(CubeFace::NegativeY),
            4 => Some(CubeFace::PositiveZ),
            5 => Some(CubeFace::NegativeZ),
            _ => None,
        }
    }

    /// The place of the face in the fixed order.
    pub fn as_ordinal(&self) -> (i: usize)
        ensures
            i == self.ordinal(),
    {
        match self {
            CubeFace::PositiveX => 0,
            CubeFace::NegativeX => 1,
            CubeFace::PositiveY => 2,
            CubeFace::NegativeY => 3,
            CubeFace::PositiveZ => 4,
            CubeFace::NegativeZ => 5,
        }
    }

    /// The direction in which the columns of the face are counted.
    pub fn u_vec(&self) -> (r: Vector3)
        ensures
            r@ == self.u_vec_spec(),
    {
        match self {
            CubeFace::PositiveX => Vector3 { x: 0, y: 0, z: -1 },
            CubeFace::NegativeX => Vector3 { x: 0, y: 0, z: 1 },
            CubeFace::PositiveY => Vector3 { x: 1, y: 0, z: 0 },
            CubeFace::NegativeY => Vector3 { x: 1, y: 0, z: 0 },
            CubeFace::PositiveZ => Vector3 { x: 1, y: 0, z: 0 },
            CubeFace::NegativeZ => Vector3 { x: -1, y: 0, z: 0 },
        }
    }

    /// The direction in which the rows of the face are counted.
    pub fn v_vec(&self) -> (r: Vector3)
        ensures
            r@ == self.v_vec_spec(),
    {
        match self {
            CubeFace::PositiveX => Vector3 { x: 0, y: -1, z: 0 },
            CubeFace::NegativeX => Vector3 { x: 0, y: -1, z: 0 },
            CubeFace::PositiveY => Vector3 { x: 0, y: 0, z: 1 },
            CubeFace::NegativeY => Vector3 { x: 0, y: 0, z: -1 },
            CubeFace::PositiveZ => Vector3 { x: 0, y: -1, z: 0 },
            CubeFace::NegativeZ => Vector3 { x: 0, y: -1, z: 0 },
        }
    }

    /// The outward normal of the face.
    pub fn normal(&self) -> (r: Vector3)
        ensures
            r@ == self.normal_spec(),
    {
        match self {
            CubeFace::PositiveX => Vector3 { x: 1, y: 0, z: 0 },
            CubeFace::NegativeX => Vector3 { x: -1, y: 0, z: 0 },
            CubeFace::PositiveY => Vector3 { x: 0, y: 1, z: 0 },
            CubeFace::NegativeY => Vector3 { x: 0, y: -1, z: 0 },
            CubeFace::PositiveZ => Vector3 { x: 0, y: 0, z: 1 },
            CubeFace::NegativeZ => Vector3 { x: 0, y: 0, z: -1 },
        }
    }

    /// The face on the other side of the cube: its normal is the negated
    /// normal of this one.
    pub fn opposite(&self) -> (r: CubeFace)
        ensures
            r == self.opposite_spec(),
            r.normal_spec() == scale(-1, self.normal_spec()),
    {
        match self {
            CubeFace::PositiveX => CubeFace::NegativeX,
            CubeFace::NegativeX => CubeFace::PositiveX,
            CubeFace::PositiveY => CubeFace::NegativeY,
            CubeFace::NegativeY => CubeFace::PositiveY,
            CubeFace::PositiveZ => CubeFace::NegativeZ,
            CubeFace::NegativeZ => CubeFace::PositiveZ,
        }
    }

    /// The positive face of the same axis.
    pub fn abs(&self) -> (r: CubeFace)
        ensures
            r == self.abs_spec(),
            r.is_positive(),
            r == *self || r == self.opposite_spec(),
    {
        match self {
            CubeFace::PositiveX | CubeFace::NegativeX => CubeFace::PositiveX,
            CubeFace::PositiveY | CubeFace::NegativeY => CubeFace::PositiveY,
            CubeFace::PositiveZ | CubeFace::NegativeZ => CubeFace::PositiveZ,
        }
    }

    /// The neighbour across the edge at the end of the rows: the face whose
    /// normal is this face's `u`.
    pub fn u_face(&self) -> (r: CubeFace)
        ensures
            r == self.u_face_spec(),
            r.normal_spec() == self.u_vec_spec(),
    {
        match self {
            CubeFace::PositiveX => CubeFace::NegativeZ,
            CubeFace::NegativeX => CubeFace::PositiveZ,
            CubeFace::PositiveY => CubeFace::PositiveX,
            CubeFace::NegativeY => CubeFace::PositiveX,
            CubeFace::PositiveZ => CubeFace::PositiveX,
            CubeFace::NegativeZ => CubeFace::NegativeX,
        }
    }

    /// The neighbour across the edge at the end of the columns: the face whose
    /// normal is this face's `v`.
    pub fn v_face(&self) -> (r: CubeFace)
        ensures
            r == self.v_face_spec(),
            r.normal_spec() == self.v_vec_spec(),
    {
        match self {
            CubeFace::PositiveX => CubeFace::NegativeY,
            CubeFace::NegativeX => CubeFace::NegativeY,
            CubeFace::PositiveY => CubeFace::PositiveZ,
            CubeFace::NegativeY => CubeFace::NegativeZ,
            CubeFace::PositiveZ => CubeFace::NegativeY,
            CubeFace::NegativeZ => CubeFace::NegativeY,
        }
    }

    /// The matrix that takes a direction `p` (with a fourth coordinate `w`) to
    /// `(u . p, v . p, w, n . p)`, and its inverse.
    pub fn info(&self) -> (r: CubeFaceInfo)
        ensures
            forall|p: Point4|
                #[trigger] r.view_proj_mat.apply(p) == (
                    dot(self.u_vec_spec(), (p.0, p.1, p.2)),
                    dot(self.v_vec_spec(), (p.0, p.1, p.2)),
                    p.3,
                    dot(self.normal_spec(), (p.0, p.1, p.2)),
                ),
            forall|p: Point4| #[trigger]
                r.inv_view_proj_mat.apply(r.view_proj_mat.apply(p)) == p,
            forall|p: Point4| #[trigger]
                r.view_proj_mat.apply(r.inv_view_proj_mat.apply(p)) == p,
    {
        let u = self.u_vec();
        let v = self.v_vec();
        let n = self.normal();
        let r = CubeFaceInfo {
            view_proj_mat: Matrix4 {
                x: Vector4 { x: u.x, y: v.x, z: 0, w: n.x },
                y: Vector4 { x: u.y, y: v.y, z: 0, w: n.y },
                z: Vector4 { x: u.z, y: v.z, z: 0, w: n.z },
                w: Vector4 { x: 0, y: 0, z: 1, w: 0 },
            },
            inv_view_proj_mat: Matrix4 {
                x: Vector4 { x: u.x, y: u.y, z: u.z, w: 0 },
                y: Vector4 { x: v.x, y: v.y, z: v.z, w: 0 },
                z: Vector4 { x: 0, y: 0, z: 0, w: 1 },
                w: Vector4 { x: n.x, y: n.y, z: n.z, w: 0 },
            },
        };
        proof {
            lemma_unit_products();
            assert(u@ == self.u_vec_spec() && v@ == self.v_vec_spec() && n@
                == self.normal_spec());
            assert forall|p: Point4| #[trigger]
                r.inv_view_proj_mat.apply(r.view_proj_mat.apply(p)) == p by {
                lemma_frame_entries(u@, v@, n@, (p.0, p.1, p.2));
            }
            assert forall|p: Point4| #[trigger]
                r.view_proj_mat.apply(r.inv_view_proj_mat.apply(p)) == p by {
                lemma_frame_entries(u@, v@, n@, (p.0, p.1, p.3));
            }
        }
        r
    }
}

/// The face at a place in the fixed order.
pub open spec fn face_at(ordinal: int) -> CubeFace {
    if ordinal == 0 {
        CubeFace::PositiveX
    } else if ordinal == 1 {
        CubeFace::NegativeX
    } else if ordinal == 2 {
        CubeFace::PositiveY
    } else if ordinal == 3 {
        CubeFace::NegativeY
    } else if ordinal == 4 {
        CubeFace::PositiveZ
    } else {
        CubeFace::NegativeZ
    }
}

/// Whether three vectors are the frame of one of the faces.
pub(crate) open spec fn is_frame(u: Point3, v: Point3, n: Point3) -> bool {
    exists|face: CubeFace|
        u == #[trigger] face.u_vec_spec() && v == face.v_vec_spec() && n == face.normal_spec()
}

/// A frame of unit vectors at right angles resolves every vector into its
/// three components, and its components into the vector.
pub(crate) proof fn lemma_frame_entries(u: Point3, v: Point3, n: Point3, p: Point3)
    requires
        is_frame(u, v, n),
    ensures
        plus(plus(scale(dot(u, p), u), scale(dot(v, p), v)), scale(dot(n, p), n)) == p,
        dot(u, plus(plus(scale(p.0, u), scale(p.1, v)), scale(p.2, n))) == p.0,
        dot(v, plus(plus(scale(p.0, u), scale(p.1, v)), scale(p.2, n))) == p.1,
        dot(n, plus(plus(scale(p.0, u), scale(p.1, v)), scale(p.2, n))) == p.2,
{
    lemma_unit_products();
    let face = choose|face: CubeFace|
        u == #[trigger] face.u_vec_spec() && v == face.v_vec_spec() && n == face.normal_spec();
    match face {
        CubeFace::PositiveX => {},
        CubeFace::NegativeX => {},
        CubeFace::PositiveY => {},
        CubeFace::NegativeY => {},
        CubeFace::PositiveZ => {},
        CubeFace::NegativeZ => {},
    }
}

/// Every point is the sum of its parts along the three axes of a face.
pub proof fn lemma_frame_resolves(face: CubeFace, p: Point3)
    ensures
        plus(
            plus(
                scale(dot(face.normal_spec(), p), face.normal_spec()),
                scale(dot(face.u_vec_spec(), p), face.u_vec_spec()),
            ),
            scale(dot(face.v_vec_spec(), p), face.v_vec_spec()),
        ) == p,
{
    lemma_frame_entries(face.u_vec_spec(), face.v_vec_spec(), face.normal_spec(), p);
}

/// The three axes of a face are unit vectors at right angles, and the frame
/// is left-handed: `u x v` is the inward normal.
pub proof fn lemma_face_frame(face: CubeFace)
    ensures
        dot(face.u_vec_spec(), face.u_vec_spec()) == 1,
        dot(face.v_vec_spec(), face.v_vec_spec()) == 1,
        dot(face.normal_spec(), face.normal_spec()) == 1,
        dot(face.u_vec_spec(), face.v_vec_spec()) == 0,
        dot(face.u_vec_spec(), face.normal_spec()) == 0,
        dot(face.v_vec_spec(), face.normal_spec()) == 0,
        cross(face.u_vec_spec(), face.v_vec_spec()) == scale(-1, face.normal_spec()),
{
}

/// A face is told by its normal, and by its ordinal.
pub proof fn lemma_face_identity(a: CubeFace, b: CubeFace)
    ensures
        a.normal_spec() == b.normal_spec() ==> a == b,
        a.ordinal() == b.ordinal() ==> a == b,
        CubeFace::facing(a.normal_spec()) == a,
        0 <= a.ordinal() < 6,
{
}

/// The four neighbours across the edges of a face are the four faces that
/// share an edge with it, each once; they are the faces whose normals are at
/// right angles to the normal of the face.
pub proof fn lemma_neighbours(face: CubeFace, other: CubeFace)
    ensures
        face.adjacent(other) <==> (other == face.u_face_spec() || other
            == face.u_face_spec().opposite_spec() || other == face.v_face_spec() || other
            == face.v_face_spec().opposite_spec()),
        face.adjacent(other) <==> dot(face.normal_spec(), other.normal_spec()) == 0,
        face.adjacent(other) <==> other.adjacent(face),
        face.u_face_spec().abs_spec() != face.v_face_spec().abs_spec(),
{
    lemma_dot_axis(other.normal_spec());
    match face {
        CubeFace::PositiveX => {},
        CubeFace::NegativeX => {},
        CubeFace::PositiveY => {},
        CubeFace::NegativeY => {},
        CubeFace::PositiveZ => {},
        CubeFace::NegativeZ => {},
    }
}

/// The faces across the four edges of a face share an edge with it.
pub proof fn lemma_neighbours_adjacent(face: CubeFace, neighbor: CubeFace)
    requires
        neighbor == face.u_face_spec() || neighbor == face.u_face_spec().opposite_spec()
            || neighbor == face.v_face_spec() || neighbor == face.v_face_spec().opposite_spec(),
    ensures
        face.adjacent(neighbor),
{
}

} // verus!
