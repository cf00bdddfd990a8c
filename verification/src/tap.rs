//! Taps: the places where a kernel laid across a face takes its samples, on
//! the face and past its edges.

use crate::blur::FaceAxis;
use crate::cubemap::{CubeFace, lemma_neighbours, lemma_neighbours_adjacent};
use crate::edge::{
    across_center, across_index, across_texel, edge_axis, edge_signs, lemma_across_bounds,
    lemma_across_on_face, lemma_across_texel, map_edge_index, texel_center,
};
use crate::raster::{lemma_index_bound, texel_index};
use crate::vector::{
    lemma_dot_axis, lemma_scale_add, lemma_scale_plus, lemma_scale_scale, lemma_sign_product, plus,
    scale,
};
use vstd::prelude::*;

verus! {

/// One of the four edges of a face, named by the axis that leaves the face
/// through it.
#[derive(Debug, Copy, Clone, PartialEq, Eq, Structural)]
pub enum FaceEdge {
    PositiveU,
    NegativeU,
    PositiveV,
    NegativeV,
}

impl FaceEdge {
    /// The face on the other side of this edge of `face`.
    pub open spec fn neighbor_spec(self, face: CubeFace) -> CubeFace {
        match self {
            FaceEdge::PositiveU => face.u_face_spec(),
            FaceEdge::NegativeU => face.u_face_spec().opposite_spec(),
            FaceEdge::PositiveV => face.v_face_spec(),
            FaceEdge::NegativeV => face.v_face_spec().opposite_spec(),
        }
    }

    /// The face on the other side of this edge of `face`.
    pub fn neighbor(self, face: CubeFace) -> (r: CubeFace)
        ensures
            r == self.neighbor_spec(face),
            face.adjacent(r),
    {
        let r = match self {
            FaceEdge::PositiveU => face.u_face(),
            FaceEdge::NegativeU => face.u_face().opposite(),
            FaceEdge::PositiveV => face.v_face(),
            FaceEdge::NegativeV => face.v_face().opposite(),
        };
        proof {
            lemma_neighbours_adjacent(face, r);
        }
        r
    }
}

/// Where a sample of the kernel is taken, seen from the face that is being
/// blurred.
#[derive(Debug, Copy, Clone, PartialEq, Eq, Structural)]
pub enum Tap {
    /// The texel `(x, y)` of the face itself.
    Inside { x: usize, y: usize },
    /// A texel of the neighbour across `edge`: at position `along` on the edge,
    /// counted along the axis of the face that runs beside it, and `depth`
    /// texels past it.
    Across { edge: FaceEdge, along: isize, depth: isize },
}

/// A texel of the cube: a face and an index into its storage.
#[derive(Debug, Copy, Clone, PartialEq, Eq, Structural)]
pub struct Address {
    pub face: CubeFace,
    pub index: usize,
}

impl Tap {
    /// Whether the tap names a texel of a cube with faces `size` wide.
    pub open spec fn in_range(self, size: int) -> bool {
        match self {
            Tap::Inside { x, y } => x < size && y < size,
            Tap::Across { edge, along, depth } => 0 <= along < size && 0 <= depth < size,
        }
    }

    /// The face that holds the texel.
    pub open spec fn face_spec(self, face: CubeFace) -> CubeFace {
        match self {
            Tap::Inside { x, y } => face,
            Tap::Across { edge, along, depth } => edge.neighbor_spec(face),
        }
    }

    /// The texel in the coordinates of the face that holds it.
    pub open spec fn texel_spec(self, face: CubeFace, size: int) -> (int, int) {
        match self {
            Tap::Inside { x, y } => (x as int, y as int),
            Tap::Across { edge, along, depth } => across_texel(
                edge_signs(face, edge.neighbor_spec(face)),
                size,
                along as int,
                depth as int,
            ),
        }
    }

    /// The index of the texel in the storage of its face.
    pub open spec fn index_spec(self, face: CubeFace, size: int) -> int {
        texel_index(size, self.texel_spec(face, size))
    }

    /// The place of the tap in the raster of the face it is taken from,
    /// carried on past the edges of the face.
    pub open spec fn raster_spec(self, size: int) -> (int, int) {
        match self {
            Tap::Inside { x, y } => (x as int, y as int),
            Tap::Across { edge, along, depth } => match edge {
                FaceEdge::PositiveU => (size + depth, along as int),
                FaceEdge::NegativeU => (-1 - depth, along as int),
                FaceEdge::PositiveV => (along as int, size + depth),
                FaceEdge::NegativeV => (along as int, -1 - depth),
            },
        }
    }

    /// By how many half texels the tap lies past the edge of the face it is
    /// taken from.
    pub open spec fn overshoot_spec(self) -> int {
        match self {
            Tap::Inside { x, y } => 0,
            Tap::Across { edge, along, depth } => 2 * depth + 1,
        }
    }

    /// Finds the texel that the tap names when it is taken from `face`, or
    /// nothing if it names none.
    pub fn resolve(self, face: CubeFace, size: usize) -> (r: Option<Address>)
        requires
            1 <= size,
            size * size <= isize::MAX,
        ensures
            r.is_some() <==> self.in_range(size as int),
            r.is_some() ==> r.unwrap().face == self.face_spec(face) && r.unwrap().index
                == self.index_spec(face, size as int) && r.unwrap().index < size * size,
    {
        assert(size <= size * size) by (nonlinear_arith)
            requires
                1 <= size,
        ;
        match self {
            Tap::Inside { x, y } => {
                if x < size && y < size {
                    proof {
                        lemma_index_bound(size as int, x as int, y as int);
                    }
                    Some(Address { face, index: x + size * y })
                } else {
                    None
                }
            },
            Tap::Across { edge, along, depth } => {
                let n: isize = size as isize;
                if 0 <= along && along < n && 0 <= depth && depth < n {
                    let neighbor = edge.neighbor(face);
                    proof {
                        lemma_across_texel(face, neighbor, size as int, along as int, depth as int);
                    }
                    let index = across(face, neighbor, size, along, depth);
                    Some(Address { face: neighbor, index })
                } else {
                    None
                }
            },
        }
    }
}

impl Tap {
    /// A tap of a radial kernel that lies on the face: `major` is counted
    /// along the axis on which the kernel advances faster, which is `v` if
    /// `major_y` and `u` if not, and `minor` along the other.
    pub fn radial_inside(major_y: bool, major: usize, minor: usize) -> (tap: Tap)
        ensures
            tap == (if major_y {
                Tap::Inside { x: minor, y: major }
            } else {
                Tap::Inside { x: major, y: minor }
            }),
    {
        if major_y {
            Tap::Inside { x: minor, y: major }
        } else {
            Tap::Inside { x: major, y: minor }
        }
    }

    /// A tap of a radial kernel that has left the face: through the edge at
    /// the end of the major axis towards which the kernel advances, at
    /// position `minor` on that edge, `depth` texels past it.
    pub fn radial_outside(major_y: bool, positive: bool, minor: isize, depth: isize) -> (tap: Tap)
        ensures
            tap == (Tap::Across {
                edge: if major_y {
                    if positive {
                        FaceEdge::PositiveV
                    } else {
                        FaceEdge::NegativeV
                    }
                } else {
                    if positive {
                        FaceEdge::PositiveU
                    } else {
                        FaceEdge::NegativeU
                    }
                },
                along: minor,
                depth,
            }),
    {
        let edge = if major_y {
            if positive {
                FaceEdge::PositiveV
            } else {
                FaceEdge::NegativeV
            }
        } else {
            if positive {
                FaceEdge::PositiveU
            } else {
                FaceEdge::NegativeU
            }
        };
        Tap::Across { edge, along: minor, depth }
    }

    /// A tap of a directional kernel that lies on the face: at `pos` along
    /// the axis of the kernel, on the line `line` of texels.
    pub fn axial_inside(axis: FaceAxis, pos: usize, line: usize) -> (tap: Tap)
        ensures
            tap == (match axis {
                FaceAxis::U => Tap::Inside { x: pos, y: line },
                FaceAxis::V => Tap::Inside { x: line, y: pos },
            }),
    {
        match axis {
            FaceAxis::U => Tap::Inside { x: pos, y: line },
            FaceAxis::V => Tap::Inside { x: line, y: pos },
        }
    }

    /// A tap of a directional kernel that has left the face, through the edge
    /// at the positive or the negative end of the axis of the kernel.
    pub fn axial_outside(axis: FaceAxis, positive: bool, along: isize, depth: isize) -> (tap: Tap)
        ensures
            tap == (Tap::Across {
                edge: match axis {
                    FaceAxis::U => if positive {
                        FaceEdge::PositiveU
                    } else {
                        FaceEdge::NegativeU
                    },
                    FaceAxis::V => if positive {
                        FaceEdge::PositiveV
                    } else {
                        FaceEdge::NegativeV
                    },
                },
                along,
                depth,
            }),
    {
        let edge = match axis {
            FaceAxis::U => if positive {
                FaceEdge::PositiveU
            } else {
                FaceEdge::NegativeU
            },
            FaceAxis::V => if positive {
                FaceEdge::PositiveV
            } else {
                FaceEdge::NegativeV
            },
        };
        Tap::Across { edge, along, depth }
    }
}

/// The index in the storage of `neighbor` of the texel `depth` texels past the
/// edge of `face`, at position `along` on it.
pub(crate) fn across(
    face: CubeFace,
    neighbor: CubeFace,
    size: usize,
    along: isize,
    depth: isize,
) -> (index: usize)
    requires
        face.adjacent(neighbor),
        size * size <= isize::MAX,
        0 <= along < size,
        0 <= depth < size,
    ensures
        index == across_index(face, neighbor, size as int, along as int, depth as int),
        index < size * size,
{
    proof {
        lemma_neighbours(neighbor, face);
    }
    let (base, main, cross) = map_edge_index(neighbor, face, size);
    proof {
        lemma_across_bounds(face, neighbor, size as int, along as int, depth as int);
        lemma_across_bounds(face, neighbor, size as int, along as int, 0);
        assert(cross * 0 == 0);
    }
    let index = base + main * along + cross * depth;
    index as usize
}

/// The texel that a tap resolves to is the one met by carrying the raster of
/// the face on past its edge and folding the part past the edge down onto the
/// neighbour: the centre of the texel and the place in the carried-on raster
/// differ by the overshoot, taken back along the normal of the neighbour and
/// down along the inward normal of the face.
pub proof fn lemma_tap_folds(tap: Tap, face: CubeFace, size: int)
    requires
        tap.in_range(size),
    ensures
        ({
            let t = tap.texel_spec(face, size);
            let r = tap.raster_spec(size);
            let beside = tap.face_spec(face);
            &&& 0 <= t.0 < size
            &&& 0 <= t.1 < size
            &&& 0 <= tap.index_spec(face, size) < size * size
            &&& plus(
                texel_center(beside, size, t.0, t.1),
                scale(tap.overshoot_spec(), plus(beside.normal_spec(), face.normal_spec())),
            ) == texel_center(face, size, r.0, r.1)
        }),
{
    let t = tap.texel_spec(face, size);
    lemma_sign_product(0, 0);
    match tap {
        Tap::Inside { x, y } => {
            lemma_index_bound(size, t.0, t.1);
            assert(scale(0, plus(face.normal_spec(), face.normal_spec())) == (0int, 0int, 0int))
                by {
                let w = plus(face.normal_spec(), face.normal_spec());
                lemma_sign_product(w.0, 0);
                lemma_sign_product(w.1, 0);
                lemma_sign_product(w.2, 0);
            }
        },
        Tap::Across { edge, along, depth } => {
            let beside = edge.neighbor_spec(face);
            lemma_neighbours_adjacent(face, beside);
            lemma_across_texel(face, beside, size, along as int, depth as int);
            lemma_across_on_face(face, beside, size, along as int, depth as int);
            lemma_index_bound(size, t.0, t.1);
            lemma_raster_past_edge(face, edge, size, along as int, depth as int);
        },
    }
}

/// The place past an edge in the carried-on raster of a face, set against the
/// point reached by folding.
pub(crate) proof fn lemma_raster_past_edge(
    face: CubeFace,
    edge: FaceEdge,
    size: int,
    along: int,
    depth: int,
)
    ensures
        ({
            let tap = Tap::Across { edge, along: along as isize, depth: depth as isize };
            let beside = edge.neighbor_spec(face);
            let r = (match edge {
                FaceEdge::PositiveU => (size + depth, along),
                FaceEdge::NegativeU => (-1 - depth, along),
                FaceEdge::PositiveV => (along, size + depth),
                FaceEdge::NegativeV => (along, -1 - depth),
            });
            plus(
                across_center(face, beside, size, along, depth),
                scale(2 * depth + 1, plus(beside.normal_spec(), face.normal_spec())),
            ) == texel_center(face, size, r.0, r.1)
        }),
{
    let beside = edge.neighbor_spec(face);
    let n = face.normal_spec();
    let u = face.u_vec_spec();
    let v = face.v_vec_spec();
    let m = beside.normal_spec();
    let e = edge_axis(face, beside);
    let k = 2 * depth + 1;
    let j = 2 * along + 1 - size;
    lemma_edge_frame(face, edge);
    lemma_scale_plus(k, m, n);
    lemma_scale_add(size - k, k, n);
    lemma_scale_add(size, k, m);
    match edge {
        FaceEdge::PositiveU => {},
        FaceEdge::NegativeU => {
            lemma_scale_scale(size + k, -1, u);
            lemma_sign_product(size + k, -1);
        },
        FaceEdge::PositiveV => {},
        FaceEdge::NegativeV => {
            lemma_scale_scale(size + k, -1, v);
            lemma_sign_product(size + k, -1);
        },
    }
}

/// The normal of the neighbour across an edge, and the axis along the edge,
/// in the frame of the face.
pub(crate) proof fn lemma_edge_frame(face: CubeFace, edge: FaceEdge)
    ensures
        ({
            let m = edge.neighbor_spec(face).normal_spec();
            let e = edge_axis(face, edge.neighbor_spec(face));
            let u = face.u_vec_spec();
            let v = face.v_vec_spec();
            match edge {
                FaceEdge::PositiveU => m == u && e == v,
                FaceEdge::NegativeU => m == scale(-1, u) && e == v,
                FaceEdge::PositiveV => m == v && e == u,
                FaceEdge::NegativeV => m == scale(-1, v) && e == u,
            }
        }),
{
    lemma_dot_axis(face.u_vec_spec());
    match face {
        CubeFace::PositiveX => {},
        CubeFace::NegativeX => {},
        CubeFace::PositiveY => {},
        CubeFace::NegativeY => {},
        CubeFace::PositiveZ => {},
        CubeFace::NegativeZ => {},
    }
}

} // verus!
