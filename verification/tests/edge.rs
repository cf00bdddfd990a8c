use envmapgen::blur::FaceAxis;
use envmapgen::cubemap::{cube_faces, CubeFace};
use envmapgen::edge::map_edge_index;
use envmapgen::tap::{Address, FaceEdge, Tap};

/// The centre of a texel, in half texels from the centre of the cube.
fn center(face: CubeFace, size: i32, x: i32, y: i32) -> [i32; 3] {
    let n = face.normal();
    let u = face.u_vec();
    let v = face.v_vec();
    let a = 2 * x + 1 - size;
    let b = 2 * y + 1 - size;
    [size * n.x + a * u.x + b * v.x, size * n.y + a * u.y + b * v.y, size * n.z + a * u.z + b * v.z]
}

#[test]
fn the_edge_of_a_neighbour_is_a_base_and_two_strides() {
    assert_eq!(map_edge_index(CubeFace::NegativeZ, CubeFace::PositiveX, 4), (0, 4, 1));
    assert_eq!(map_edge_index(CubeFace::PositiveY, CubeFace::PositiveX, 4), (15, -4, -1));
    assert_eq!(map_edge_index(CubeFace::PositiveX, CubeFace::PositiveY, 4), (3, -1, 4));
    assert_eq!(map_edge_index(CubeFace::NegativeY, CubeFace::PositiveX, 4), (3, 4, -1));
    assert_eq!(map_edge_index(CubeFace::PositiveZ, CubeFace::NegativeY, 4), (12, 1, -4));
    assert_eq!(map_edge_index(CubeFace::PositiveX, CubeFace::PositiveZ, 1), (0, 1, 1));
    assert_eq!(map_edge_index(CubeFace::PositiveZ, CubeFace::PositiveX, 64), (63, 64, -1));
}

#[test]
fn the_texel_past_an_edge_is_the_texel_met_around_the_corner() {
    let size = 5;
    let edges =
        [FaceEdge::PositiveU, FaceEdge::NegativeU, FaceEdge::PositiveV, FaceEdge::NegativeV];
    for face in cube_faces().iter() {
        for edge in edges.iter() {
            let neighbor = edge.neighbor(*face);
            let (base, main, cross) = map_edge_index(neighbor, *face, size);
            for along in 0..size as isize {
                for depth in 0..size as isize {
                    let index = base + main * along + cross * depth;
                    assert!(0 <= index && index < (size * size) as isize);
                    let tap = Tap::Across { edge: *edge, along, depth };
                    assert_eq!(
                        tap.resolve(*face, size),
                        Some(Address { face: neighbor, index: index as usize })
                    );
                    // Where the raster of the face would have the texel, carried on
                    // past the edge.
                    let (x, y) = match edge {
                        FaceEdge::PositiveU => (size as isize + depth, along),
                        FaceEdge::NegativeU => (-1 - depth, along),
                        FaceEdge::PositiveV => (along, size as isize + depth),
                        FaceEdge::NegativeV => (along, -1 - depth),
                    };
                    let flat = center(*face, size as i32, x as i32, y as i32);
                    let met = center(
                        neighbor,
                        size as i32,
                        (index as usize % size) as i32,
                        (index as usize / size) as i32,
                    );
                    let past = 2 * depth as i32 + 1;
                    let n = face.normal();
                    let m = neighbor.normal();
                    assert_eq!(
                        [
                            met[0] + past * (n.x + m.x),
                            met[1] + past * (n.y + m.y),
                            met[2] + past * (n.z + m.z)
                        ],
                        flat
                    );
                }
            }
        }
    }
}

#[test]
fn texels_on_either_side_of_an_edge_touch() {
    let size = 8;
    let edges =
        [FaceEdge::PositiveU, FaceEdge::NegativeU, FaceEdge::PositiveV, FaceEdge::NegativeV];
    for face in cube_faces().iter() {
        for edge in edges.iter() {
            for along in 0..size as isize {
                let (x, y) = match edge {
                    FaceEdge::PositiveU => (size as isize - 1, along),
                    FaceEdge::NegativeU => (0, along),
                    FaceEdge::PositiveV => (along, size as isize - 1),
                    FaceEdge::NegativeV => (along, 0),
                };
                let own = center(*face, size as i32, x as i32, y as i32);
                let address =
                    Tap::Across { edge: *edge, along, depth: 0 }.resolve(*face, size).unwrap();
                let met = center(
                    address.face,
                    size as i32,
                    (address.index % size) as i32,
                    (address.index / size) as i32,
                );
                let apart: i32 = (0..3).map(|k| (own[k] - met[k]).abs()).sum();
                assert_eq!(apart, 2);
            }
        }
    }
}

#[test]
fn taps_name_texels_only_within_the_faces() {
    let face = CubeFace::NegativeZ;
    assert_eq!(
        Tap::Inside { x: 2, y: 1 }.resolve(face, 3),
        Some(Address { face, index: 5 })
    );
    assert_eq!(Tap::Inside { x: 3, y: 0 }.resolve(face, 3), None);
    assert_eq!(Tap::Inside { x: 0, y: 3 }.resolve(face, 3), None);
    assert_eq!(Tap::Inside { x: usize::MAX, y: usize::MAX }.resolve(face, 3), None);
    let edge = FaceEdge::PositiveV;
    assert!(Tap::Across { edge, along: 2, depth: 2 }.resolve(face, 3).is_some());
    assert_eq!(Tap::Across { edge, along: 3, depth: 0 }.resolve(face, 3), None);
    assert_eq!(Tap::Across { edge, along: 0, depth: 3 }.resolve(face, 3), None);
    assert_eq!(Tap::Across { edge, along: -1, depth: 0 }.resolve(face, 3), None);
    assert_eq!(Tap::Across { edge, along: 0, depth: -1 }.resolve(face, 3), None);
    assert_eq!(Tap::Across { edge, along: isize::MIN, depth: isize::MAX }.resolve(face, 3), None);
}

#[test]
fn taps_are_made_from_what_a_kernel_knows() {
    assert_eq!(Tap::radial_inside(false, 3, 5), Tap::Inside { x: 3, y: 5 });
    assert_eq!(Tap::radial_inside(true, 3, 5), Tap::Inside { x: 5, y: 3 });
    assert_eq!(
        Tap::radial_outside(false, true, 4, 1),
        Tap::Across { edge: FaceEdge::PositiveU, along: 4, depth: 1 }
    );
    assert_eq!(
        Tap::radial_outside(false, false, 4, 1),
        Tap::Across { edge: FaceEdge::NegativeU, along: 4, depth: 1 }
    );
    assert_eq!(
        Tap::radial_outside(true, true, 4, 1),
        Tap::Across { edge: FaceEdge::PositiveV, along: 4, depth: 1 }
    );
    assert_eq!(
        Tap::radial_outside(true, false, 4, 1),
        Tap::Across { edge: FaceEdge::NegativeV, along: 4, depth: 1 }
    );
    assert_eq!(Tap::axial_inside(FaceAxis::U, 3, 5), Tap::Inside { x: 3, y: 5 });
    assert_eq!(Tap::axial_inside(FaceAxis::V, 3, 5), Tap::Inside { x: 5, y: 3 });
    assert_eq!(
        Tap::axial_outside(FaceAxis::U, true, -2, 7),
        Tap::Across { edge: FaceEdge::PositiveU, along: -2, depth: 7 }
    );
    assert_eq!(
        Tap::axial_outside(FaceAxis::U, false, 2, 0),
        Tap::Across { edge: FaceEdge::NegativeU, along: 2, depth: 0 }
    );
    assert_eq!(
        Tap::axial_outside(FaceAxis::V, true, 2, 0),
        Tap::Across { edge: FaceEdge::PositiveV, along: 2, depth: 0 }
    );
    assert_eq!(
        Tap::axial_outside(FaceAxis::V, false, 2, 0),
        Tap::Across { edge: FaceEdge::NegativeV, along: 2, depth: 0 }
    );
}

#[test]
fn the_four_edges_lead_to_the_four_neighbours() {
    let face = CubeFace::PositiveY;
    assert_eq!(FaceEdge::PositiveU.neighbor(face), CubeFace::PositiveX);
    assert_eq!(FaceEdge::NegativeU.neighbor(face), CubeFace::NegativeX);
    assert_eq!(FaceEdge::PositiveV.neighbor(face), CubeFace::PositiveZ);
    assert_eq!(FaceEdge::NegativeV.neighbor(face), CubeFace::NegativeZ);
    let face = CubeFace::NegativeX;
    assert_eq!(FaceEdge::PositiveU.neighbor(face), CubeFace::PositiveZ);
    assert_eq!(FaceEdge::NegativeU.neighbor(face), CubeFace::NegativeZ);
    assert_eq!(FaceEdge::PositiveV.neighbor(face), CubeFace::NegativeY);
    assert_eq!(FaceEdge::NegativeV.neighbor(face), CubeFace::PositiveY);
}
