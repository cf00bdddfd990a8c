use envmapgen::cubemap::{cube_faces, CubeFace, Matrix4, Vector3, Vector4};
use envmapgen::Image;

fn apply(m: &Matrix4, p: [i32; 4]) -> [i32; 4] {
    let col = |c: &Vector4| [c.x, c.y, c.z, c.w];
    let (x, y, z, w) = (col(&m.x), col(&m.y), col(&m.z), col(&m.w));
    let mut r = [0; 4];
    for k in 0..4 {
        r[k] = x[k] * p[0] + y[k] * p[1] + z[k] * p[2] + w[k] * p[3];
    }
    r
}

fn dot(a: Vector3, b: Vector3) -> i32 {
    a.x * b.x + a.y * b.y + a.z * b.z
}

#[test]
fn faces_are_in_their_fixed_order() {
    let faces = cube_faces();
    assert_eq!(
        faces,
        [
            CubeFace::PositiveX,
            CubeFace::NegativeX,
            CubeFace::PositiveY,
            CubeFace::NegativeY,
            CubeFace::PositiveZ,
            CubeFace::NegativeZ,
        ]
    );
    for (i, face) in faces.iter().enumerate() {
        assert_eq!(face.as_ordinal(), i);
        assert_eq!(CubeFace::from_ordinal(i), Some(*face));
    }
    assert_eq!(CubeFace::from_ordinal(6), None);
    assert_eq!(CubeFace::from_ordinal(usize::MAX), None);
}

#[test]
fn every_face_has_its_frame() {
    assert_eq!(CubeFace::PositiveX.u_vec(), Vector3 { x: 0, y: 0, z: -1 });
    assert_eq!(CubeFace::PositiveX.v_vec(), Vector3 { x: 0, y: -1, z: 0 });
    assert_eq!(CubeFace::PositiveX.normal(), Vector3 { x: 1, y: 0, z: 0 });
    assert_eq!(CubeFace::NegativeX.u_vec(), Vector3 { x: 0, y: 0, z: 1 });
    assert_eq!(CubeFace::PositiveY.u_vec(), Vector3 { x: 1, y: 0, z: 0 });
    assert_eq!(CubeFace::PositiveY.v_vec(), Vector3 { x: 0, y: 0, z: 1 });
    assert_eq!(CubeFace::NegativeY.v_vec(), Vector3 { x: 0, y: 0, z: -1 });
    assert_eq!(CubeFace::NegativeY.normal(), Vector3 { x: 0, y: -1, z: 0 });
    assert_eq!(CubeFace::PositiveZ.u_vec(), Vector3 { x: 1, y: 0, z: 0 });
    assert_eq!(CubeFace::NegativeZ.u_vec(), Vector3 { x: -1, y: 0, z: 0 });
    assert_eq!(CubeFace::NegativeZ.v_vec(), Vector3 { x: 0, y: -1, z: 0 });
    assert_eq!(CubeFace::NegativeZ.normal(), Vector3 { x: 0, y: 0, z: -1 });
    for face in cube_faces().iter() {
        let (u, v, n) = (face.u_vec(), face.v_vec(), face.normal());
        assert_eq!((dot(u, u), dot(v, v), dot(n, n)), (1, 1, 1));
        assert_eq!((dot(u, v), dot(u, n), dot(v, n)), (0, 0, 0));
        // Left-handed: u x v points into the cube.
        let cross = Vector3 {
            x: u.y * v.z - u.z * v.y,
            y: u.z * v.x - u.x * v.z,
            z: u.x * v.y - u.y * v.x,
        };
        assert_eq!(cross, Vector3 { x: -n.x, y: -n.y, z: -n.z });
    }
}

#[test]
fn neighbours_lie_along_the_axes_of_a_face() {
    assert_eq!(CubeFace::PositiveX.u_face(), CubeFace::NegativeZ);
    assert_eq!(CubeFace::PositiveX.v_face(), CubeFace::NegativeY);
    assert_eq!(CubeFace::NegativeX.u_face(), CubeFace::PositiveZ);
    assert_eq!(CubeFace::PositiveY.u_face(), CubeFace::PositiveX);
    assert_eq!(CubeFace::PositiveY.v_face(), CubeFace::PositiveZ);
    assert_eq!(CubeFace::NegativeY.v_face(), CubeFace::NegativeZ);
    assert_eq!(CubeFace::NegativeZ.u_face(), CubeFace::NegativeX);
    for face in cube_faces().iter() {
        assert_eq!(face.u_face().normal(), face.u_vec());
        assert_eq!(face.v_face().normal(), face.v_vec());
        let n = face.normal();
        assert_eq!(face.opposite().normal(), Vector3 { x: -n.x, y: -n.y, z: -n.z });
        assert_eq!(face.opposite().opposite(), *face);
        assert_eq!(face.abs().as_ordinal(), face.as_ordinal() / 2 * 2);
        assert_eq!(face.abs(), face.opposite().abs());
    }
}

#[test]
fn the_matrices_of_a_face_undo_each_other() {
    let points = [[1, 0, 0, 0], [0, 1, 0, 0], [0, 0, 1, 0], [0, 0, 0, 1], [3, -5, 7, 11]];
    for face in cube_faces().iter() {
        let info = face.info();
        let (u, v, n) = (face.u_vec(), face.v_vec(), face.normal());
        for p in points.iter() {
            let d = Vector3 { x: p[0], y: p[1], z: p[2] };
            assert_eq!(apply(&info.view_proj_mat, *p), [dot(u, d), dot(v, d), p[3], dot(n, d)]);
            assert_eq!(apply(&info.inv_view_proj_mat, apply(&info.view_proj_mat, *p)), *p);
            assert_eq!(apply(&info.view_proj_mat, apply(&info.inv_view_proj_mat, *p)), *p);
        }
    }
    // The middle of +X, seen from the middle of the cube, lies straight ahead.
    let ahead = apply(&CubeFace::PositiveX.info().view_proj_mat, [1, 0, 0, 1]);
    assert_eq!(ahead, [0, 0, 1, 1]);
}

#[test]
fn an_image_lends_its_pixels() {
    let mut image = Image { data: vec![1u8, 2, 3, 4, 5, 6], width: 3, height: 2 };
    {
        let view = image.as_ref();
        assert_eq!(view.data, &[1u8, 2, 3, 4, 5, 6][..]);
        assert_eq!((view.width, view.height), (3, 2));
    }
    {
        let view = image.as_mut();
        assert_eq!((view.width, view.height), (3, 2));
        view.data[4] = 50;
    }
    assert_eq!(image.data, vec![1, 2, 3, 4, 50, 6]);
    assert_eq!((image.width, image.height), (3, 2));
}
