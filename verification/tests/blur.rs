use envmapgen::blur::{
    blur_face, blur_mode, blur_texel, gather, phase_axis, spherical_blur_phase, weigh, BlurError,
    BlurMode, CubeMapTrait, FaceAxis, Pass, Site, StandardCubeMapTrait, StretchedCubeMapTrait,
};
use envmapgen::cubemap::{cube_faces, CubeFace};
use envmapgen::tap::{FaceEdge, Tap};

fn roundf32(x: f32) -> f32 {
    (x + 0.5).floor()
}

fn gaussian_kernel(radius: usize, sigma: f32) -> Vec<f32> {
    envmapgen::blur::gaussian_kernel(
        radius,
        sigma,
        &|distance: usize, sigma: f32| (-0.5 * (distance as f32 * (1.0 / sigma)).powi(2)).exp(),
        0.0,
        &|sum: f32, weight: f32| sum + weight,
        &|weight: f32, sum: f32| weight * (1.0 / sum),
    )
}

/// The weights at the offsets from the middle, one by one, divided by their sum.
fn kernel_by_offsets(radius: usize, sigma: f32) -> Vec<f32> {
    let mut v: Vec<f32> = (-(radius as isize)..(radius as isize) + 1)
        .map(|i| (-0.5 * (i as f32 * (1.0 / sigma)).powi(2)).exp())
        .collect();
    let sum: f32 = v.iter().sum();
    for x in v.iter_mut() {
        *x *= 1.0 / sum;
    }
    v
}

/// The corner of the grid of pseudo-directions, the step between two texels,
/// and the two borders of a face.
fn grid(size: usize, stretched: bool) -> (f32, f32, f32, f32) {
    if stretched {
        (-1.0, 2.0 / (size - 1) as f32, 0.0, size as f32 - 1.0)
    } else {
        (1.0 / size as f32 - 1.0, 2.0 / size as f32, -0.5, size as f32 - 0.5)
    }
}

fn grid_at(corner: f32, step: f32, k: usize) -> f32 {
    let mut cur = corner;
    for _ in 0..k {
        cur += step;
    }
    cur
}

fn radial_footprint(site: &Site<f32>) -> Vec<Tap> {
    let size = site.pass.size;
    let radius = site.pass.kernel_radius;
    let len = 2 * radius + 1;
    let (corner, step, brd_min, brd_max) = grid(size, site.pass.stretched);
    let cur_u = grid_at(corner, step, site.x);
    let cur_v = grid_at(corner, step, site.y);
    let local_scale = site.pass.kernel_scale * (1.0 + cur_u * cur_u + cur_v * cur_v).sqrt();
    let mut f = (site.x as f32, site.y as f32);
    let mut df = (cur_u * local_scale, cur_v * local_scale);
    f.0 -= df.0 * radius as f32;
    f.1 -= df.1 * radius as f32;
    let major_y = cur_v.abs() > cur_u.abs();
    if major_y {
        f = (f.1, f.0);
        df = (df.1, df.0);
    }
    let end = f.0 + df.0 * len as f32;
    let mut taps = Vec::with_capacity(len);
    if end <= brd_min || end >= brd_max {
        let positive = df.0 >= 0.0;
        let mut minor_pos =
            if positive { (brd_max - f.0) / df.0 } else { (brd_min - f.0) / df.0 } * df.1 + f.1;
        if minor_pos <= brd_min {
            minor_pos = brd_min + 0.00001;
        } else if minor_pos >= brd_max {
            minor_pos = brd_max - 0.00001;
        }
        let minor = roundf32(minor_pos) as isize;
        for _ in 0..len {
            let distance = if positive {
                if f.0 >= brd_max {
                    Some(f.0 - brd_max)
                } else {
                    None
                }
            } else if f.0 <= brd_min {
                Some(brd_min - f.0)
            } else {
                None
            };
            match distance {
                Some(distance) => {
                    let depth = roundf32(distance - brd_min) as isize;
                    taps.push(Tap::radial_outside(major_y, positive, minor, depth));
                }
                None => {
                    taps.push(Tap::radial_inside(
                        major_y,
                        roundf32(f.0) as usize,
                        roundf32(f.1) as usize,
                    ));
                }
            }
            f.0 += df.0;
            f.1 += df.1;
        }
    } else {
        for _ in 0..len {
            taps.push(Tap::radial_inside(major_y, roundf32(f.0) as usize, roundf32(f.1) as usize));
            f.0 += df.0;
            f.1 += df.1;
        }
    }
    taps
}

fn directional_footprint(site: &Site<f32>, axis: FaceAxis) -> Vec<Tap> {
    let size = site.pass.size;
    let radius = site.pass.kernel_radius;
    let len = 2 * radius + 1;
    let (corner, step, brd_min, brd_max) = grid(size, site.pass.stretched);
    let (x, y) = match axis {
        FaceAxis::U => (site.x, site.y),
        FaceAxis::V => (site.y, site.x),
    };
    let cur_u = grid_at(corner, step, x);
    let cur_v = grid_at(corner, step, y);
    let local_scale = site.pass.kernel_scale * (1.0 + cur_u * cur_u + cur_v * cur_v).sqrt();
    let mut f = x as f32;
    f -= local_scale * radius as f32;
    let mut taps = Vec::with_capacity(len);
    for _ in 0..len {
        let overflow = if f <= brd_min {
            Some((false, brd_min - f))
        } else if f >= brd_max {
            Some((true, f - brd_max))
        } else {
            None
        };
        match overflow {
            Some((positive, distance)) => {
                let along = y as isize + roundf32(distance * -cur_v) as isize;
                let depth = roundf32(distance) as isize;
                taps.push(Tap::axial_outside(axis, positive, along, depth));
            }
            None => taps.push(Tap::axial_inside(axis, roundf32(f) as usize, y)),
        }
        f += local_scale;
    }
    taps
}

fn footprint(site: Site<f32>) -> Vec<Tap> {
    match site.mode {
        BlurMode::Radial => radial_footprint(&site),
        BlurMode::Directional(axis) => directional_footprint(&site, axis),
    }
}

fn accumulate(sum: f32, value: f32, weight: f32) -> f32 {
    sum + value * weight
}

fn blur_cube(
    input: &Vec<Vec<f32>>,
    size: usize,
    kernel: &[f32],
    kernel_scale: f32,
    phase: usize,
) -> Result<Vec<Vec<f32>>, BlurError> {
    let mut out: Vec<Vec<f32>> = (0..6).map(|_| vec![0f32; size * size]).collect();
    let faces: Vec<&[f32]> = input.iter().map(|face| &face[..]).collect();
    spherical_blur_phase(
        &mut out[..],
        &faces[..],
        size,
        kernel,
        kernel_scale,
        phase,
        StandardCubeMapTrait,
        &footprint,
        0f32,
        &accumulate,
    )?;
    Ok(out)
}

#[test]
fn doesnt_panic() {
    let kernel = gaussian_kernel(8, 4.0);
    for &size in [15, 16, 32, 64, 100, 127, 128, 256].iter() {
        println!("Trying size {}", size);
        let count = size * size;
        let faces = [
            &vec![0f32; count][..],
            &vec![0f32; count][..],
            &vec![0f32; count][..],
            &vec![0f32; count][..],
            &vec![0f32; count][..],
            &vec![0f32; count][..],
        ];
        let mut out = vec![
            vec![0f32; count],
            vec![0f32; count],
            vec![0f32; count],
            vec![0f32; count],
            vec![0f32; count],
            vec![0f32; count],
        ];
        let done = spherical_blur_phase(
            &mut out[..],
            &faces[..],
            size,
            &kernel,
            0.5,
            0,
            StandardCubeMapTrait,
            &footprint,
            0f32,
            &accumulate,
        );
        assert_eq!(done, Ok(()));
    }
}

#[test]
fn every_phase_and_both_layouts_address_inside_the_cube() {
    let kernel = gaussian_kernel(8, 4.0);
    for &size in [15usize, 16, 33].iter() {
        let input: Vec<Vec<f32>> = (0..6).map(|_| vec![1f32; size * size]).collect();
        let faces: Vec<&[f32]> = input.iter().map(|face| &face[..]).collect();
        for phase in 0..3 {
            let mut out: Vec<Vec<f32>> = (0..6).map(|_| vec![0f32; size * size]).collect();
            let standard = spherical_blur_phase(
                &mut out[..],
                &faces[..],
                size,
                &kernel,
                0.5,
                phase,
                StandardCubeMapTrait,
                &footprint,
                0f32,
                &accumulate,
            );
            assert_eq!(standard, Ok(()));
            let stretched = spherical_blur_phase(
                &mut out[..],
                &faces[..],
                size,
                &kernel,
                0.5,
                phase,
                StretchedCubeMapTrait,
                &footprint,
                0f32,
                &accumulate,
            );
            assert_eq!(stretched, Ok(()));
        }
    }
}

#[test]
fn blur_of_a_uniform_cube_is_uniform() {
    let kernel = gaussian_kernel(8, 4.0);
    let size = 32;
    let input: Vec<Vec<f32>> = (0..6).map(|_| vec![0.75f32; size * size]).collect();
    for phase in 0..3 {
        let out = blur_cube(&input, size, &kernel, 0.5, phase).unwrap();
        for face in out.iter() {
            assert_eq!(face.len(), size * size);
            for &texel in face.iter() {
                assert!((texel - 0.75).abs() < 1.0e-5);
            }
        }
    }
}

#[test]
fn three_phases_leave_a_uniform_cube_as_it_is() {
    let kernel = gaussian_kernel(8, 4.0);
    let size = 16;
    let input: Vec<Vec<f32>> = (0..6).map(|_| vec![200f32; size * size]).collect();
    let first = blur_cube(&input, size, &kernel, 0.5, 0).unwrap();
    let second = blur_cube(&first, size, &kernel, 0.5, 1).unwrap();
    let third = blur_cube(&second, size, &kernel, 0.5, 2).unwrap();
    for face in third.iter() {
        for &texel in face.iter() {
            assert!((texel - 200.0).abs() < 1.0e-2);
        }
    }
}

#[test]
fn exact_arithmetic_keeps_a_uniform_cube_exactly() {
    // Weights in sixteenths that add up to one, on whole samples.
    let kernel: Vec<u32> = vec![1, 4, 6, 4, 1];
    let size = 8;
    let input: Vec<Vec<u32>> = (0..6).map(|_| vec![48u32; size * size]).collect();
    let faces: Vec<&[u32]> = input.iter().map(|face| &face[..]).collect();
    let spread = |site: Site<u32>| -> Vec<Tap> {
        let pass = Pass { kernel_scale: 0.5f32, ..pass_of(&site) };
        footprint(Site { pass, face: site.face, mode: site.mode, x: site.x, y: site.y })
    };
    let add = |sum: u32, value: u32, weight: u32| sum + value * weight;
    for phase in 0..3 {
        let mut out: Vec<Vec<u32>> = (0..6).map(|_| vec![0u32; size * size]).collect();
        let done = spherical_blur_phase(
            &mut out[..],
            &faces[..],
            size,
            &kernel,
            0u32,
            phase,
            StandardCubeMapTrait,
            &spread,
            0u32,
            &add,
        );
        assert_eq!(done, Ok(()));
        for face in out.iter() {
            for &texel in face.iter() {
                assert_eq!(texel, 48 * 16);
            }
        }
    }
}

fn pass_of(site: &Site<u32>) -> Pass<f32> {
    Pass {
        size: site.pass.size,
        kernel_radius: site.pass.kernel_radius,
        kernel_scale: 0.0,
        phase: site.pass.phase,
        stretched: site.pass.stretched,
    }
}

#[test]
fn footprint_within_the_face_is_accepted_and_beyond_it_is_refused() {
    let kernel = gaussian_kernel(8, 4.0);
    let size = 16;
    assert!(size as f32 > 8.0 * 0.5 * 3.0f32.sqrt());
    assert!(!(size as f32 > 8.0 * 2.0 * 3.0f32.sqrt()));
    let input: Vec<Vec<f32>> = (0..6).map(|_| vec![1f32; size * size]).collect();
    for phase in 0..3 {
        assert!(blur_cube(&input, size, &kernel, 0.5, phase).is_ok());
        let refused = blur_cube(&input, size, &kernel, 2.0, phase);
        let error = refused.unwrap_err();
        assert!(error.x < size && error.y < size);
    }
    // The first texel of the first face is the first to leave the cube.
    assert_eq!(
        blur_cube(&input, size, &kernel, 2.0, 0),
        Err(BlurError { face: CubeFace::PositiveX, x: 0, y: 0 })
    );
}

#[test]
fn a_footprint_of_the_wrong_length_is_refused() {
    let kernel = vec![0.25f32, 0.5, 0.25];
    let size = 4;
    let input: Vec<Vec<f32>> = (0..6).map(|_| vec![1f32; size * size]).collect();
    let faces: Vec<&[f32]> = input.iter().map(|face| &face[..]).collect();
    let mut out: Vec<Vec<f32>> = (0..6).map(|_| vec![0f32; size * size]).collect();
    let short = |site: Site<f32>| -> Vec<Tap> {
        if site.face == CubeFace::NegativeX && site.x == 2 && site.y == 1 {
            vec![Tap::Inside { x: 0, y: 0 }; 2]
        } else {
            vec![Tap::Inside { x: site.x, y: site.y }; 3]
        }
    };
    let done = spherical_blur_phase(
        &mut out[..],
        &faces[..],
        size,
        &kernel,
        1.0,
        1,
        StandardCubeMapTrait,
        &short,
        0f32,
        &accumulate,
    );
    assert_eq!(done, Err(BlurError { face: CubeFace::NegativeX, x: 2, y: 1 }));
    // The face before the refused texel is done, the faces after it are not.
    assert!(out[0].iter().all(|&texel| texel == 1.0));
    assert!(out[2].iter().all(|&texel| texel == 0.0));
}

#[test]
fn texels_past_the_end_of_a_face_are_left_alone() {
    let kernel = vec![1f32];
    let size = 2;
    let input: Vec<Vec<f32>> = (0..6).map(|f| vec![f as f32; 4]).collect();
    let faces: Vec<&[f32]> = input.iter().map(|face| &face[..]).collect();
    let mut out: Vec<Vec<f32>> = (0..6).map(|_| vec![-1f32; 6]).collect();
    let own = |site: Site<f32>| -> Vec<Tap> { vec![Tap::Inside { x: site.x, y: site.y }] };
    let done = spherical_blur_phase(
        &mut out[..],
        &faces[..],
        size,
        &kernel,
        1.0,
        2,
        StandardCubeMapTrait,
        &own,
        0f32,
        &accumulate,
    );
    assert_eq!(done, Ok(()));
    for f in 0..6 {
        assert_eq!(out[f], vec![f as f32, f as f32, f as f32, f as f32, -1.0, -1.0]);
    }
    assert_eq!(out.len(), 6);
}

#[test]
fn a_face_is_blurred_from_the_taps_of_each_texel() {
    // Every texel reads its own place and the place across the +U edge.
    let size = 3;
    let input: Vec<Vec<u32>> =
        (0..6).map(|f| (0..9).map(|i| 100 * f as u32 + i as u32).collect()).collect();
    let faces: Vec<&[u32]> = input.iter().map(|face| &face[..]).collect();
    let kernel: Vec<u32> = vec![1, 1000, 0];
    let taps = |site: Site<u32>| -> Vec<Tap> {
        vec![
            Tap::Inside { x: site.x, y: site.y },
            Tap::Across { edge: FaceEdge::PositiveU, along: site.y as isize, depth: 0 },
            Tap::Inside { x: 0, y: 0 },
        ]
    };
    let add = |sum: u32, value: u32, weight: u32| sum + value * weight;
    let mut out = vec![0u32; 9];
    let pass = Pass { size, kernel_radius: 1, kernel_scale: 0u32, phase: 0, stretched: false };
    let done = blur_face(
        &mut out[..],
        &faces[..],
        CubeFace::PositiveZ,
        &kernel,
        pass,
        &taps,
        0u32,
        &add,
    );
    assert_eq!(done, Ok(()));
    // +Z has +X across its +U edge; rows of +Z run on as rows of +X, whose
    // first column lies along the shared edge.
    for y in 0..3 {
        for x in 0..3 {
            let own = 400 + (x + 3 * y) as u32;
            let across = 3 * y as u32;
            assert_eq!(out[x + 3 * y], own + 1000 * across);
        }
    }
}

#[test]
fn samples_are_gathered_in_the_order_of_the_taps() {
    let size = 2;
    let input: Vec<Vec<u8>> =
        (0..6).map(|f| (0..4).map(|i| 10 * f as u8 + i as u8).collect()).collect();
    let faces: Vec<&[u8]> = input.iter().map(|face| &face[..]).collect();
    let taps = vec![
        Tap::Inside { x: 1, y: 1 },
        Tap::Inside { x: 0, y: 1 },
        Tap::Across { edge: FaceEdge::NegativeV, along: 0, depth: 0 },
    ];
    let samples = gather(&faces[..], CubeFace::PositiveX, size, &taps).unwrap();
    // -V of +X leads to +Y, whose last column lies along the shared edge,
    // running against the rows of +X.
    assert_eq!(samples, vec![3, 2, 20 + 3]);
    let outside = vec![Tap::Inside { x: 2, y: 0 }];
    assert_eq!(gather(&faces[..], CubeFace::PositiveX, size, &outside), None);
    let deep = vec![Tap::Across { edge: FaceEdge::PositiveU, along: 0, depth: 2 }];
    assert_eq!(gather(&faces[..], CubeFace::PositiveX, size, &deep), None);
    let before = vec![Tap::Across { edge: FaceEdge::PositiveU, along: -1, depth: 0 }];
    assert_eq!(gather(&faces[..], CubeFace::PositiveX, size, &before), None);
}

#[test]
fn samples_are_added_up_from_zero_in_the_order_of_the_kernel() {
    let add = |sum: i64, value: i64, weight: i64| 10 * sum + value * weight;
    assert_eq!(weigh(&vec![1i64, 2, 3], &[1i64, 2, 3][..], 7, &add), 7000 + 100 + 40 + 9);
    assert_eq!(weigh(&Vec::<i64>::new(), &[][..], 7, &add), 7);
    let weighted = |sum: f32, value: f32, weight: f32| sum + value * weight;
    assert_eq!(weigh(&vec![2f32, 4.0, 8.0], &[0.25f32, 0.5, 0.25][..], 0.0, &weighted), 4.5);
}

#[test]
fn a_kernel_adds_up_to_one_and_is_the_same_on_both_sides() {
    for &(radius, sigma) in [(0usize, 1f32), (1, 1.0), (3, 0.5), (8, 4.0), (100, 30.0)].iter() {
        let kernel = gaussian_kernel(radius, sigma);
        assert_eq!(kernel.len(), 2 * radius + 1);
        for k in 0..=radius {
            assert_eq!(kernel[radius - k], kernel[radius + k]);
            assert!(kernel[radius + k] >= 0.0);
            if k > 0 {
                assert!(kernel[radius + k] <= kernel[radius + k - 1]);
            }
        }
        let sum: f32 = kernel.iter().sum();
        assert!((sum - 1.0).abs() < 1.0e-5);
        assert_eq!(kernel, kernel_by_offsets(radius, sigma));
    }
    assert_eq!(gaussian_kernel(0, 2.0), vec![1.0]);
    // exp(-1/2) on either side of one, over their sum.
    let narrow = gaussian_kernel(1, 1.0);
    let side = (-0.5f32).exp();
    assert!((narrow[1] - 1.0 / (1.0 + 2.0 * side)).abs() < 1.0e-7);
    assert!((narrow[0] - side / (1.0 + 2.0 * side)).abs() < 1.0e-7);
    assert!((narrow[1] - 0.45186276).abs() < 1.0e-6);
}

#[test]
fn a_kernel_is_weighed_by_distance_summed_in_order_and_divided() {
    let kernel = envmapgen::blur::gaussian_kernel(
        2,
        7u64,
        &|distance: usize, sigma: u64| sigma + distance as u64,
        1,
        &|sum: u64, weight: u64| 10 * sum + weight,
        &|weight: u64, sum: u64| 1000000 * weight + sum,
    );
    // The weights 9 8 7 8 9 are added up from 1, digit by digit.
    let sum = 198789;
    assert_eq!(
        kernel,
        vec![9000000 + sum, 8000000 + sum, 7000000 + sum, 8000000 + sum, 9000000 + sum]
    );
}

#[test]
fn a_texel_is_blurred_only_from_a_footprint_that_fits() {
    let size = 2;
    let input: Vec<Vec<i64>> = (0..6).map(|f| vec![f as i64 + 1; 4]).collect();
    let faces: Vec<&[i64]> = input.iter().map(|face| &face[..]).collect();
    let add = |sum: i64, value: i64, weight: i64| sum + value * weight;
    let kernel = [1i64, 10, 100];
    let fits = vec![
        Tap::Across { edge: FaceEdge::NegativeU, along: 1, depth: 1 },
        Tap::Inside { x: 0, y: 0 },
        Tap::Across { edge: FaceEdge::PositiveU, along: 0, depth: 0 },
    ];
    // -U of +Y is -X, +U of +Y is +X.
    assert_eq!(
        blur_texel(&faces[..], CubeFace::PositiveY, size, &kernel[..], &fits, 0, &add),
        Some(2 + 10 * 3 + 100 * 1)
    );
    let short = vec![Tap::Inside { x: 0, y: 0 }; 2];
    assert_eq!(
        blur_texel(&faces[..], CubeFace::PositiveY, size, &kernel[..], &short, 0, &add),
        None
    );
    let outside = vec![Tap::Inside { x: 0, y: 2 }; 3];
    assert_eq!(
        blur_texel(&faces[..], CubeFace::PositiveY, size, &kernel[..], &outside, 0, &add),
        None
    );
}

#[test]
fn each_phase_runs_outwards_on_two_faces_and_along_an_axis_on_four() {
    assert_eq!(phase_axis(0), CubeFace::PositiveX);
    assert_eq!(phase_axis(1), CubeFace::PositiveY);
    assert_eq!(phase_axis(2), CubeFace::PositiveZ);
    for phase in 0..3 {
        for face in cube_faces().iter() {
            let mode = blur_mode(*face, phase);
            if face.abs() == phase_axis(phase) {
                assert_eq!(mode, BlurMode::Radial);
            } else if face.u_face().abs() == phase_axis(phase) {
                assert_eq!(mode, BlurMode::Directional(FaceAxis::U));
            } else {
                assert_eq!(face.v_face().abs(), phase_axis(phase));
                assert_eq!(mode, BlurMode::Directional(FaceAxis::V));
            }
        }
    }
    assert_eq!(blur_mode(CubeFace::PositiveX, 1), BlurMode::Directional(FaceAxis::V));
    assert_eq!(blur_mode(CubeFace::PositiveX, 2), BlurMode::Directional(FaceAxis::U));
    assert_eq!(blur_mode(CubeFace::NegativeY, 0), BlurMode::Directional(FaceAxis::U));
    assert_eq!(blur_mode(CubeFace::NegativeY, 2), BlurMode::Directional(FaceAxis::V));
}

#[test]
fn the_two_layouts_differ_in_the_stretch_of_the_edges() {
    assert!(!StandardCubeMapTrait.edge_stretch_fixup());
    assert!(StretchedCubeMapTrait.edge_stretch_fixup());
}
