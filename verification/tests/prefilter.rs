use envmapgen::blur::{BlurError, Site};
use envmapgen::context::ProcessError;
use envmapgen::cubeimage::CubeImage;
use envmapgen::cubemap::CubeFace;
use envmapgen::cubemaputils::MipPyramidGenSetup;
use envmapgen::prefilter::{apply_spherical_blur, Prefilter};
use envmapgen::tap::Tap;

fn pyramid(size: usize, levels: usize) -> Vec<CubeImage<u32>> {
    let mut images: Vec<CubeImage<u32>> =
        (0..levels).map(|level| CubeImage::new(size >> level, 9999)).collect();
    for f in 0..6 {
        for i in 0..size * size {
            images[0].faces[f][i] = (1000 * f + i) as u32;
        }
    }
    images
}

fn own_texel(site: Site<u64>) -> Vec<Tap> {
    vec![Tap::Inside { x: site.x, y: site.y }]
}

#[test]
fn every_level_is_halved_blurred_and_written_out() {
    let mut images = pyramid(4, 3);
    // One weight of 1: a phase blurs nothing but adds the scale of the level.
    let setup =
        MipPyramidGenSetup { kernel: vec![1u64], levels: vec![(1u64, 1), (10, 0), (100, 2)] };
    let arithmetic = Prefilter {
        zero: 0u64,
        linearize: |texel: u32| 2 * texel as u64,
        footprint: |site: Site<u64>| {
            vec![Tap::Inside { x: site.x, y: site.y }; 1 + 0 * site.pass.kernel_scale as usize]
        },
        accumulate: |sum: u64, value: u64, weight: u64| sum + value * weight + 1,
        average: |a: u64, b: u64, c: u64, d: u64| a + b + c + d,
        convert: |texel: u64| texel as u32 + 500000,
    };
    assert_eq!(apply_spherical_blur(4, &mut images, &setup, &arithmetic), Ok(()));
    let first = |f: usize, x: usize, y: usize| 2 * (1000 * f + x + 4 * y) as u32 + 3;
    let second = |f: usize, x: usize, y: usize| {
        first(f, 2 * x, 2 * y)
            + first(f, 2 * x + 1, 2 * y)
            + first(f, 2 * x, 2 * y + 1)
            + first(f, 2 * x + 1, 2 * y + 1)
    };
    let third =
        |f: usize| second(f, 0, 0) + second(f, 1, 0) + second(f, 0, 1) + second(f, 1, 1) + 6;
    for f in 0..6 {
        for y in 0..4 {
            for x in 0..4 {
                assert_eq!(images[0].faces[f][x + 4 * y], first(f, x, y) + 500000);
            }
        }
        for y in 0..2 {
            for x in 0..2 {
                assert_eq!(images[1].faces[f][x + 2 * y], second(f, x, y) + 500000);
            }
        }
        assert_eq!(images[2].faces[f], vec![third(f) + 500000]);
    }
}

#[test]
fn only_the_levels_of_the_plan_are_written() {
    let mut images = pyramid(4, 3);
    let setup = MipPyramidGenSetup { kernel: vec![1u64], levels: vec![(0u64, 0)] };
    let arithmetic = Prefilter {
        zero: 0u64,
        linearize: |texel: u32| texel as u64,
        footprint: own_texel,
        accumulate: |sum: u64, value: u64, weight: u64| sum + value * weight,
        average: |a: u64, _b: u64, _c: u64, _d: u64| a,
        convert: |texel: u64| texel as u32 + 7,
    };
    assert_eq!(apply_spherical_blur(4, &mut images, &setup, &arithmetic), Ok(()));
    assert_eq!(images[0].faces[3][5], 3005 + 7);
    assert_eq!(images[1].faces, vec![vec![9999u32; 4]; 6]);
    assert_eq!(images[2].faces, vec![vec![9999u32; 1]; 6]);

    // A plan with more levels than there are cubes stops at the last cube.
    let mut images = pyramid(4, 2);
    let setup =
        MipPyramidGenSetup { kernel: vec![1u64], levels: vec![(0u64, 0), (0, 0), (0, 0), (0, 0)] };
    assert_eq!(apply_spherical_blur(4, &mut images, &setup, &arithmetic), Ok(()));
    assert_eq!(images.len(), 2);
    assert_eq!(images[1].faces[2], vec![2000 + 7, 2002 + 7, 2008 + 7, 2010 + 7]);

    // A plan without levels writes nothing.
    let mut images = pyramid(4, 2);
    let setup = MipPyramidGenSetup { kernel: vec![1u64], levels: Vec::new() };
    assert_eq!(apply_spherical_blur(4, &mut images, &setup, &arithmetic), Ok(()));
    assert_eq!(images[0].faces[1][2], 1002);
}

#[test]
fn a_pass_that_cannot_be_carried_out_is_named() {
    let mut images = pyramid(4, 2);
    let setup = MipPyramidGenSetup { kernel: vec![1u64], levels: vec![(0u64, 1), (0, 2)] };
    let arithmetic = Prefilter {
        zero: 0u64,
        linearize: |texel: u32| texel as u64,
        footprint: |site: Site<u64>| {
            if site.pass.size == 2 && site.pass.phase == 1 && site.face == CubeFace::NegativeY {
                vec![Tap::Inside { x: 2, y: 0 }]
            } else {
                vec![Tap::Inside { x: site.x, y: site.y }]
            }
        },
        accumulate: |sum: u64, value: u64, weight: u64| sum + value * weight,
        average: |a: u64, _b: u64, _c: u64, _d: u64| a,
        convert: |texel: u64| texel as u32,
    };
    assert_eq!(
        apply_spherical_blur(4, &mut images, &setup, &arithmetic),
        Err(ProcessError {
            level: 1,
            pass: 0,
            phase: 1,
            texel: BlurError { face: CubeFace::NegativeY, x: 0, y: 0 },
        })
    );
}
