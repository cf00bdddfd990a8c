use envmapgen::cubemaputils::{
    adjust_passes, downsample_2x, level_size, upsample_fill_hole_2x, LevelAnswer, LevelQuery,
    MipPyramidGenParams, MipPyramidGenSetup,
};

type Texel = [f32; 4];

fn average(a: Texel, b: Texel, c: Texel, d: Texel) -> Texel {
    let mut r = [0f32; 4];
    for k in 0..4 {
        r[k] = (a[k] + b[k] + c[k] + d[k]) * 0.25;
    }
    r
}

fn blend(texel: Texel, over: Texel) -> Texel {
    let w = texel[3];
    let mut r = texel;
    for k in 0..4 {
        r[k] += over[k] * (1.0 - w);
    }
    r
}

fn gaussian_kernel(radius: usize, sigma: f32) -> Vec<f32> {
    envmapgen::blur::gaussian_kernel(
        radius,
        sigma,
        &weight_at,
        0.0,
        &add_weights,
        &normalize_weight,
    )
}

fn radius_of(resolution: f32, width: f32) -> usize {
    (resolution * width) as usize
}

fn weight_at(distance: usize, sigma: f32) -> f32 {
    (-0.5 * (distance as f32 * (1.0 / sigma)).powi(2)).exp()
}

fn add_weights(sum: f32, weight: f32) -> f32 {
    sum + weight
}

fn normalize_weight(weight: f32, sum: f32) -> f32 {
    weight * (1.0 / sum)
}

/// The blur that a level lacks, as a variance.
fn residual_variance(query: &LevelQuery<f32>) -> f32 {
    let sigma = (query.level as f32 + query.log2_min_sigma).exp2();
    let res_sigma = (sigma * sigma - query.last_variance.unwrap_or(0.0)).sqrt();
    res_sigma * res_sigma
}

fn plan_level(query: LevelQuery<f32>) -> LevelAnswer<f32> {
    let sigma = (query.level as f32 + query.log2_min_sigma).exp2();
    let sigma_limit = 0.5 / query.kernel_width;
    let num_passes = (residual_variance(&query) / (sigma_limit * sigma_limit)).ceil() as usize;
    LevelAnswer { variance: sigma * sigma, num_passes }
}

fn scale_level(query: LevelQuery<f32>, num_passes: usize) -> f32 {
    (residual_variance(&query) / num_passes as f32).sqrt() * query.size as f32
        / query.kernel_resolution
}

fn plan(params: &MipPyramidGenParams<f32>) -> MipPyramidGenSetup<f32> {
    params
        .setup(
            &radius_of,
            &weight_at,
            0.0,
            &add_weights,
            &normalize_weight,
            &plan_level,
            &scale_level,
        )
        .unwrap()
}

#[test]
fn downsample_averages_blocks_of_two_by_two() {
    let src: Vec<f32> = (0..16).map(|i| i as f32).collect();
    let mut dst = vec![-1f32; 5];
    let mean = |a: f32, b: f32, c: f32, d: f32| (a + b + c + d) * 0.25;
    downsample_2x(&mut dst[..], &src[..], 2, &mean);
    assert_eq!(dst, vec![2.5, 4.5, 10.5, 12.5, -1.0]);
}

#[test]
fn downsample_hands_the_block_over_row_by_row() {
    let src: Vec<u32> = (0..16).collect();
    let mut dst = vec![0u32; 4];
    let digits = |a: u32, b: u32, c: u32, d: u32| ((a * 100 + b) * 100 + c) * 100 + d;
    downsample_2x(&mut dst[..], &src[..], 2, &digits);
    assert_eq!(dst, vec![10405, 2030607, 8091213, 10111415]);
}

#[test]
fn downsample_of_nothing_does_nothing() {
    let src: Vec<f32> = Vec::new();
    let mut dst = vec![3f32; 2];
    let mean = |a: f32, b: f32, c: f32, d: f32| (a + b + c + d) * 0.25;
    downsample_2x(&mut dst[..], &src[..], 0, &mean);
    assert_eq!(dst, vec![3.0, 3.0]);
}

#[test]
fn downsample_averages_every_channel() {
    let src: Vec<Texel> = vec![
        [4.0, 0.0, 8.0, 1.0],
        [0.0, 4.0, 8.0, 1.0],
        [0.0, 0.0, 8.0, 0.0],
        [0.0, 0.0, 8.0, 0.0],
    ];
    let mut dst = vec![[0f32; 4]; 1];
    downsample_2x(&mut dst[..], &src[..], 1, &average);
    assert_eq!(dst, vec![[1.0, 1.0, 8.0, 0.5]]);
}

#[test]
fn hole_fill_blends_each_texel_with_the_texel_over_it() {
    // Two by two blocks of every coverage from none to full.
    let mut dst: Vec<Texel> = Vec::new();
    for y in 0..4 {
        for x in 0..4 {
            let w = ((x / 2) + 2 * (y / 2)) as f32 / 4.0;
            dst.push([10.0 * w, 0.0, 0.0, w]);
        }
    }
    dst.push([7.0, 7.0, 7.0, 0.0]);
    let src: Vec<Texel> = vec![
        [100.0, 1.0, 0.0, 1.0],
        [200.0, 2.0, 0.0, 1.0],
        [300.0, 3.0, 0.0, 1.0],
        [400.0, 4.0, 0.0, 1.0],
    ];
    upsample_fill_hole_2x(&mut dst[..], &src[..], 2, &blend);
    for y in 0..4 {
        for x in 0..4 {
            let block = (x / 2) + 2 * (y / 2);
            let w = block as f32 / 4.0;
            let over = src[block];
            let expected = [
                10.0 * w + over[0] * (1.0 - w),
                over[1] * (1.0 - w),
                0.0,
                w + (1.0 - w),
            ];
            assert_eq!(dst[x + 4 * y], expected);
        }
    }
    assert_eq!(dst[0], [100.0, 1.0, 0.0, 1.0]);
    assert_eq!(dst[2], [2.5 + 150.0, 1.5, 0.0, 1.0]);
    assert_eq!(dst[16], [7.0, 7.0, 7.0, 0.0]);
}

#[test]
fn hole_fill_leaves_covered_texels_alone() {
    let fine: Vec<Texel> =
        (0..64).map(|i| [i as f32, 2.0 * i as f32, 64.0 - i as f32, 1.0]).collect();
    let coarse: Vec<Texel> = (0..16).map(|i| [1000.0 + i as f32, -5.0, 1.0e6, 0.25]).collect();
    let mut filled = fine.clone();
    upsample_fill_hole_2x(&mut filled[..], &coarse[..], 4, &blend);
    assert_eq!(filled, fine);
}

#[test]
fn downsample_then_hole_fill_gives_a_covered_image_back() {
    let fine: Vec<Texel> = (0..64)
        .map(|i| [(i % 8) as f32 * 3.0, (i / 8) as f32 * 5.0, 1.0, 1.0])
        .collect();
    let mut coarse = vec![[0f32; 4]; 16];
    downsample_2x(&mut coarse[..], &fine[..], 4, &average);
    // The half holds the means of the blocks: the image without its finest detail.
    for y in 0..4 {
        for x in 0..4 {
            assert_eq!(
                coarse[x + 4 * y],
                [(2 * x) as f32 * 3.0 + 1.5, (2 * y) as f32 * 5.0 + 2.5, 1.0, 1.0]
            );
        }
    }
    let mut filled = fine.clone();
    upsample_fill_hole_2x(&mut filled[..], &coarse[..], 4, &blend);
    assert_eq!(filled, fine);
    // An image with nothing in it takes over the half, block by block.
    let mut empty = vec![[0f32; 4]; 64];
    upsample_fill_hole_2x(&mut empty[..], &coarse[..], 4, &blend);
    for y in 0..8 {
        for x in 0..8 {
            assert_eq!(empty[x + 8 * y], coarse[x / 2 + 4 * (y / 2)]);
        }
    }
}

#[test]
fn levels_halve_in_width() {
    let widths: Vec<usize> = (0..9).map(|level| level_size(64, level)).collect();
    assert_eq!(widths, vec![64, 32, 16, 8, 4, 2, 1, 0, 0]);
    assert_eq!(level_size(100, 3), 12);
    assert_eq!(level_size(usize::MAX, 1), usize::MAX / 2);
    assert_eq!(level_size(1, usize::MAX), 0);
    assert_eq!(level_size(0, 0), 0);
}

#[test]
fn a_single_pass_is_doubled_where_quality_goes_first() {
    assert_eq!(adjust_passes(true, 1), 2);
    assert_eq!(adjust_passes(false, 1), 1);
    assert_eq!(adjust_passes(true, 0), 0);
    assert_eq!(adjust_passes(true, 2), 2);
    assert_eq!(adjust_passes(true, 3), 3);
    assert_eq!(adjust_passes(false, 7), 7);
}

#[test]
fn a_pyramid_is_planned_level_by_level() {
    let params = MipPyramidGenParams {
        kernel_resolution: 4.0f32,
        kernel_width: 2.0,
        log2_min_sigma: -5.0,
        high_quality: false,
        num_levels: 5,
        size: 64,
    };
    let setup = plan(&params);
    assert_eq!(setup.kernel.len(), 17);
    assert_eq!(setup.kernel, gaussian_kernel(8, 4.0));
    assert_eq!(setup.levels.len(), 5);
    let passes: Vec<usize> = setup.levels.iter().map(|level| level.1).collect();
    assert_eq!(passes, vec![1, 1, 1, 1, 3]);
    assert_eq!(setup.passes(), vec![1, 1, 1, 1, 3]);
    let scales: Vec<f32> = setup.levels.iter().map(|level| level.0).collect();
    assert_eq!(scales, vec![0.5, 0.4330127, 0.4330127, 0.4330127, 0.25]);
}

#[test]
fn a_plan_for_quality_halves_the_strength_of_doubled_passes() {
    let params = MipPyramidGenParams {
        kernel_resolution: 4.0f32,
        kernel_width: 2.0,
        log2_min_sigma: -5.0,
        high_quality: true,
        num_levels: 5,
        size: 64,
    };
    let setup = plan(&params);
    let passes: Vec<usize> = setup.levels.iter().map(|level| level.1).collect();
    assert_eq!(passes, vec![2, 2, 2, 2, 3]);
    let scales: Vec<f32> = setup.levels.iter().map(|level| level.0).collect();
    assert_eq!(scales, vec![0.35355338, 0.30618623, 0.30618623, 0.30618623, 0.25]);
    // Two passes of half the variance each add up to the variance of one.
    let single = plan(&MipPyramidGenParams { high_quality: false, ..params });
    for level in 0..4 {
        let one = single.levels[level].0 * single.levels[level].0;
        let two = 2.0 * setup.levels[level].0 * setup.levels[level].0;
        assert!((one - two).abs() < 1.0e-6);
    }
    assert_eq!(setup.kernel, single.kernel);
}

#[test]
fn each_level_is_planned_from_the_variance_of_the_level_above() {
    let params = MipPyramidGenParams {
        kernel_resolution: 3u32,
        kernel_width: 5,
        log2_min_sigma: 7,
        high_quality: true,
        num_levels: 4,
        size: 20,
    };
    let radius = |resolution: u32, width: u32| (resolution + width) as usize;
    let weight = |distance: usize, sigma: u32| sigma + distance as u32;
    let adder = |sum: u32, weight: u32| sum + weight;
    let normalize = |weight: u32, sum: u32| 1000 * weight + sum;
    let level = |query: LevelQuery<u32>| {
        assert_eq!(query.kernel_resolution, 3);
        assert_eq!(query.kernel_width, 5);
        assert_eq!(query.log2_min_sigma, 7);
        let last = query.last_variance.unwrap_or(1000);
        LevelAnswer { variance: last + 1, num_passes: query.level }
    };
    let scale = |query: LevelQuery<u32>, passes: usize| {
        1000 * query.size as u32 + 100 * passes as u32 + query.last_variance.unwrap_or(0)
    };
    let setup = params.setup(&radius, &weight, 0, &adder, &normalize, &level, &scale).unwrap();
    // Seventeen weights: 3 in the middle, up to 11 at the ends.
    assert_eq!(setup.kernel.len(), 17);
    let sum = 3 + 2 * (4 + 5 + 6 + 7 + 8 + 9 + 10 + 11);
    assert_eq!(setup.kernel[8], 3000 + sum);
    assert_eq!(setup.kernel[0], 11000 + sum);
    assert_eq!(setup.kernel[16], 11000 + sum);
    // The level that asks for one pass gets two, and its scale is asked for two.
    assert_eq!(
        setup.levels,
        vec![(20000, 0), (10200 + 1001, 2), (5200 + 1002, 2), (2300 + 1003, 3)]
    );
    let none = MipPyramidGenParams { num_levels: 0, ..params };
    let empty = none.setup(&radius, &weight, 0, &adder, &normalize, &level, &scale).unwrap();
    assert_eq!(empty.levels, vec![]);
    assert_eq!(empty.kernel, setup.kernel);
}

#[test]
fn a_kernel_with_more_weights_than_can_be_counted_is_not_planned() {
    let params = MipPyramidGenParams {
        kernel_resolution: 1u8,
        kernel_width: 1u8,
        log2_min_sigma: 0,
        high_quality: false,
        num_levels: 1,
        size: 4,
    };
    let weight = |_distance: usize, _sigma: u8| 1u8;
    let adder = |sum: u8, weight: u8| sum.wrapping_add(weight);
    let normalize = |weight: u8, _sum: u8| weight;
    let level = |_query: LevelQuery<u8>| LevelAnswer { variance: 0u8, num_passes: 1 };
    let scale = |_query: LevelQuery<u8>, _passes: usize| 0u8;
    let huge = |_resolution: u8, _width: u8| usize::MAX / 2 + 1;
    assert!(params.setup(&huge, &weight, 0, &adder, &normalize, &level, &scale).is_none());
    let largest = |_resolution: u8, _width: u8| usize::MAX;
    assert!(params.setup(&largest, &weight, 0, &adder, &normalize, &level, &scale).is_none());
    let small = |_resolution: u8, _width: u8| 2usize;
    let setup = params.setup(&small, &weight, 0, &adder, &normalize, &level, &scale).unwrap();
    assert_eq!(setup.kernel, vec![1, 1, 1, 1, 1]);
    assert_eq!(setup.levels, vec![(0, 1)]);
}

#[test]
fn the_variances_of_the_levels_add_up_to_the_target() {
    // Each level adds the variance that it lacks: what the passes of all
    // levels add up to is the variance of the last.
    for num_levels in 1..6 {
        let params = MipPyramidGenParams {
            kernel_resolution: 4.0f32,
            kernel_width: 2.0,
            log2_min_sigma: -5.0,
            high_quality: false,
            num_levels,
            size: 64,
        };
        let setup = plan(&params);
        let mut total = 0f32;
        for (level, &(kernel_scale, num_passes)) in setup.levels.iter().enumerate() {
            let sigma = kernel_scale * 4.0 / (64 >> level) as f32;
            total += sigma * sigma * num_passes as f32;
        }
        let target = (num_levels as f32 - 1.0 - 5.0).exp2();
        assert!((total - target * target).abs() < 1.0e-6 * target * target);
    }
}
