use image_range::{range, range_simd, range_simd_friendly, range_simd_intrinsics, range_simd_split};

fn patterns(image: &[f32]) -> Vec<u32> {
    image.iter().map(|x| x.to_bits()).collect()
}

fn values(r: (u32, u32)) -> (f32, f32) {
    (f32::from_bits(r.0), f32::from_bits(r.1))
}

fn run_function(
    image: &[f32],
    expected_min: f32,
    expected_max: f32,
    method: impl Fn(&[u32]) -> (u32, u32),
    name: &str,
) {
    let (min, max) = values(method(&patterns(image)));
    assert_eq!(min, expected_min, "{name} min failed");
    assert_eq!(max, expected_max, "{name} max failed");
}

fn run_all_functions(image: &[f32], expected_min: f32, expected_max: f32) {
    run_function(image, expected_min, expected_max, range, "basic");
    run_function(image, expected_min, expected_max, range_simd_friendly, "simd friendly");
    run_function(image, expected_min, expected_max, range_simd, "simd");
    run_function(image, expected_min, expected_max, range_simd_intrinsics, "intrinsics");
    for offset in 0..image.len() + 2 {
        let (min, max) = values(range_simd_split(&patterns(image), offset));
        assert_eq!(min, expected_min, "split at {offset} min failed");
        assert_eq!(max, expected_max, "split at {offset} max failed");
    }
}

#[test]
fn test_basic_rising() {
    let image = vec![1.0f32, 2.0, 3.0, 4.0, 5.0, 6.0, 7.0, 8.0];
    run_all_functions(&image[..], 1.0, 8.0);
}

#[test]
fn test_basic_falling() {
    let image = vec![8.0f32, 7.0, 6.0, 5.0, 4.0, 3.0, 2.0, 1.0];
    run_all_functions(&image[..], 1.0, 8.0);
}

#[test]
fn test_basic_partial_size() {
    let image = vec![8.0f32, 7.0, 6.0, 5.0, 4.0, 3.0, 2.0, 1.0, 4.0, 7.0, 10.0];
    run_all_functions(&image[..], 1.0, 10.0);
}

#[test]
fn empty_input_gives_the_infinities() {
    let image: Vec<u32> = Vec::new();
    let expected = (f32::INFINITY.to_bits(), f32::NEG_INFINITY.to_bits());
    assert_eq!(range(&image), expected);
    assert_eq!(range_simd_friendly(&image), expected);
    assert_eq!(range_simd_intrinsics(&image), expected);
    assert_eq!(range_simd(&image), expected);
    assert_eq!(range_simd_split(&image, 0), expected);
    assert_eq!(range_simd_split(&image, 5), expected);
    assert_eq!(values(range(&image)), (f32::INFINITY, f32::NEG_INFINITY));
}

#[test]
fn single_sample_is_both_ends() {
    let samples = [
        0.0f32,
        -0.0,
        1.5,
        -2.25,
        f32::MAX,
        f32::MIN,
        f32::MIN_POSITIVE,
        1.0e-40,
        -1.0e-40,
        f32::INFINITY,
        f32::NEG_INFINITY,
    ];
    for x in samples {
        let image = [x.to_bits()];
        let expected = (x.to_bits(), x.to_bits());
        assert_eq!(range(&image), expected);
        assert_eq!(range_simd_friendly(&image), expected);
        assert_eq!(range_simd_intrinsics(&image), expected);
        assert_eq!(range_simd(&image), expected);
        assert_eq!(range_simd_split(&image, 0), expected);
        assert_eq!(range_simd_split(&image, 1), expected);
    }
}

#[test]
fn single_sample_that_is_no_number_is_skipped() {
    let image = [f32::NAN.to_bits()];
    let expected = (f32::INFINITY.to_bits(), f32::NEG_INFINITY.to_bits());
    assert_eq!(range(&image), expected);
    assert_eq!(range_simd_friendly(&image), expected);
    assert_eq!(range_simd_intrinsics(&image), expected);
    assert_eq!(range_simd(&image), expected);
    assert_eq!(range_simd_split(&image, 0), expected);
}

#[test]
fn samples_that_are_no_numbers_are_skipped() {
    let mut image = vec![f32::NAN, 3.0, f32::NAN, 1.0, -f32::NAN, 2.0];
    run_all_functions(&image[..], 1.0, 3.0);
    for _ in 0..9 {
        image.push(f32::NAN);
    }
    image.push(-4.5);
    image.push(f32::NAN);
    run_all_functions(&image[..], -4.5, 3.0);
    let none = vec![f32::NAN; 19];
    run_all_functions(&none[..], f32::INFINITY, f32::NEG_INFINITY);
}

#[test]
fn infinities_are_samples_like_others() {
    let image = vec![1.0f32, f32::INFINITY, -3.0, f32::NEG_INFINITY, 2.0];
    run_all_functions(&image[..], f32::NEG_INFINITY, f32::INFINITY);
    let image = vec![f32::INFINITY; 10];
    run_all_functions(&image[..], f32::INFINITY, f32::INFINITY);
    let image = vec![f32::NEG_INFINITY; 10];
    run_all_functions(&image[..], f32::NEG_INFINITY, f32::NEG_INFINITY);
}

#[test]
fn negative_and_tiny_samples_are_ordered() {
    let image = vec![-1.0f32, -2.0, -0.5, 1.0e-40, -1.0e-40, 0.25, -1.0e30, 1.0e30, 0.0, 7.0];
    run_all_functions(&image[..], -1.0e30, 1.0e30);
    let image = vec![-1.0f32, -2.0, -0.5];
    run_all_functions(&image[..], -2.0, -0.5);
}

#[test]
fn last_short_chunk_reaches_the_lanes() {
    let mut image = vec![5.0f32; 16];
    image.push(-9.0);
    image.push(11.0);
    run_all_functions(&image[..], -9.0, 11.0);
    let mut image = vec![5.0f32; 23];
    image[22] = 0.5;
    image[21] = 8.5;
    run_all_functions(&image[..], 0.5, 8.5);
}

#[test]
fn every_position_is_looked_at() {
    for len in 2..40usize {
        for at in 0..len {
            let mut image = vec![10.0f32; len];
            image[at] = 2.0;
            run_all_functions(&image[..], 2.0, 10.0);
            image[at] = 20.0;
            run_all_functions(&image[..], 10.0, 20.0);
        }
    }
}

fn scrambled(len: usize, seed: u32) -> Vec<f32> {
    let mut state: u32 = seed;
    let mut out = Vec::new();
    for _ in 0..len {
        state = state.wrapping_mul(1664525).wrapping_add(1013904223);
        out.push(((state >> 8) % 4095) as f32 - 2000.0);
    }
    out
}

#[test]
fn strategies_agree_on_scrambled_input() {
    for len in [1usize, 7, 8, 9, 64, 100, 1000] {
        let image = scrambled(len, len as u32);
        let mut min = f32::INFINITY;
        let mut max = f32::NEG_INFINITY;
        for x in image.iter() {
            min = min.min(*x);
            max = max.max(*x);
        }
        run_all_functions(&image[..], min, max);
        let bits = patterns(&image);
        let base = range(&bits);
        if !image.contains(&0.0) {
            assert_eq!(range_simd_friendly(&bits), base);
            assert_eq!(range_simd_intrinsics(&bits), base);
            assert_eq!(range_simd(&bits), base);
            for offset in 0..9 {
                assert_eq!(range_simd_split(&bits, offset), base);
            }
        }
    }
}

#[test]
fn two_calls_give_the_same_pair() {
    let image = patterns(&scrambled(123, 77));
    assert_eq!(range(&image), range(&image));
    assert_eq!(range_simd_friendly(&image), range_simd_friendly(&image));
    assert_eq!(range_simd_intrinsics(&image), range_simd_intrinsics(&image));
    assert_eq!(range_simd(&image), range_simd(&image));
    assert_eq!(range_simd_split(&image, 3), range_simd_split(&image, 3));
}

#[test]
fn zeros_of_both_signs_are_one_value_in_two_patterns() {
    let image = patterns(&[5.0f32, -0.0, 1.0, 1.0, 1.0, 1.0, 1.0, 1.0, 0.0]);
    let scalar = range(&image);
    let lanes = range_simd_friendly(&image);
    assert_eq!(scalar.0, (-0.0f32).to_bits());
    assert_eq!(lanes.0, 0.0f32.to_bits());
    assert_eq!(f32::from_bits(scalar.0), f32::from_bits(lanes.0));
    assert_eq!(scalar.1, lanes.1);

    let image = patterns(&[0.0f32, -0.0, 1.0, 1.0, 1.0, 1.0, 1.0, 1.0, 1.0]);
    let at_start = range_simd_split(&image, 0);
    let one_in = range_simd_split(&image, 1);
    assert_eq!(at_start.0, 0.0f32.to_bits());
    assert_eq!(one_in.0, (-0.0f32).to_bits());
    assert_eq!(at_start.1, one_in.1);
}

#[test]
fn split_follows_head_middle_tail() {
    // 0.0 in the head, -0.0 in the middle: the middle is taken first, so the
    // zero that is met first is the negative one.
    let mut image = vec![1.0f32; 20];
    image[2] = 0.0;
    image[5] = -0.0;
    let bits = patterns(&image);
    assert_eq!(range_simd_split(&bits, 3).0, (-0.0f32).to_bits());
    // With the boundary past the end everything is head, taken in order.
    assert_eq!(range_simd_split(&bits, 20).0, 0.0f32.to_bits());
    assert_eq!(range_simd_split(&bits, 1000).0, 0.0f32.to_bits());
    assert_eq!(range_simd_split(&bits, usize::MAX).0, 0.0f32.to_bits());
    // The tail comes last: a zero there does not replace one found before.
    let mut image = vec![1.0f32; 20];
    image[19] = -0.0;
    image[4] = 0.0;
    let bits = patterns(&image);
    assert_eq!(range_simd_split(&bits, 3).0, 0.0f32.to_bits());
    assert_eq!(range_simd_intrinsics(&bits).0, 0.0f32.to_bits());
}
