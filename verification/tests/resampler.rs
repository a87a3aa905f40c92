use bae_resampler::{MonoResamplerFast, Sample, SILENCE};

/// Amplitude that stands for 1.0 in these tests: twenty-four fractional bits.
const UNITY: Sample = 1 << 24;

fn fixed(x: f32) -> Sample {
    (x * UNITY as f32) as Sample
}

fn float(s: Sample) -> f32 {
    s as f32 / UNITY as f32
}

fn float_equal(a: f32, b: f32, e: f32, abs: fn(f32) -> f32) -> bool {
    abs(a - b) < e
}

fn ramp() -> Vec<Sample> {
    vec![fixed(0.0), fixed(1.0), fixed(2.0), fixed(3.0)]
}

fn take(r: &mut MonoResamplerFast, n: usize) -> Vec<Sample> {
    let mut produced = Vec::new();
    for _ in 0..n {
        produced.push(r.process());
    }
    produced
}

#[test]
fn test_mono_resampler_fast() {
    const SAMPLE_RATE: u32 = 48000;

    let sam = ramp();

    let mut r = MonoResamplerFast::new(sam.clone(), SAMPLE_RATE, SAMPLE_RATE / 2, 0, 0);
    for i in 0..7 {
        let s = r.process();

        assert!(float_equal(float(s), i as f32 / 2.0, f32::EPSILON, f32::abs));
    }

    let mut r = MonoResamplerFast::new(sam.clone(), SAMPLE_RATE, SAMPLE_RATE * 2, 0, 0);
    for i in 0..2 {
        let s = r.process();

        assert!(float_equal(float(s), (i * 2) as f32, f32::EPSILON, f32::abs));
    }
}

#[test]
fn equal_rates_reproduce_the_source() {
    let source: Vec<Sample> = vec![5, -3, 7, i32::MAX, i32::MIN];
    let mut r = MonoResamplerFast::new(source.clone(), 44100, 44100, 0, 0);
    assert_eq!(take(&mut r, 5), source);
    assert_eq!(take(&mut r, 3), vec![SILENCE, SILENCE, SILENCE]);
}

#[test]
fn half_increment_interpolates_midpoints() {
    let mut r = MonoResamplerFast::new(ramp(), 48000, 24000, 0, 0);
    let expected: Vec<Sample> =
        [0.0, 0.5, 1.0, 1.5, 2.0, 2.5, 3.0].iter().map(|x| fixed(*x)).collect();
    assert_eq!(take(&mut r, 7), expected);
}

#[test]
fn half_increment_fades_into_the_silent_tail() {
    let mut r = MonoResamplerFast::new(ramp(), 48000, 24000, 0, 0);
    take(&mut r, 7);
    // Half way between the last sample and the silence behind it.
    assert_eq!(r.process(), fixed(1.5));
    assert_eq!(take(&mut r, 4), vec![SILENCE; 4]);
}

#[test]
fn double_increment_skips_every_other_sample() {
    let mut r = MonoResamplerFast::new(ramp(), 48000, 96000, 0, 0);
    assert_eq!(take(&mut r, 2), vec![fixed(0.0), fixed(2.0)]);
    assert_eq!(take(&mut r, 5), vec![SILENCE; 5]);
}

#[test]
fn second_point_lies_one_increment_ahead() {
    // Three source samples for every two produced: positions 0, 1.5, 3, 4.5,
    // each interpolated towards the sample that lies 1.5 further on.
    let source: Vec<Sample> = vec![0, 10, 20, 30, 40, 50];
    let mut r = MonoResamplerFast::new(source, 2, 3, 0, 0);
    // 0; 10 + (30 - 10) / 2; 30; 40 + (0 - 40) / 2; used up.
    assert_eq!(take(&mut r, 5), vec![0, 20, 30, 20, SILENCE]);
}

#[test]
fn thirds_round_down() {
    let source: Vec<Sample> = vec![0, 10, 0, -10];
    let mut r = MonoResamplerFast::new(source, 3, 1, 0, 0);
    // At a third past a sample both points lie on it; at two thirds the
    // second point is the next sample: 20/3, 10 - 20/3, -20/3, -10 + 20/3.
    assert_eq!(
        take(&mut r, 13),
        vec![0, 0, 6, 10, 10, 3, 0, 0, -7, -10, -10, -4, SILENCE]
    );
}

#[test]
fn zero_input_rate_repeats_the_first_sample() {
    let mut r = MonoResamplerFast::new(vec![9, 8, 7], 48000, 0, 0, 0);
    assert_eq!(take(&mut r, 4), vec![9, 9, 9, 9]);
}

#[test]
fn empty_source_is_silent() {
    let mut r = MonoResamplerFast::new(Vec::new(), 48000, 48000, 0, 0);
    assert_eq!(take(&mut r, 3), vec![SILENCE; 3]);
    let mut looping = MonoResamplerFast::new(Vec::new(), 48000, 48000, 0, 2);
    assert_eq!(take(&mut looping, 5), vec![SILENCE; 5]);
}

#[test]
fn block_equals_repeated_single() {
    let source: Vec<Sample> = vec![3, -14, 15, -92, 65, -35, 89, -79];
    let configurations: [(u32, u32, usize, usize); 6] = [
        (48000, 48000, 0, 0),
        (48000, 44100, 0, 0),
        (44100, 48000, 2, 6),
        (8000, 22050, 1, 7),
        (3, 7, 6, 2),
        (5, 2, 0, 12),
    ];
    for (output_rate, input_rate, loop_start, loop_end) in configurations {
        for n in [0usize, 1, 2, 7, 40] {
            let make = || {
                MonoResamplerFast::new(
                    source.clone(),
                    output_rate,
                    input_rate,
                    loop_start,
                    loop_end,
                )
            };
            let mut single = make();
            let mut block = make();
            let one_by_one = take(&mut single, n);
            let mut out: Vec<Sample> = vec![1234; n];
            block.process_block(&mut out[..]);
            assert_eq!(out, one_by_one);
            // Both were left in the same place.
            assert_eq!(take(&mut block, 9), take(&mut single, 9));
        }
    }
}

#[test]
fn two_blocks_equal_one() {
    let source: Vec<Sample> = vec![3, -14, 15, -92, 65, -35, 89, -79];
    let mut whole = MonoResamplerFast::new(source.clone(), 48000, 44100, 1, 6);
    let mut halves = MonoResamplerFast::new(source, 48000, 44100, 1, 6);
    let mut expected: Vec<Sample> = vec![0; 25];
    whole.process_block(&mut expected[..]);
    let mut out: Vec<Sample> = vec![0; 25];
    let (first, second) = out.split_at_mut(11);
    halves.process_block(first);
    halves.process_block(second);
    assert_eq!(out, expected);
}

#[test]
fn block_past_the_end_is_filled_with_silence() {
    let mut r = MonoResamplerFast::new(ramp(), 48000, 48000, 0, 0);
    let mut out: Vec<Sample> = vec![77; 9];
    r.process_block(&mut out[..]);
    assert_eq!(
        out,
        vec![fixed(0.0), fixed(1.0), fixed(2.0), fixed(3.0), 0, 0, 0, 0, 0]
    );
}

#[test]
fn exhausted_resampler_stays_silent() {
    let mut r = MonoResamplerFast::new(vec![1, 2, 3], 1, 1, 0, 0);
    take(&mut r, 3);
    for _ in 0..1000 {
        assert_eq!(r.process(), SILENCE);
    }
    let mut out: Vec<Sample> = vec![5; 16];
    r.process_block(&mut out[..]);
    assert_eq!(out, vec![SILENCE; 16]);
}

#[test]
fn loop_repeats_the_region() {
    let source: Vec<Sample> = vec![10, 20, 30, 40, 50];
    let mut r = MonoResamplerFast::new(source, 1, 1, 1, 4);
    assert_eq!(take(&mut r, 10), vec![10, 20, 30, 40, 20, 30, 40, 20, 30, 40]);
}

#[test]
fn loop_interpolates_across_the_seam() {
    let source: Vec<Sample> = vec![10, 20, 30, 40, 50];
    let mut r = MonoResamplerFast::new(source, 2, 1, 1, 4);
    // Positions 0, 0.5, .., 3.5, then back to 1: past 40 the second point
    // has already wrapped to the start of the region.
    assert_eq!(
        take(&mut r, 12),
        vec![10, 15, 20, 25, 30, 35, 40, 30, 20, 25, 30, 35]
    );
}

#[test]
fn loop_never_drifts() {
    let source: Vec<Sample> = vec![-1000, 100, 200, 300, 400, 1000];
    // Increment 441/480 over the region [1, 5): everything played after the
    // first sample lies between the samples of the region.
    let mut r = MonoResamplerFast::new(source, 48000, 44100, 1, 5);
    r.process();
    r.process();
    for _ in 0..100_000 {
        let s = r.process();
        assert!((100..=400).contains(&s));
    }
}

#[test]
fn increment_as_long_as_the_loop_region() {
    let source: Vec<Sample> = vec![10, 20, 30, 40, 50];
    let mut r = MonoResamplerFast::new(source, 1, 3, 1, 4);
    assert_eq!(take(&mut r, 6), vec![10, 40, 40, 40, 40, 40]);
}

#[test]
fn increment_longer_than_the_loop_region_runs_ahead() {
    let source: Vec<Sample> = vec![0, 1, 2, 3, 4, 5, 6, 7, 8, 9];
    // Each advance is by three and each correction by two, once.
    let mut r = MonoResamplerFast::new(source, 1, 3, 2, 4);
    assert_eq!(
        take(&mut r, 10),
        vec![0, 3, 4, 5, 6, 7, 8, 9, SILENCE, SILENCE]
    );
}

#[test]
fn loop_end_past_the_source_reads_silence() {
    let mut r = MonoResamplerFast::new(vec![1, 2], 1, 1, 0, 5);
    assert_eq!(take(&mut r, 11), vec![1, 2, 0, 0, 0, 1, 2, 0, 0, 0, 1]);
}

#[test]
fn empty_loop_region_corrects_by_zero() {
    let mut r = MonoResamplerFast::new(vec![1, 2, 3, 4], 1, 1, 2, 2);
    assert_eq!(take(&mut r, 6), vec![1, 2, 3, 4, SILENCE, SILENCE]);
}

#[test]
fn clone_starts_over_with_the_same_configuration() {
    let source: Vec<Sample> = vec![10, 20, 30, 40, 50];
    let mut played = MonoResamplerFast::new(source.clone(), 48000, 32000, 1, 4);
    let mut fresh = MonoResamplerFast::new(source, 48000, 32000, 1, 4);
    let first = take(&mut fresh, 20);
    take(&mut played, 7);
    let mut copy = played.clone();
    assert_eq!(copy.process(), first[0]);
    assert_eq!(take(&mut copy, 19), first[1..].to_vec());
    // The one that was cloned goes on from where it was.
    assert_eq!(take(&mut played, 13), first[7..].to_vec());
}

#[test]
fn clone_of_an_exhausted_resampler_plays_again() {
    let mut r = MonoResamplerFast::new(vec![4, 5], 1, 1, 0, 0);
    take(&mut r, 5);
    let mut copy = r.clone();
    assert_eq!(take(&mut copy, 3), vec![4, 5, SILENCE]);
    assert_eq!(r.process(), SILENCE);
}

#[test]
fn loop_bounds_in_either_order() {
    let source: Vec<Sample> = vec![10, 20, 30, 40, 50, 60];
    for (low, high) in [(1usize, 4usize), (0, 3), (2, 6), (0, 5), (3, 3)] {
        let mut ordered = MonoResamplerFast::new(source.clone(), 48000, 44100, low, high);
        let mut reversed = MonoResamplerFast::new(source.clone(), 48000, 44100, high, low);
        assert_eq!(take(&mut reversed, 200), take(&mut ordered, 200));
    }
}

#[test]
fn both_bounds_zero_disable_looping() {
    let mut r = MonoResamplerFast::new(vec![1, 2, 3], 1, 1, 0, 0);
    assert_eq!(take(&mut r, 5), vec![1, 2, 3, SILENCE, SILENCE]);
}
