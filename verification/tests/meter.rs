use vsm::meter::Levels;

fn pattern(samples: &[f32]) -> Vec<u32> {
    samples.iter().map(|v| v.to_bits()).collect()
}

fn taken(levels: &mut Levels, now: i64) -> [f32; 3] {
    levels.take(now).map(f32::from_bits)
}

#[test]
fn selected_channel_and_stereo_peaks_do_not_modify_audio() {
    let mut levels = Levels::new();
    let pcm = [-1.2, 0.25, 0.1, -0.5];
    levels.input(&pattern(&pcm), 2, 1, 1);
    levels.output(&pattern(&pcm), 1);
    assert_eq!(taken(&mut levels, 2), [0.5, 1.2, 0.5]);
    assert_eq!(pcm, [-1.2, 0.25, 0.1, -0.5]);
    levels.input(&pattern(&[0.75, -1.]), 1, 0, 3);
    assert_eq!(taken(&mut levels, 4), [1., 0., 0.]);
}

#[test]
fn transients_survive_quiet_packets_and_reset_on_read() {
    let mut levels = Levels::new();
    levels.input(&pattern(&[-1.]), 1, 0, 1);
    levels.input(&pattern(&[0.; 480]), 1, 0, 10_000_001);
    assert_eq!(taken(&mut levels, 50_000_001), [1., 0., 0.]);
    assert_eq!(taken(&mut levels, 100_000_001), [0.; 3]);
}

#[test]
fn stale_and_invalid_input_is_silent() {
    let mut levels = Levels::new();
    assert_eq!(taken(&mut levels, 1), [0.; 3]);
    levels.input(&pattern(&[1.]), 1, 0, 1);
    levels.output(&pattern(&[1., 1.]), 1);
    assert_eq!(taken(&mut levels, 250_000_002), [0.; 3]);
    levels.input(&pattern(&[f32::NAN, f32::INFINITY]), 1, 0, 300_000_000);
    levels.output(&pattern(&[f32::NAN, f32::NEG_INFINITY]), 300_000_000);
    assert_eq!(taken(&mut levels, 300_000_001), [0.; 3]);
    levels.input(&pattern(&[1.]), 1, 1, 300_000_002);
    levels.input(&pattern(&[1.]), 0, 0, 300_000_003);
    assert_eq!(taken(&mut levels, 300_000_004), [0.; 3]);
}

#[test]
fn peaks_count_for_a_quarter_of_a_second() {
    let mut levels = Levels::new();
    levels.output(&pattern(&[0.5, -0.25]), 1);
    assert_eq!(taken(&mut levels, 250_000_001), [0., 0.5, 0.25]);
}
