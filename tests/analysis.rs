use spectrum_analyzer::windows::hann_window;
use spectrum_analyzer::{samples_fft_to_spectrum, FrequencyLimit};
use spektar::analysis::{fit_frame, transform_size, MAX_TRANSFORM_SIZE};
use spektar::bands::{map_bands, FULL_SCALE};
use spektar::pipeline::Pipeline;
use spektar::sample_buffer::SampleBuffer;

fn magnitudes_of(frame: &[f32], sample_rate: u32, f_min: f32, f_max: f32) -> Vec<(f32, u32)> {
    let windowed = hann_window(frame);
    let fitted = fit_frame(&windowed, 0.0);
    let spectrum =
        samples_fft_to_spectrum(&fitted, sample_rate, FrequencyLimit::Range(f_min, f_max), None)
            .unwrap();
    spectrum
        .data()
        .iter()
        .map(|(f, m)| (f.val(), (m.val() * FULL_SCALE as f32) as u32))
        .collect()
}

#[test]
fn transform_size_rounds_up_to_power_of_two() {
    assert_eq!(transform_size(0), 2);
    assert_eq!(transform_size(1), 2);
    assert_eq!(transform_size(2), 2);
    assert_eq!(transform_size(3), 4);
    assert_eq!(transform_size(1000), 1024);
    assert_eq!(transform_size(1024), 1024);
    assert_eq!(transform_size(1025), 2048);
    assert_eq!(transform_size(16384), 16384);
    assert_eq!(transform_size(100000), MAX_TRANSFORM_SIZE);
}

#[test]
fn fit_frame_pads_and_truncates() {
    assert_eq!(fit_frame(&[1, 2, 3], 0), vec![1, 2, 3, 0]);
    assert_eq!(fit_frame(&[7], 9), vec![7, 9]);
    let long: Vec<u32> = (0..20000).collect();
    let fitted = fit_frame(&long, 0);
    assert_eq!(fitted.len(), 16384);
    assert_eq!(fitted[16383], 16383);
}

#[test]
fn map_bands_length_for_any_bin_count() {
    for bins in [0usize, 1, 2, 5, 39, 40, 41, 464, 1000] {
        let mags: Vec<u32> = vec![100; bins];
        for n in [0usize, 1, 7, 40] {
            assert_eq!(map_bands(&mags, n).len(), n);
        }
    }
}

#[test]
fn map_bands_empty_bins_gives_zero_bands() {
    assert_eq!(map_bands(&[], 4), vec![0, 0, 0, 0]);
}

#[test]
fn map_bands_exact_values() {
    // Two bands over three bins: band 0 covers [0, 0), band 1 covers [0, 3).
    assert_eq!(map_bands(&[70000, 0, 5], 2), vec![0, 23335]);
    // Four bands over sixteen bins: [0,1), [1,4), [4,9), [9,16).
    let mags: Vec<u32> = (0..16).map(|k| k * 1000).collect();
    assert_eq!(map_bands(&mags, 4), vec![0, 2000, 6000, 12000]);
}

#[test]
fn map_bands_clamps_to_full_scale() {
    let mags: Vec<u32> = vec![u32::MAX; 50];
    let bands = map_bands(&mags, 10);
    assert!(bands.iter().all(|&b| b <= FULL_SCALE));
    assert_eq!(bands[9], FULL_SCALE);
}

#[test]
fn silence_gives_all_zero_bands() {
    let frame = vec![0.0f32; 1024];
    let mags: Vec<u32> = magnitudes_of(&frame, 44100, 20.0, 20000.0)
        .into_iter()
        .map(|(_, m)| m)
        .collect();
    assert!(!mags.is_empty());
    assert_eq!(map_bands(&mags, 40), vec![0; 40]);
}

#[test]
fn sine_at_one_kilohertz_lights_its_band() {
    let sample_rate: u32 = 44100;
    let frame: Vec<f32> = (0..1024)
        .map(|k| (2.0 * std::f32::consts::PI * 1000.0 * k as f32 / sample_rate as f32).sin())
        .collect();
    let bins = magnitudes_of(&frame, sample_rate, 20.0, 20000.0);
    let mags: Vec<u32> = bins.iter().map(|&(_, m)| m).collect();
    let bands = map_bands(&mags, 40);
    assert_eq!(bands.len(), 40);
    assert!(bands.iter().all(|&b| b <= FULL_SCALE));

    // The bin nearest 1000 Hz, and the band whose range of bins holds it.
    let l = bins.len();
    let pos = (0..l)
        .min_by(|&a, &b| {
            let da = (bins[a].0 - 1000.0).abs();
            let db = (bins[b].0 - 1000.0).abs();
            da.partial_cmp(&db).unwrap()
        })
        .unwrap();
    let band = (0..40usize)
        .find(|&i| {
            let start = i * i * l / 1600;
            let end = ((i + 1) * (i + 1) * l / 1600).min(l);
            start <= pos && pos < end
        })
        .unwrap();
    let margin = (3 * FULL_SCALE / 10) as u64;
    assert!(bands[band] as u64 > bands[0] as u64 + margin);
}

#[test]
fn fresh_pipeline_is_empty() {
    let p = Pipeline::new(1024, 40, 50);
    assert_eq!(p.current_band_frame(), None);
    assert!(p.history().is_empty());
}

#[test]
fn pipeline_waits_for_a_full_frame() {
    let p = Pipeline::new(4, 2, 3);
    let mut samples: SampleBuffer<i32> = SampleBuffer::new(16);
    samples.push(&[1, 2, 3]);
    assert_eq!(p.take_frame(&mut samples), None);
    samples.push(&[4, 5]);
    assert_eq!(p.take_frame(&mut samples), Some(vec![1, 2, 3, 4]));
    assert_eq!(samples.len(), 1);
}

#[test]
fn pipeline_history_keeps_latest_band_frames() {
    let mut p = Pipeline::new(4, 2, 2);
    p.accept_spectrum(&[70000, 0, 5]);
    p.accept_spectrum(&[0, 0, 0]);
    p.accept_spectrum(&[10, 20, 30, 40]);
    assert_eq!(p.history().len(), 2);
    assert_eq!(p.history()[0], vec![0, 0]);
    // Band 0 covers [0, 1), band 1 covers [1, 4).
    assert_eq!(p.current_band_frame(), Some(&vec![10, 30]));
    assert_eq!(p.num_bands(), 2);
    assert_eq!(p.frame_size(), 4);
}
