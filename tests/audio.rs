use voice_stream::audio::{
    input_window_size, mixdown, normalize_quantize, peak, process_window, resample, SAMPLE_MAX,
};

#[test]
fn mixdown_stereo_averages_pairs() {
    let out = mixdown(&[2, 4, -3, -4, 7, 8], 2);
    assert_eq!(out, vec![3, -4, 7]);
}

#[test]
fn mixdown_extreme_values() {
    let out = mixdown(&[i32::MAX, i32::MAX, i32::MIN, i32::MIN, i32::MIN, i32::MAX], 2);
    assert_eq!(out, vec![i32::MAX, i32::MIN, -1]);
}

#[test]
fn mixdown_odd_length_passes_through() {
    assert_eq!(mixdown(&[1, 2, 3], 2), vec![1, 2, 3]);
}

#[test]
fn mixdown_mono_passes_through() {
    assert_eq!(mixdown(&[5, 6, 7, 8], 1), vec![5, 6, 7, 8]);
    assert_eq!(mixdown(&[], 2), Vec::<i32>::new());
}

#[test]
fn window_is_one_second_of_input() {
    assert_eq!(input_window_size(16000, 48000), 48000);
    assert_eq!(input_window_size(16000, 44100), 44100);
    assert_eq!(input_window_size(16000, 0), 0);
}

#[test]
fn resample_downsamples_by_whole_steps() {
    assert_eq!(resample(&[0, 10, 20, 30, 40, 50], 3, 1), vec![0, 30]);
}

#[test]
fn resample_interpolates_and_clamps_at_end() {
    assert_eq!(resample(&[0, 10], 1, 2), vec![0, 5, 10, 10]);
}

#[test]
fn resample_interpolates_downward() {
    assert_eq!(resample(&[10, -10], 1, 4), vec![10, 5, 0, -5, -10, -10, -10, -10]);
}

#[test]
fn resample_fractional_step_count() {
    // 44100 -> 16000: ceil(100 * 16000 / 44100) positions
    let chunk: Vec<i32> = (0..100).collect();
    let out = resample(&chunk, 44100, 16000);
    assert_eq!(out.len(), 37);
    assert_eq!(out[0], 0);
    // position 1 stands at 2.75625
    assert_eq!(out[1], 2);
}

#[test]
fn resample_empty_chunk() {
    assert_eq!(resample(&[], 48000, 16000), Vec::<i32>::new());
}

#[test]
fn resample_constant_signal_stays_constant() {
    let chunk = vec![-7i32; 441];
    let out = resample(&chunk, 44100, 16000);
    assert_eq!(out.len(), 160);
    assert!(out.iter().all(|&x| x == -7));
    let up = resample(&chunk, 8000, 16000);
    assert_eq!(up.len(), 882);
    assert!(up.iter().all(|&x| x == -7));
}

#[test]
fn peak_is_largest_magnitude() {
    assert_eq!(peak(&[-5, 3]), 5);
    assert_eq!(peak(&[i32::MIN, 3]), 2147483648);
    assert_eq!(peak(&[]), 0);
}

#[test]
fn normalization_reaches_full_scale() {
    let q = normalize_quantize(&[100, -50, 0, -100, 25]);
    assert_eq!(q, vec![32767, -16383, 0, -32767, 8191]);
    assert_eq!(q.iter().map(|x| (*x as i32).abs()).max(), Some(SAMPLE_MAX as i32));
}

#[test]
fn normalization_scales_quiet_chunks_up() {
    let q = normalize_quantize(&[1, -1, 0]);
    assert_eq!(q, vec![32767, -32767, 0]);
}

#[test]
fn all_zero_chunk_stays_zero() {
    assert_eq!(normalize_quantize(&[0, 0, 0]), vec![0, 0, 0]);
    assert_eq!(normalize_quantize(&[]), Vec::<i16>::new());
}

#[test]
fn quantization_boundaries() {
    let q = normalize_quantize(&[i32::MIN, i32::MAX]);
    assert_eq!(q[0], -32767);
    assert!((q[0] as i32 - i16::MIN as i32).abs() <= 1);
    assert_eq!(q[1], 32766);
    let r = normalize_quantize(&[i32::MAX, -i32::MAX]);
    assert_eq!(r, vec![i16::MAX, -i16::MAX]);
}

#[test]
fn process_window_resamples_then_quantizes() {
    let (res, q) = process_window(&[0, 10, 20, 30], 2, 1);
    assert_eq!(res, vec![0, 20]);
    assert_eq!(q, vec![0, 32767]);
}
