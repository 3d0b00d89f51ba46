use whisper_tool::audio::{
    analysis_frames_of, check_mel_filters, frame_samples, pad_or_trim, to_canonical_rate,
    FeatureError, HOP_LENGTH, N_FFT, N_FRAMES, N_FREQ_BINS, N_SAMPLES,
};

#[test]
fn constants_agree() {
    assert_eq!(N_SAMPLES, 480_000);
    assert_eq!(N_FRAMES, 3000);
    assert_eq!(N_FREQ_BINS, 201);
}

#[test]
fn decimation_keeps_every_third_sample() {
    let n = 5;
    let pcm: Vec<f32> = (0..3 * n).map(|i| i as f32).collect();
    let out = to_canonical_rate(pcm, 48_000);
    assert_eq!(out.len(), n);
    assert_eq!(out, vec![0.0, 3.0, 6.0, 9.0, 12.0]);
}

#[test]
fn decimation_rounds_partial_groups_up() {
    let out = to_canonical_rate(vec![1.0f32, 2.0, 3.0, 4.0], 48_000);
    assert_eq!(out, vec![1.0, 4.0]);
    assert!(to_canonical_rate(Vec::<f32>::new(), 48_000).is_empty());
}

#[test]
fn other_rates_pass_through() {
    let pcm = vec![0.5f32, -0.5, 0.25];
    assert_eq!(to_canonical_rate(pcm.clone(), 16_000), pcm);
    assert_eq!(to_canonical_rate(pcm.clone(), 44_100), pcm);
}

#[test]
fn short_input_is_zero_padded() {
    let pcm = vec![1.0f32; 1000];
    let chunk = pad_or_trim(&pcm, 0.0);
    assert_eq!(chunk.len(), N_SAMPLES);
    assert_eq!(chunk[999], 1.0);
    assert_eq!(chunk[1000], 0.0);
    assert_eq!(chunk[N_SAMPLES - 1], 0.0);
    let frames = analysis_frames_of(&pcm, 0.0);
    assert_eq!(frames.len(), N_FRAMES);
    assert!(frames.iter().all(|f| f.len() == N_FFT));
}

#[test]
fn empty_input_gives_all_frames() {
    let frames = analysis_frames_of::<f32>(&[], 0.0);
    assert_eq!(frames.len(), N_FRAMES);
    assert!(frames.iter().all(|f| f.iter().all(|&x| x == 0.0)));
}

#[test]
fn long_input_is_truncated() {
    let mut a: Vec<f32> = (0..N_SAMPLES + 500).map(|i| (i % 97) as f32).collect();
    let chunk = pad_or_trim(&a, 0.0);
    assert_eq!(chunk.len(), N_SAMPLES);
    assert_eq!(&chunk[..], &a[..N_SAMPLES]);
    let frames_a = analysis_frames_of(&a, 0.0);
    for x in a[N_SAMPLES..].iter_mut() {
        *x = -7.0;
    }
    a.push(3.0);
    let frames_b = analysis_frames_of(&a, 0.0);
    assert_eq!(frames_a, frames_b);
}

#[test]
fn frames_hop_and_pad_past_the_end() {
    let chunk: Vec<u32> = (0..N_SAMPLES as u32).collect();
    let first = frame_samples(&chunk, 0, 0);
    assert_eq!(first.len(), N_FFT);
    assert_eq!(first[0], 0);
    assert_eq!(first[N_FFT - 1], (N_FFT - 1) as u32);
    let second = frame_samples(&chunk, 1, 0);
    assert_eq!(second[0], HOP_LENGTH as u32);
    let last = frame_samples(&chunk, N_FRAMES - 1, 0);
    assert_eq!(last[0], ((N_FRAMES - 1) * HOP_LENGTH) as u32);
    assert_eq!(last[HOP_LENGTH - 1], (N_SAMPLES - 1) as u32);
    assert_eq!(last[HOP_LENGTH], 0);
    assert_eq!(last[N_FFT - 1], 0);
}

#[test]
fn filterbank_shape_is_checked() {
    assert_eq!(check_mel_filters(80, 80 * 201), Ok(()));
    assert_eq!(check_mel_filters(128, 128 * 201), Ok(()));
    assert_eq!(check_mel_filters(80, 80 * 201 - 1), Err(FeatureError::ShapeMismatch));
    assert_eq!(check_mel_filters(128, 80 * 201), Err(FeatureError::ShapeMismatch));
    assert_eq!(check_mel_filters(usize::MAX, 0), Err(FeatureError::ShapeMismatch));
}
