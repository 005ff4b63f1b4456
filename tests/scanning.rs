use silence_align::scanner::{detect_stops, min_silence_samples, sample_is_silent};

#[test]
fn loud_stream_has_no_boundaries() {
    let samples: Vec<i16> = vec![5, -5, 1, -1, 300, i16::MIN, i16::MAX, 1, 1, 1];
    assert_eq!(detect_stops(&samples, 1, 2), Vec::<usize>::new());
    assert_eq!(detect_stops(&samples, 1, 1), Vec::<usize>::new());
}

#[test]
fn boundary_count_is_bounded_by_windows() {
    let samples: Vec<i16> = vec![0; 10];
    let stops = detect_stops(&samples, 1, 3);
    assert_eq!(stops, vec![3, 6, 9]);
    assert!(stops.len() <= samples.len() / 3);
}

#[test]
fn two_silent_windows_give_two_boundaries() {
    let samples: Vec<i16> = vec![0; 8];
    assert_eq!(detect_stops(&samples, 1, 4), vec![4, 8]);
}

#[test]
fn loud_sample_resets_the_run() {
    let samples: Vec<i16> = vec![0, 0, 7, 0, 0, 0, -9, 0, 0, 0];
    assert_eq!(detect_stops(&samples, 1, 3), vec![6, 10]);
}

#[test]
fn negative_samples_are_compared_by_magnitude() {
    assert!(sample_is_silent(-2, 3));
    assert!(!sample_is_silent(-3, 3));
    assert!(!sample_is_silent(3, 3));
    assert!(!sample_is_silent(i16::MIN, i16::MAX));
    assert!(!sample_is_silent(0, 0));
    let samples: Vec<i16> = vec![-2, 2, -3, -1, 1];
    assert_eq!(detect_stops(&samples, 3, 2), vec![2, 5]);
}

#[test]
fn zero_window_marks_every_silent_sample() {
    let samples: Vec<i16> = vec![0, 4, 0];
    assert_eq!(detect_stops(&samples, 1, 0), vec![1, 3]);
}

#[test]
fn empty_stream_has_no_boundaries() {
    assert_eq!(detect_stops(&Vec::new(), 1, 1), Vec::<usize>::new());
}

#[test]
fn window_is_duration_times_rate_truncated() {
    assert_eq!(min_silence_samples(500, 16000), 8000);
    assert_eq!(min_silence_samples(500, 44100), 22050);
    assert_eq!(min_silence_samples(1, 999), 0);
    assert_eq!(min_silence_samples(333, 8000), 2664);
    assert_eq!(min_silence_samples(u32::MAX, u32::MAX), (u32::MAX as u64) * (u32::MAX as u64) / 1000);
}
