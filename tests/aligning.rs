use silence_align::align::{
    align, align_recording, align_samples, apply_correction, shift_stops_to_starts, zero_first_stop, AlignConfig,
    EdgeCorrection, Stop,
};
use silence_align::audio::{decode_recording, AudioError, Recording};
use silence_align::segment::SegmentPolicy;
use std::io::Cursor;

fn strings(v: &[&str]) -> Vec<String> {
    v.iter().map(|s| s.to_string()).collect()
}

fn pairs(stops: &[Stop]) -> Vec<(String, usize)> {
    stops.iter().map(|s| (s.sentence.clone(), s.audio_stop)).collect()
}

fn wav_bytes(rate: u32, bits: u16, samples: &[i32]) -> Vec<u8> {
    let spec = hound::WavSpec {
        channels: 1,
        sample_rate: rate,
        bits_per_sample: bits,
        sample_format: hound::SampleFormat::Int,
    };
    let mut cursor = Cursor::new(Vec::new());
    {
        let mut writer = hound::WavWriter::new(&mut cursor, spec).unwrap();
        for s in samples {
            writer.write_sample(*s).unwrap();
        }
        writer.finalize().unwrap();
    }
    cursor.into_inner()
}

fn config(policy: SegmentPolicy, correction: EdgeCorrection) -> AlignConfig {
    AlignConfig { policy, correction, silence_threshold: 1, min_silence_ms: 500 }
}

#[test]
fn zip_truncates_to_fewer_boundaries_or_sentences() {
    let three = strings(&["a.", "b.", "c."]);
    let five = strings(&["a.", "b.", "c.", "d.", "e."]);
    let r = align(&three, &vec![1, 2, 3, 4, 5]);
    assert_eq!(r.len(), 3);
    assert_eq!(pairs(&r), vec![("a.".to_string(), 1), ("b.".to_string(), 2), ("c.".to_string(), 3)]);
    let r = align(&five, &vec![10, 20, 30]);
    assert_eq!(r.len(), 3);
    assert_eq!(pairs(&r)[2], ("c.".to_string(), 30));
    assert!(align(&Vec::new(), &vec![1]).is_empty());
    assert!(align(&three, &Vec::new()).is_empty());
}

#[test]
fn first_stop_is_zero_under_either_correction() {
    let s = strings(&["a.", "b.", "c."]);
    let mut first = align(&s, &vec![7, 9, 12]);
    zero_first_stop(&mut first);
    assert_eq!(pairs(&first), vec![("a.".to_string(), 0), ("b.".to_string(), 9), ("c.".to_string(), 12)]);
    let mut shifted = align(&s, &vec![7, 9, 12]);
    shift_stops_to_starts(&mut shifted);
    assert_eq!(pairs(&shifted), vec![("a.".to_string(), 0), ("b.".to_string(), 7), ("c.".to_string(), 9)]);
}

#[test]
fn corrections_leave_empty_input_alone() {
    let mut none: Vec<Stop> = Vec::new();
    zero_first_stop(&mut none);
    shift_stops_to_starts(&mut none);
    assert!(none.is_empty());
    let mut one = align(&strings(&["x."]), &vec![5]);
    apply_correction(&mut one, EdgeCorrection::ShiftToStarts);
    assert_eq!(pairs(&one), vec![("x.".to_string(), 0)]);
    let mut off = align(&strings(&["x."]), &vec![5]);
    apply_correction(&mut off, EdgeCorrection::Off);
    assert_eq!(pairs(&off), vec![("x.".to_string(), 5)]);
}

#[test]
fn silent_two_seconds_end_to_end() {
    let wav = wav_bytes(16000, 16, &vec![0; 32000]);
    let rec = decode_recording(&wav).unwrap();
    assert_eq!(rec.sample_rate, 16000);
    let window = silence_align::scanner::min_silence_samples(500, rec.sample_rate);
    let boundaries = silence_align::scanner::detect_stops(&rec.samples, 1, window);
    let seconds: Vec<f64> = boundaries.iter().map(|b| *b as f64 / 16000.0).collect();
    assert_eq!(seconds, vec![0.5, 1.0, 1.5, 2.0]);
    let cfg = config(SegmentPolicy::Punctuated, EdgeCorrection::Off);
    let a = align_recording("a.wav".to_string(), "t.txt".to_string(), &wav, "One. Two.", &cfg).unwrap();
    assert_eq!(a.audio_path, "a.wav");
    assert_eq!(a.text_path, "t.txt");
    let stops: Vec<(String, f64)> =
        a.stops.iter().map(|s| (s.sentence.clone(), s.audio_stop as f64 / a.sample_rate as f64)).collect();
    assert_eq!(stops, vec![("One.".to_string(), 0.5), ("Two.".to_string(), 1.0)]);
}

#[test]
fn standard_config_zeroes_the_first_stop() {
    let cfg = AlignConfig::standard();
    assert_eq!(cfg.silence_threshold, 1);
    assert_eq!(cfg.min_silence_ms, 500);
    let mut samples = vec![0; 4000];
    samples.extend(vec![100; 4000]);
    samples.extend(vec![0; 4000]);
    let wav = wav_bytes(8000, 16, &samples);
    let a = align_recording(String::new(), String::new(), &wav, "A. B? C!", &cfg).unwrap();
    assert_eq!(a.sample_rate, 8000);
    assert_eq!(pairs(&a.stops), vec![("A.".to_string(), 0), ("B?".to_string(), 12000)]);
}

#[test]
fn decoding_returns_the_written_samples() {
    let wav = wav_bytes(22050, 16, &[3, -4, 0, i16::MIN as i32]);
    let rec = decode_recording(&wav).unwrap();
    assert_eq!(rec.sample_rate, 22050);
    assert_eq!(rec.samples, vec![3, -4, 0, i16::MIN]);
}

#[test]
fn malformed_container_is_a_decode_error() {
    let cfg = config(SegmentPolicy::PeriodOnly, EdgeCorrection::Off);
    let r = align_recording(String::new(), String::new(), &b"not a wave file".to_vec(), "A.", &cfg);
    assert_eq!(r.err(), Some(AudioError::Decode));
    assert_eq!(decode_recording(&Vec::new()).err(), Some(AudioError::Decode));
}

#[test]
fn too_wide_samples_are_a_sample_read_error() {
    let wav = wav_bytes(8000, 24, &[1, 2, 3]);
    assert_eq!(decode_recording(&wav).err(), Some(AudioError::SampleRead));
}

#[test]
fn decoded_samples_align_with_shift_to_starts() {
    let mut samples = vec![0i16; 5];
    samples.extend(vec![-40i16; 3]);
    samples.extend(vec![0i16; 10]);
    let rec = Recording { sample_rate: 10, samples };
    let cfg = AlignConfig {
        policy: SegmentPolicy::PeriodOnly,
        correction: EdgeCorrection::ShiftToStarts,
        silence_threshold: 1,
        min_silence_ms: 500,
    };
    let stops = align_samples(&rec, "One. Two? Three. Four.", &cfg);
    assert_eq!(
        pairs(&stops),
        vec![("One".to_string(), 0), ("Two? Three".to_string(), 5), ("Four".to_string(), 13)]
    );
    let off = AlignConfig { correction: EdgeCorrection::Off, ..cfg };
    let stops = align_samples(&rec, "One. Two? Three. Four.", &off);
    assert_eq!(
        pairs(&stops),
        vec![("One".to_string(), 5), ("Two? Three".to_string(), 13), ("Four".to_string(), 18)]
    );
}
