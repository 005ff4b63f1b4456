//! The aligner: pairs sentences with silence boundaries in order, and the
//! whole pipeline from a recording and a transcript to an alignment.

use crate::audio::{decode_recording, wav_header_rate, wav_samples, AudioError, Recording};
use crate::scanner::{detect_stops, min_silence_samples, silence_boundaries};
use crate::segment::{segment, sentences, SegmentPolicy};
use vstd::prelude::*;

verus! {

/// One sentence and the boundary paired with it, in samples from the start
/// of the recording.
pub struct Stop {
    pub sentence: String,
    pub audio_stop: usize,
}

impl View for Stop {
    type V = (Seq<char>, int);

    open spec fn view(&self) -> (Seq<char>, int) {
        (self.sentence@, self.audio_stop as int)
    }
}

/// The correction applied to the paired timestamps.
#[derive(Clone, Copy, Debug, PartialEq, Eq, Structural)]
pub enum EdgeCorrection {
    /// Each sentence keeps the boundary it was paired with.
    Off,
    /// The first sentence is taken to start where the recording starts; the
    /// others keep their boundary, which then marks where they end.
    FirstAtZero,
    /// Every timestamp moves one sentence later and the first becomes zero,
    /// so that each marks where its sentence starts rather than where the one
    /// before it ends. The two readings differ from the second sentence on;
    /// which one a run wants is the caller's choice.
    ShiftToStarts,
}

/// The tuning of one alignment run.
pub struct AlignConfig {
    pub policy: SegmentPolicy,
    pub correction: EdgeCorrection,
    /// Samples whose absolute amplitude is below this count as silent.
    pub silence_threshold: i16,
    /// How long, in milliseconds, a silence must last to mark a boundary.
    pub min_silence_ms: u32,
}

/// The outcome of one run: the two inputs, the recording's sample rate, and
/// the sentences with their timestamps in samples.
pub struct Alignment {
    pub audio_path: String,
    pub text_path: String,
    pub sample_rate: u32,
    pub stops: Vec<Stop>,
}

impl AlignConfig {
    /// Threshold 1 (only exact zeros are silent), half a second of silence,
    /// sentences cut at `.`, `?` and `!`, and the first sentence set to zero.
    pub fn standard() -> (r: AlignConfig)
        ensures
            r.policy == SegmentPolicy::Punctuated,
            r.correction == EdgeCorrection::FirstAtZero,
            r.silence_threshold == 1,
            r.min_silence_ms == 500,
    {
        AlignConfig {
            policy: SegmentPolicy::Punctuated,
            correction: EdgeCorrection::FirstAtZero,
            silence_threshold: 1,
            min_silence_ms: 500,
        }
    }
}

/// The sentences paired in order with the boundaries, as far as the shorter
/// of the two goes.
pub open spec fn zipped(sentences: Seq<Seq<char>>, boundaries: Seq<int>) -> Seq<(Seq<char>, int)> {
    let n = if sentences.len() <= boundaries.len() {
        sentences.len()
    } else {
        boundaries.len()
    };
    Seq::new(n, |i: int| (sentences[i], boundaries[i]))
}

/// `stops` after `correction`.
pub open spec fn corrected(stops: Seq<(Seq<char>, int)>, correction: EdgeCorrection) -> Seq<
    (Seq<char>, int),
> {
    match correction {
        EdgeCorrection::Off => stops,
        EdgeCorrection::FirstAtZero => Seq::new(
            stops.len(),
            |i: int|
                (stops[i].0, if i == 0 {
                    0
                } else {
                    stops[i].1
                }),
        ),
        EdgeCorrection::ShiftToStarts => Seq::new(
            stops.len(),
            |i: int|
                (stops[i].0, if i == 0 {
                    0
                } else {
                    stops[i - 1].1
                }),
        ),
    }
}

/// Pairs the sentences with the boundaries in order; what is left over on
/// either side is dropped.
pub fn align(sentences: &Vec<String>, boundaries: &Vec<usize>) -> (stops: Vec<Stop>)
    ensures
        stops@.map_values(|s: Stop| s@) == zipped(
            sentences@.map_values(|s: String| s@),
            boundaries@.map_values(|b: usize| b as int),
        ),
{
    let n: usize = if sentences.len() <= boundaries.len() {
        sentences.len()
    } else {
        boundaries.len()
    };
    let ghost want = zipped(
        sentences@.map_values(|s: String| s@),
        boundaries@.map_values(|b: usize| b as int),
    );
    let mut stops: Vec<Stop> = Vec::new();
    let mut i: usize = 0;
    while i < n
        invariant
            n <= sentences@.len(),
            n <= boundaries@.len(),
            want == zipped(
                sentences@.map_values(|s: String| s@),
                boundaries@.map_values(|b: usize| b as int),
            ),
            want.len() == n,
            i <= n,
            stops@.map_values(|s: Stop| s@) == want.subrange(0, i as int),
        decreases n - i,
    {
        let ghost before = stops@;
        let sentence = sentences[i].clone();
        let stop = Stop { sentence, audio_stop: boundaries[i] };
        assert(stop@ == want[i as int]);
        stops.push(stop);
        assert(before.map_values(|s: Stop| s@) =~= want.subrange(0, i as int));
        assert(stops@.map_values(|s: Stop| s@) =~= want.subrange(0, i + 1)) by {
            assert(stops@ == before.push(stop));
            assert(before.map_values(|s: Stop| s@).len() == i);
            assert(stops@.len() == i + 1);
            assert(stops@.map_values(|s: Stop| s@).len() == i + 1);
            assert forall|j: int| 0 <= j < i + 1 implies stops@.map_values(|s: Stop| s@)[j] == #[trigger] want[j] by {
                if j < i {
                    assert(before.map_values(|s: Stop| s@)[j] == want[j]);
                }
            }
        }
        i = i + 1;
    }
    assert(want.subrange(0, n as int) =~= want);
    stops
}

/// Sets the first timestamp to zero, where there is one.
pub fn zero_first_stop(stops: &mut Vec<Stop>)
    ensures
        final(stops)@.map_values(|s: Stop| s@) == corrected(
            old(stops)@.map_values(|s: Stop| s@),
            EdgeCorrection::FirstAtZero,
        ),
{
    if stops.len() > 0 {
        stops[0].audio_stop = 0;
    }
    assert(final(stops)@.map_values(|s: Stop| s@) =~= corrected(
        old(stops)@.map_values(|s: Stop| s@),
        EdgeCorrection::FirstAtZero,
    ));
}

/// Moves every timestamp one sentence later, from the last down, and sets the
/// first to zero.
pub fn shift_stops_to_starts(stops: &mut Vec<Stop>)
    ensures
        final(stops)@.map_values(|s: Stop| s@) == corrected(
            old(stops)@.map_values(|s: Stop| s@),
            EdgeCorrection::ShiftToStarts,
        ),
{
    let ghost orig = stops@.map_values(|s: Stop| s@);
    let n = stops.len();
    if n == 0 {
        assert(stops@.map_values(|s: Stop| s@) =~= corrected(orig, EdgeCorrection::ShiftToStarts));
        return;
    }
    let mut i: usize = n - 1;
    while i > 0
        invariant
            i < n,
            stops@.len() == n,
            orig.len() == n,
            forall|j: int| 0 <= j <= i ==> #[trigger] stops@[j]@ == orig[j],
            forall|j: int|
                i < j < n ==> #[trigger] stops@[j]@ == (orig[j].0, orig[j - 1].1),
        decreases i,
    {
        assert(stops@[i - 1]@ == orig[i - 1]);
        assert(stops@[i as int]@ == orig[i as int]);
        let prev = stops[i - 1].audio_stop;
        stops[i].audio_stop = prev;
        assert(stops@[i as int]@ == (orig[i as int].0, orig[i - 1].1));
        i = i - 1;
    }
    assert(stops@[0]@ == orig[0]);
    stops[0].audio_stop = 0;
    assert forall|j: int| 0 <= j < n implies #[trigger] stops@[j]@ == corrected(
        orig,
        EdgeCorrection::ShiftToStarts,
    )[j] by {
        if j > 0 {
            assert(stops@[j]@ == (orig[j].0, orig[j - 1].1));
        }
    }
    assert(stops@.map_values(|s: Stop| s@) =~= corrected(orig, EdgeCorrection::ShiftToStarts));
}

/// Applies `correction` to `stops`.
pub fn apply_correction(stops: &mut Vec<Stop>, correction: EdgeCorrection)
    ensures
        final(stops)@.map_values(|s: Stop| s@) == corrected(
            old(stops)@.map_values(|s: Stop| s@),
            correction,
        ),
{
    match correction {
        EdgeCorrection::Off => {},
        EdgeCorrection::FirstAtZero => zero_first_stop(stops),
        EdgeCorrection::ShiftToStarts => shift_stops_to_starts(stops),
    }
}

/// The stops that a run with `config` gives for a recording with these
/// samples at `sample_rate` and for `text`.
pub open spec fn expected_stops(
    samples: Seq<i16>,
    sample_rate: u32,
    text: Seq<char>,
    config: AlignConfig,
) -> Seq<(Seq<char>, int)> {
    corrected(
        zipped(
            sentences(text, config.policy),
            silence_boundaries(
                samples,
                config.silence_threshold,
                (config.min_silence_ms * sample_rate / 1000) as nat,
            ),
        ),
        config.correction,
    )
}

/// Aligns `text` with a decoded recording: finds its silence boundaries,
/// cuts the text into sentences, pairs them and applies the configured
/// correction.
pub fn align_samples(recording: &Recording, text: &str, config: &AlignConfig) -> (stops: Vec<Stop>)
    ensures
        stops@.map_values(|s: Stop| s@) == expected_stops(
            recording.samples@,
            recording.sample_rate,
            text@,
            *config,
        ),
{
    let window = min_silence_samples(config.min_silence_ms, recording.sample_rate);
    let boundaries = detect_stops(&recording.samples, config.silence_threshold, window);
    let sentences = segment(text, config.policy);
    let mut stops = align(&sentences, &boundaries);
    apply_correction(&mut stops, config.correction);
    stops
}

/// Aligns `text` with the WAVE recording in `wav`: decodes it, finds its
/// silence boundaries, cuts the text into sentences, pairs them and applies
/// the configured correction. Fails exactly where the recording cannot be
/// decoded.
pub fn align_recording(
    audio_path: String,
    text_path: String,
    wav: &Vec<u8>,
    text: &str,
    config: &AlignConfig,
) -> (r: Result<Alignment, AudioError>)
    ensures
        match r {
            Ok(a) => {
                &&& wav_header_rate(wav@) == Some(a.sample_rate)
                &&& wav_samples(wav@) is Some
                &&& a.audio_path == audio_path
                &&& a.text_path == text_path
                &&& a.stops@.map_values(|s: Stop| s@) == expected_stops(
                    wav_samples(wav@)->0,
                    a.sample_rate,
                    text@,
                    *config,
                )
            },
            Err(AudioError::Decode) => wav_header_rate(wav@) is None,
            Err(AudioError::SampleRead) => wav_header_rate(wav@) is Some && wav_samples(wav@) is None,
        },
        r is Ok <==> (wav_header_rate(wav@) is Some && wav_samples(wav@) is Some),
{
    let recording = match decode_recording(wav) {
        Ok(rec) => rec,
        Err(e) => return Err(e),
    };
    let stops = align_samples(&recording, text, config);
    Ok(Alignment { audio_path, text_path, sample_rate: recording.sample_rate, stops })
}

/// With any correction, a non-empty result starts at zero, whatever the
/// first boundary was.
pub proof fn lemma_first_stop_starts_at_zero(stops: Seq<(Seq<char>, int)>, correction: EdgeCorrection)
    requires
        correction != EdgeCorrection::Off,
        stops.len() > 0,
    ensures
        corrected(stops, correction)[0].1 == 0,
        corrected(stops, correction)[0].0 == stops[0].0,
{
}

/// Pairing keeps exactly as many stops as the shorter of its two inputs, and
/// a correction keeps their number.
pub proof fn lemma_stop_count(
    sentences: Seq<Seq<char>>,
    boundaries: Seq<int>,
    correction: EdgeCorrection,
)
    ensures
        zipped(sentences, boundaries).len() == if sentences.len() <= boundaries.len() {
            sentences.len()
        } else {
            boundaries.len()
        },
        corrected(zipped(sentences, boundaries), correction).len() == zipped(
            sentences,
            boundaries,
        ).len(),
{
}

} // verus!
