//! The silence scanner: from a stream of samples to the sample counts at which
//! a run of near-silent samples first reaches the configured length.

use vstd::arithmetic::div_mod::lemma_fundamental_div_mod_converse;
use vstd::prelude::*;

verus! {

/// Whether a sample counts as silent: its absolute amplitude is strictly
/// below the threshold.
pub open spec fn is_silent(sample: i16, threshold: i16) -> bool {
    let a = sample as int;
    (if a < 0 { -a } else { a }) < threshold as int
}

/// The scanner's state after reading `samples` in order: the boundaries
/// emitted so far and the length of the current silent run.
pub open spec fn scan(samples: Seq<i16>, threshold: i16, min_run: nat) -> (Seq<int>, nat)
    decreases samples.len(),
{
    if samples.len() == 0 {
        (Seq::empty(), 0)
    } else {
        let prev = scan(samples.drop_last(), threshold, min_run);
        if is_silent(samples.last(), threshold) {
            if prev.1 + 1 >= min_run {
                (prev.0.push(samples.len() as int), 0)
            } else {
                (prev.0, (prev.1 + 1) as nat)
            }
        } else {
            (prev.0, 0)
        }
    }
}

/// The boundaries found in a whole stream, each given as the number of
/// samples elapsed when its silent run reached `min_run` samples.
pub open spec fn silence_boundaries(samples: Seq<i16>, threshold: i16, min_run: nat) -> Seq<int> {
    scan(samples, threshold, min_run).0
}

/// Whether one sample is silent under `threshold`.
pub fn sample_is_silent(sample: i16, threshold: i16) -> (r: bool)
    ensures
        r == is_silent(sample, threshold),
{
    let a: i32 = if sample < 0 {
        -(sample as i32)
    } else {
        sample as i32
    };
    a < threshold as i32
}

/// The number of samples that a silent run must last: `duration_ms`
/// milliseconds at `sample_rate` samples per second, truncated.
pub fn min_silence_samples(duration_ms: u32, sample_rate: u32) -> (r: u64)
    ensures
        r == duration_ms * sample_rate / 1000,
{
    let d: u64 = duration_ms as u64;
    let rate: u64 = sample_rate as u64;
    assert(d * rate <= 0xffff_ffff * 0xffff_ffff) by (nonlinear_arith)
        requires d <= 0xffff_ffff, rate <= 0xffff_ffff;
    let product: u64 = d * rate;
    product / 1000
}

/// Scans `samples` for silent runs of `min_silence_samples` samples.
///
/// A counter of consecutive silent samples grows with each silent sample and
/// falls back to zero at each loud one. When it reaches
/// `min_silence_samples`, the number of samples read so far is recorded and
/// the counter starts again from zero, so a long silence yields one boundary
/// per full window.
pub fn detect_stops(samples: &Vec<i16>, silence_threshold: i16, min_silence_samples: u64) -> (stops: Vec<usize>)
    ensures
        stops@.map_values(|b: usize| b as int) == silence_boundaries(
            samples@,
            silence_threshold,
            min_silence_samples as nat,
        ),
{
    let mut stops: Vec<usize> = Vec::new();
    let mut run: usize = 0;
    let mut i: usize = 0;
    while i < samples.len()
        invariant
            i <= samples.len(),
            run <= i,
            scan(samples@.subrange(0, i as int), silence_threshold, min_silence_samples as nat)
                == (stops@.map_values(|b: usize| b as int), run as nat),
        decreases samples.len() - i,
    {
        let ghost before = stops@;
        proof {
            assert(samples@.subrange(0, i + 1).drop_last() =~= samples@.subrange(0, i as int));
        }
        if sample_is_silent(samples[i], silence_threshold) {
            run = run + 1;
            if run as u64 >= min_silence_samples {
                stops.push(i + 1);
                run = 0;
                proof {
                    assert(stops@.map_values(|b: usize| b as int) =~= before.map_values(
                        |b: usize| b as int,
                    ).push(i + 1));
                }
            }
        } else {
            run = 0;
        }
        i = i + 1;
    }
    proof {
        assert(samples@.subrange(0, samples@.len() as int) =~= samples@);
    }
    stops
}

/// A stream in which no sample is silent has no boundary.
pub proof fn lemma_loud_stream_has_no_boundaries(samples: Seq<i16>, threshold: i16, min_run: nat)
    requires
        forall|i: int| 0 <= i < samples.len() ==> !is_silent(#[trigger] samples[i], threshold),
    ensures
        silence_boundaries(samples, threshold, min_run).len() == 0,
    decreases samples.len(),
{
    if samples.len() > 0 {
        let prefix = samples.drop_last();
        assert forall|i: int| 0 <= i < prefix.len() implies !is_silent(#[trigger] prefix[i], threshold) by {
            assert(prefix[i] == samples[i]);
        }
        lemma_loud_stream_has_no_boundaries(prefix, threshold, min_run);
        assert(!is_silent(samples[samples.len() - 1], threshold));
    }
}

/// Each boundary consumes a full window of samples, and the current run
/// counts samples read since the last one.
proof fn lemma_scan_accounts_for_samples(samples: Seq<i16>, threshold: i16, min_run: nat)
    requires
        min_run > 0,
    ensures
        scan(samples, threshold, min_run).0.len() * min_run + scan(samples, threshold, min_run).1
            <= samples.len(),
    decreases samples.len(),
{
    if samples.len() > 0 {
        lemma_scan_accounts_for_samples(samples.drop_last(), threshold, min_run);
        let prev = scan(samples.drop_last(), threshold, min_run);
        let k = prev.0.len();
        assert((k + 1) * min_run == k * min_run + min_run) by (nonlinear_arith);
    }
}

/// A stream of `n` samples holds at most `n / min_run` boundaries.
pub proof fn lemma_boundary_count_bound(samples: Seq<i16>, threshold: i16, min_run: nat)
    requires
        min_run > 0,
    ensures
        silence_boundaries(samples, threshold, min_run).len() <= (samples.len() as int) / (min_run as int),
{
    lemma_scan_accounts_for_samples(samples, threshold, min_run);
    let k = silence_boundaries(samples, threshold, min_run).len() as int;
    let n = samples.len() as int;
    let m = min_run as int;
    assert(k * m <= n);
    assert(k <= n / m) by {
        vstd::arithmetic::div_mod::lemma_fundamental_div_mod(n, m);
        if k > n / m {
            assert(k * m >= (n / m + 1) * m) by (nonlinear_arith)
                requires k > n / m, m > 0;
            assert((n / m + 1) * m == m * (n / m) + m) by (nonlinear_arith);
        }
    }
}

/// In a stream that is silent throughout, boundaries fall at every full
/// window: `min_run`, `2 * min_run`, ... up to the stream's length.
pub proof fn lemma_silent_stream_boundaries(samples: Seq<i16>, threshold: i16, min_run: nat)
    requires
        min_run > 0,
        forall|i: int| 0 <= i < samples.len() ==> is_silent(#[trigger] samples[i], threshold),
    ensures
        silence_boundaries(samples, threshold, min_run) == Seq::new(
            (samples.len() / min_run) as nat,
            |k: int| (k + 1) * min_run,
        ),
        scan(samples, threshold, min_run).1 == (samples.len() as int) % (min_run as int),
    decreases samples.len(),
{
    let n = samples.len() as int;
    let m = min_run as int;
    if n == 0 {
        assert(silence_boundaries(samples, threshold, min_run) =~= Seq::new(0, |k: int| (k + 1) * m));
    } else {
        let prefix = samples.drop_last();
        assert forall|i: int| 0 <= i < prefix.len() implies is_silent(#[trigger] prefix[i], threshold) by {
            assert(prefix[i] == samples[i]);
        }
        lemma_silent_stream_boundaries(prefix, threshold, min_run);
        assert(is_silent(samples[n - 1], threshold));
        let q = (n - 1) / m;
        let r = (n - 1) % m;
        vstd::arithmetic::div_mod::lemma_fundamental_div_mod(n - 1, m);
        assert(n - 1 == m * q + r);
        assert(m * q == q * m) by (nonlinear_arith);
        if r + 1 >= m {
            assert((q + 1) * m == q * m + m) by (nonlinear_arith);
            lemma_fundamental_div_mod_converse(n, m, q + 1, 0);
            assert(n == (q + 1) * m);
            assert(silence_boundaries(samples, threshold, min_run) =~= Seq::new(
                (q + 1) as nat,
                |k: int| (k + 1) * m,
            ));
        } else {
            lemma_fundamental_div_mod_converse(n, m, q, r + 1);
        }
    }
}

/// Two full windows of silence give exactly two boundaries, at the end of
/// each window.
pub proof fn lemma_two_silent_windows(samples: Seq<i16>, threshold: i16, min_run: nat)
    requires
        min_run > 0,
        samples.len() == 2 * min_run,
        forall|i: int| 0 <= i < samples.len() ==> is_silent(#[trigger] samples[i], threshold),
    ensures
        silence_boundaries(samples, threshold, min_run) == seq![min_run as int, 2 * (min_run as int)],
{
    lemma_silent_stream_boundaries(samples, threshold, min_run);
    let m = min_run as int;
    lemma_fundamental_div_mod_converse(2 * m, m, 2, 0);
    let b = silence_boundaries(samples, threshold, min_run);
    assert(b.len() == 2);
    assert(b[0] == m);
    assert(b[1] == 2 * m);
    assert(silence_boundaries(samples, threshold, min_run) =~= seq![m, 2 * m]);
}

} // verus!
