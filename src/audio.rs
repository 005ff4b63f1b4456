//! Decoding of uncompressed WAVE data into a sample stream.

use vstd::prelude::*;

verus! {

/// Why a recording could not be decoded.
#[derive(Clone, Copy, Debug, PartialEq, Eq, Structural)]
pub enum AudioError {
    /// The data is not a WAVE container that can be read.
    Decode,
    /// The container was read, but a sample in it could not be decoded as a
    /// signed 16-bit value.
    SampleRead,
}

/// The sample rate in the header of WAVE data, where the header can be read.
pub uninterp spec fn wav_header_rate(bytes: Seq<u8>) -> Option<u32>;

/// The samples of WAVE data decoded as signed 16-bit values, channels
/// interleaved, where every sample can be decoded.
pub uninterp spec fn wav_samples(bytes: Seq<u8>) -> Option<Seq<i16>>;

/// A decoded recording: its sample rate and its samples in order.
pub struct Recording {
    pub sample_rate: u32,
    pub samples: Vec<i16>,
}

/// Relies on hound::WavReader::new and WavReader::spec for the header and its
/// sample rate, and on WavReader::samples::<i16> for the samples, read to the
/// end; the first failing sample stops the read.
#[verifier::external_body]
fn read_wav(bytes: &Vec<u8>) -> (r: Result<(u32, Vec<i16>), AudioError>)
    ensures
        match r {
            Ok((rate, samples)) => wav_header_rate(bytes@) == Some(rate) && wav_samples(bytes@)
                == Some(samples@),
            Err(AudioError::Decode) => wav_header_rate(bytes@) is None,
            Err(AudioError::SampleRead) => wav_header_rate(bytes@) is Some && wav_samples(bytes@) is None,
        },
{
    let mut reader = match hound::WavReader::new(std::io::Cursor::new(bytes.as_slice())) {
        Ok(reader) => reader,
        Err(_) => return Err(AudioError::Decode),
    };
    let rate = reader.spec().sample_rate;
    match reader.samples::<i16>().collect::<Result<Vec<i16>, hound::Error>>() {
        Ok(samples) => Ok((rate, samples)),
        Err(_) => Err(AudioError::SampleRead),
    }
}

/// Decodes WAVE data. Fails with `Decode` where the header cannot be read and
/// with `SampleRead` where a sample cannot.
pub fn decode_recording(bytes: &Vec<u8>) -> (r: Result<Recording, AudioError>)
    ensures
        match r {
            Ok(rec) => wav_header_rate(bytes@) == Some(rec.sample_rate) && wav_samples(bytes@)
                == Some(rec.samples@),
            Err(AudioError::Decode) => wav_header_rate(bytes@) is None,
            Err(AudioError::SampleRead) => wav_header_rate(bytes@) is Some && wav_samples(bytes@) is None,
        },
        r is Ok <==> (wav_header_rate(bytes@) is Some && wav_samples(bytes@) is Some),
{
    match read_wav(bytes) {
        Ok((sample_rate, samples)) => Ok(Recording { sample_rate, samples }),
        Err(e) => Err(e),
    }
}

} // verus!
