//! The audio program: uploaded tracks, decoded to 48 kHz stereo 16-bit PCM,
//! joined with silent gaps; and PCM wrapped as WAV.
use vstd::prelude::*;
use vstd::string::StringExecFns;

verus! {

pub const PROGRAM_SAMPLE_RATE: u32 = 48_000;

pub const PROGRAM_CHANNELS: u8 = 2;

pub const PROGRAM_BITS_PER_SAMPLE: u8 = 16;

/// Bytes in one program frame: one 16-bit sample per channel.
pub const PROGRAM_BYTES_PER_FRAME: usize = 4;

/// The message of a refused conversion.
pub open spec fn refusal(res: Result<Vec<u8>, String>) -> Option<Seq<char>> {
    match res {
        Ok(_) => None,
        Err(message) => Some(message@),
    }
}

pub open spec fn supported_pcm_width(bits_per_sample: u8) -> bool {
    bits_per_sample == 16 || bits_per_sample == 24 || bits_per_sample == 32
}

/// Why PCM could not be wrapped as WAV: the conversion to samples or the
/// WAV writer refused it, with its message.
#[derive(Clone, Debug, PartialEq, Eq)]
pub enum WavConversionError {
    Deserialize(String),
    Wav(String),
}

/// What converting PCM bytes to samples and the samples to a WAV file gives:
/// the WAV bytes, or the refusing stage (`true` for the conversion to
/// samples) with its message.
pub uninterp spec fn pcm_wav(data: Seq<u8>, bits_per_sample: u8, channels: u8, sample_rate: u32) -> Result<
    Seq<u8>,
    (bool, Seq<char>),
>;

pub open spec fn wav_conversion_view(outcome: Result<Vec<u8>, WavConversionError>) -> Result<Seq<u8>, (bool, Seq<char>)> {
    match outcome {
        Ok(wav) => Ok(wav@),
        Err(WavConversionError::Deserialize(message)) => Err((true, message@)),
        Err(WavConversionError::Wav(message)) => Err((false, message@)),
    }
}

/// The message of a refusal by the conversion to samples.
pub open spec fn conversion_refusal(outcome: Result<Seq<u8>, (bool, Seq<char>)>) -> Option<Seq<char>> {
    match outcome {
        Err((true, message)) => Some(message),
        _ => None,
    }
}

/// The message of a refusal by the WAV writer.
pub open spec fn writer_refusal(outcome: Result<Seq<u8>, (bool, Seq<char>)>) -> Option<Seq<char>> {
    match outcome {
        Err((false, message)) => Some(message),
        _ => None,
    }
}

/// `soundkit::audio_pipeline::deserialize_audio` turns the bytes into
/// soundkit's samples, and `soundkit::wav::generate_wav_buffer` writes them
/// as WAV. The outcome is a function of the four values alone. The
/// conversion refuses exactly the widths other than 16, 24 and 32 bits, with
/// a fixed message, and the writer refuses a zero sampling rate, with a fixed
/// message. The WAV bytes and the writer's other refusals are named, not
/// stated.
#[verifier::external_body]
fn convert_pcm_to_wav(data: &[u8], bits_per_sample: u8, channels: u8, sample_rate: u32) -> (res: Result<
    Vec<u8>,
    WavConversionError,
>)
    requires
        channels > 0 || !supported_pcm_width(bits_per_sample),
    ensures
        wav_conversion_view(res) == pcm_wav(data@, bits_per_sample, channels, sample_rate),
        conversion_refusal(wav_conversion_view(res)) == if supported_pcm_width(bits_per_sample) {
            None
        } else {
            Some("unsuporrted type"@)
        },
        writer_refusal(wav_conversion_view(res)) == Some("WAV sampling rate must be greater than zero"@)
            || !supported_pcm_width(bits_per_sample) || sample_rate != 0,
{
    match soundkit::audio_pipeline::deserialize_audio(data, bits_per_sample, channels) {
        Ok(pcm) => soundkit::wav::generate_wav_buffer(&pcm, sample_rate).map_err(WavConversionError::Wav),
        Err(error) => Err(WavConversionError::Deserialize(error)),
    }
}

/// A conversion outcome with each refusal's message prefixed by its stage.
pub open spec fn wav_outcome(outcome: Result<Seq<u8>, (bool, Seq<char>)>) -> Result<Seq<u8>, Seq<char>> {
    match outcome {
        Ok(wav) => Ok(wav),
        Err((true, message)) => Err("failed to deserialize PCM: "@ + message),
        Err((false, message)) => Err("failed to write WAV buffer: "@ + message),
    }
}

pub open spec fn bytes_result_view(res: Result<Vec<u8>, String>) -> Result<Seq<u8>, Seq<char>> {
    match res {
        Ok(wav) => Ok(wav@),
        Err(message) => Err(message@),
    }
}

/// The WAV bytes, or the refusal's message prefixed by the refusing stage.
pub fn wav_result(outcome: Result<Vec<u8>, WavConversionError>) -> (res: Result<Vec<u8>, String>)
    ensures
        bytes_result_view(res) == wav_outcome(wav_conversion_view(outcome)),
{
    match outcome {
        Ok(wav) => Ok(wav),
        Err(WavConversionError::Deserialize(error)) => {
            let message = String::from_str("failed to deserialize PCM: ");
            Err(message.concat(error.as_str()))
        },
        Err(WavConversionError::Wav(error)) => {
            let message = String::from_str("failed to write WAV buffer: ");
            Err(message.concat(error.as_str()))
        },
    }
}

/// Wrap interleaved little-endian PCM as a WAV file.
pub fn pcm_bytes_to_wav(pcm_bytes: &[u8], sample_rate: u32, channels: u8, bits_per_sample: u8) -> (res: Result<
    Vec<u8>,
    String,
>)
    requires
        channels > 0 || !supported_pcm_width(bits_per_sample),
    ensures
        bytes_result_view(res) == wav_outcome(pcm_wav(pcm_bytes@, bits_per_sample, channels, sample_rate)),
        !supported_pcm_width(bits_per_sample) ==> refusal(res) == Some("failed to deserialize PCM: "@ + "unsuporrted type"@),
        supported_pcm_width(bits_per_sample) && sample_rate == 0 ==> refusal(res) == Some(
            "failed to write WAV buffer: "@ + "WAV sampling rate must be greater than zero"@,
        ),
{
    wav_result(convert_pcm_to_wav(pcm_bytes, bits_per_sample, channels, sample_rate))
}

/// The silence between two tracks: `gap_frames` frames of zero bytes.
pub open spec fn gap_silence(gap_frames: nat) -> Seq<u8> {
    Seq::new(gap_frames * PROGRAM_BYTES_PER_FRAME as nat, |i: int| 0u8)
}

/// The program after one more decoded track: its chunks in order, then the
/// gap when another track follows and the gap is not empty.
pub open spec fn program_with_track(program: Seq<u8>, chunks: Seq<Seq<u8>>, more_tracks_follow: bool, gap_frames: nat) -> Seq<u8> {
    program + chunks.flatten() + if more_tracks_follow && gap_frames > 0 {
        gap_silence(gap_frames)
    } else {
        Seq::empty()
    }
}

/// Add one decoded track to the program. A track that decoded to no chunk at
/// all is refused and the program is left as it was.
pub fn append_program_track(program: &mut Vec<u8>, chunks: &Vec<Vec<u8>>, more_tracks_follow: bool, gap_frames: usize) -> (res: bool)
    requires
        gap_frames * PROGRAM_BYTES_PER_FRAME <= usize::MAX,
    ensures
        res == (chunks@.len() > 0),
        res ==> final(program)@ == program_with_track(
            old(program)@,
            chunks@.map_values(|c: Vec<u8>| c@),
            more_tracks_follow,
            gap_frames as nat,
        ),
        !res ==> final(program)@ == old(program)@,
{
    if chunks.len() == 0 {
        return false;
    }
    let ghost start = program@;
    let ghost views = chunks@.map_values(|c: Vec<u8>| c@);
    let mut k: usize = 0;
    while k < chunks.len()
        invariant
            0 <= k <= chunks@.len(),
            views == chunks@.map_values(|c: Vec<u8>| c@),
            program@ == start + views.take(k as int).flatten(),
        decreases chunks@.len() - k,
    {
        let chunk = &chunks[k];
        let ghost before = program@;
        let mut i: usize = 0;
        while i < chunk.len()
            invariant
                0 <= i <= chunk@.len(),
                program@ == before + chunk@.take(i as int),
            decreases chunk@.len() - i,
        {
            program.push(chunk[i]);
            i = i + 1;
            assert(program@ =~= before + chunk@.take(i as int));
        }
        proof {
            assert(chunk@.take(i as int) =~= chunk@);
            assert(views.take(k + 1).drop_last() =~= views.take(k as int));
            views.take(k + 1).lemma_flatten_and_flatten_alt_are_equivalent();
            views.take(k as int).lemma_flatten_and_flatten_alt_are_equivalent();
            assert(views.take(k + 1).last() == views[k as int]);
            assert(views[k as int] == chunk@);
            assert(program@ =~= start + views.take(k + 1).flatten());
        }
        k = k + 1;
    }
    assert(views.take(k as int) =~= views);
    if more_tracks_follow && gap_frames > 0 {
        let gap_bytes = gap_frames * PROGRAM_BYTES_PER_FRAME;
        let ghost before = program@;
        let mut i: usize = 0;
        while i < gap_bytes
            invariant
                0 <= i <= gap_bytes,
                gap_bytes == gap_frames * PROGRAM_BYTES_PER_FRAME,
                program@ == before + gap_silence(gap_frames as nat).take(i as int),
            decreases gap_bytes - i,
        {
            program.push(0u8);
            i = i + 1;
            assert(program@ =~= before + gap_silence(gap_frames as nat).take(i as int));
        }
        assert(gap_silence(gap_frames as nat).take(i as int) =~= gap_silence(gap_frames as nat));
    } else {
        assert(program@ + Seq::<u8>::empty() =~= program@);
    }
    true
}


/// The program after a track is the program, then the track's chunks in
/// order, then, when another track follows, four zero bytes (one stereo
/// 16-bit frame) for every gap frame.
pub proof fn law_program_track_then_silence(program: Seq<u8>, chunks: Seq<Seq<u8>>, more_tracks_follow: bool, gap_frames: nat)
    ensures
        program_with_track(program, chunks, more_tracks_follow, gap_frames) == program + chunks.flatten() + Seq::new(
            if more_tracks_follow { 4 * gap_frames } else { 0 },
            |i: int| 0u8,
        ),
{
    let tail = if more_tracks_follow && gap_frames > 0 { gap_silence(gap_frames) } else { Seq::empty() };
    assert(tail =~= Seq::new(if more_tracks_follow { 4 * gap_frames } else { 0 }, |i: int| 0u8));
}

} // verus!
