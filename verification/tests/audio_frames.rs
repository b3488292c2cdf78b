use av_api::linear16::Linear16Frames;
use av_api::program_audio::{
    append_program_track, pcm_bytes_to_wav, wav_result, WavConversionError, PROGRAM_BITS_PER_SAMPLE, PROGRAM_BYTES_PER_FRAME,
    PROGRAM_CHANNELS, PROGRAM_SAMPLE_RATE,
};

#[test]
fn linear16_stream_refuses_zero_rates_and_channels() {
    assert_eq!(
        Linear16Frames::new(0, 16_000, 1).err(),
        Some("sample_rate must be greater than 0".to_string())
    );
    assert_eq!(
        Linear16Frames::new(16_000, 0, 0).err(),
        Some("output_sample_rate must be greater than 0".to_string())
    );
    assert_eq!(
        Linear16Frames::new(16_000, 16_000, 0).err(),
        Some("channels must be greater than 0".to_string())
    );
    assert_eq!(Linear16Frames::new(8_000, 16_000, 2).unwrap().channels(), 2);
}

#[test]
fn linear16_bytes_come_out_in_whole_frames() {
    let mut frames = Linear16Frames::new(16_000, 16_000, 2).unwrap();
    assert_eq!(frames.push(&[1, 2, 3]), Vec::<u8>::new());
    assert_eq!(
        frames.finish(),
        Err("raw linear16 body ended with 3 trailing bytes".to_string())
    );
    assert_eq!(frames.push(&[4, 5, 6, 7, 8, 9]), vec![1, 2, 3, 4, 5, 6, 7, 8]);
    assert_eq!(frames.push(&[]), Vec::<u8>::new());
    assert_eq!(frames.push(&[10, 11, 12]), vec![9, 10, 11, 12]);
    assert_eq!(frames.finish(), Ok(()));
    let mut mono = Linear16Frames::new(16_000, 16_000, 1).unwrap();
    assert_eq!(mono.push(&[0, 0, 0, 64, 0, 192]), vec![0, 0, 0, 64, 0, 192]);
    assert_eq!(mono.finish(), Ok(()));
}

#[test]
fn program_tracks_are_joined_with_silent_gaps() {
    assert_eq!(PROGRAM_SAMPLE_RATE, 48_000);
    assert_eq!(PROGRAM_CHANNELS, 2);
    assert_eq!(PROGRAM_BITS_PER_SAMPLE, 16);
    assert_eq!(PROGRAM_BYTES_PER_FRAME, 4);
    let mut program = Vec::new();
    assert!(append_program_track(&mut program, &vec![vec![1, 2], vec![3]], true, 2));
    assert_eq!(program, vec![1, 2, 3, 0, 0, 0, 0, 0, 0, 0, 0]);
    assert!(append_program_track(&mut program, &vec![vec![9]], false, 2));
    assert_eq!(program, vec![1, 2, 3, 0, 0, 0, 0, 0, 0, 0, 0, 9]);
    assert!(!append_program_track(&mut program, &vec![], true, 2));
    assert_eq!(program.len(), 12);
    let mut no_gap = Vec::new();
    assert!(append_program_track(&mut no_gap, &vec![vec![5]], true, 0));
    assert_eq!(no_gap, vec![5]);
}

#[test]
fn pcm_is_wrapped_as_wav() {
    let pcm = [0u8, 0, 1, 0, 2, 0, 3, 0];
    let wav = pcm_bytes_to_wav(&pcm, 48_000, 2, 16).unwrap();
    assert_eq!(&wav[..4], b"RIFF");
    assert_eq!(&wav[8..12], b"WAVE");
    assert!(wav.ends_with(&pcm));
    assert_eq!(
        pcm_bytes_to_wav(&pcm, 48_000, 2, 8).unwrap_err(),
        "failed to deserialize PCM: unsuporrted type"
    );
    assert_eq!(
        pcm_bytes_to_wav(&pcm, 0, 2, 16).unwrap_err(),
        "failed to write WAV buffer: WAV sampling rate must be greater than zero"
    );
}

#[test]
fn wav_refusals_are_prefixed_by_their_stage() {
    assert_eq!(wav_result(Ok(vec![1, 2])), Ok(vec![1, 2]));
    assert_eq!(
        wav_result(Err(WavConversionError::Deserialize("bad".to_string()))),
        Err("failed to deserialize PCM: bad".to_string())
    );
    assert_eq!(
        wav_result(Err(WavConversionError::Wav("full".to_string()))),
        Err("failed to write WAV buffer: full".to_string())
    );
}
