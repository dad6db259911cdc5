use yogurt::audio::capture::{
    authorization_status, list_devices, permission_of, request_permission, Capture, Permission,
};
use yogurt::audio::files::{audio_format, read_audio_file, to_mono, AudioFormat, FileError};
use yogurt::audio::mixer::{MixMode, Mixer, MAX_SYS_BACKLOG};
use yogurt::audio::mp3::{read_mp3, Frame, FrameError, Mp3Sink};
use yogurt::audio::pcm::{calc_level, peak, push_sample, to_samples, FULL_LEVEL};
use yogurt::audio::system_tap::{SystemTap, TapCall, TapStep};
use yogurt::audio::wav::{fits_wav, read_wav, wav_bytes, wav_header, WavError};

fn pcm(samples: &[i16]) -> Vec<u8> {
    let mut out = Vec::new();
    for s in samples {
        push_sample(&mut out, *s);
    }
    out
}

#[test]
fn wav_files_read_back() {
    let audio = pcm(&[1, -2, 300, -400]);
    let file = wav_bytes(&audio, 16000, 2);
    assert_eq!(&file[0..4], b"RIFF");
    assert_eq!(&file[8..12], b"WAVE");
    assert_eq!(file.len(), 44 + audio.len());
    let (back, rate, channels) = read_wav(&file).unwrap();
    assert_eq!(back, audio);
    assert_eq!(rate, 16000);
    assert_eq!(channels, 2);
}

#[test]
fn wav_headers_hold_the_sizes() {
    let h = wav_header(100, 44100, 1);
    assert_eq!(h.len(), 44);
    assert_eq!(u32::from_le_bytes([h[4], h[5], h[6], h[7]]), 136);
    assert_eq!(u32::from_le_bytes([h[28], h[29], h[30], h[31]]), 88200);
    assert_eq!(u32::from_le_bytes([h[40], h[41], h[42], h[43]]), 100);
}

#[test]
fn broken_wav_files_are_refused() {
    assert_eq!(read_wav(b"nothing").unwrap_err(), WavError::NotWav);
    assert_eq!(read_wav(b"RIFF\0\0\0\0WAVE").unwrap_err(), WavError::FmtMissing);
    let small = b"RIFF\0\0\0\0WAVEfmt \x02\0\0\0\x01\0".to_vec();
    assert_eq!(read_wav(&small).unwrap_err(), WavError::FmtTooSmall);
    let mut file = wav_bytes(&pcm(&[1]), 8000, 1);
    file[34] = 8;
    assert_eq!(read_wav(&file).unwrap_err(), WavError::NotSixteenBit(8));
    let mut file = wav_bytes(&pcm(&[1]), 8000, 1);
    file[36] = b'x';
    assert_eq!(read_wav(&file).unwrap_err(), WavError::DataMissing);
    let cut = wav_bytes(&pcm(&[1]), 8000, 1)[0..24].to_vec();
    assert_eq!(read_wav(&cut).unwrap_err(), WavError::FmtTooSmall);
    let bare = b"RIFF\0\0\0\0WAVEfmt \x10\0\0\0";
    assert_eq!(read_wav(bare).unwrap_err(), WavError::FmtTooSmall);
    let e = read_audio_file("x.wav", bare.to_vec()).unwrap_err();
    assert_eq!(e.message(), "WAV fmt chunk too small");
    assert!(!WavError::NotWav.message().is_empty());
}

#[test]
fn unknown_wav_chunks_are_skipped() {
    let file = wav_bytes(&pcm(&[1, -2]), 8000, 1);
    for at in [12, 36, file.len()] {
        let mut longer = file[..at].to_vec();
        longer.extend_from_slice(b"LIST\x03\0\0\0abc\0");
        longer.extend_from_slice(&file[at..]);
        assert_eq!(read_wav(&longer).unwrap(), (pcm(&[1, -2]), 8000, 1));
        // The byte that fills an odd chunk up is not looked at.
        longer[at + 11] = b'f';
        assert_eq!(read_wav(&longer).unwrap(), (pcm(&[1, -2]), 8000, 1));
    }
}

#[test]
fn sizes_that_no_header_holds_are_found() {
    assert!(fits_wav(1000, 16000, 1));
    assert!(!fits_wav(1000, u32::MAX, 2));
    assert!(!fits_wav(u32::MAX as usize, 16000, 1));
}

#[test]
fn mono_is_the_average() {
    assert_eq!(to_mono(&pcm(&[10, 20, -3, -4]), 2).unwrap(), pcm(&[15, -3]));
    assert_eq!(to_mono(&pcm(&[7, 8]), 1).unwrap(), pcm(&[7, 8]));
    assert!(to_mono(&pcm(&[1]), 0).is_err());
    let same = [5, 5, 5, -7, -7, -7, 0, 0, 0];
    assert_eq!(to_mono(&pcm(&same), 3).unwrap(), pcm(&[5, -7, 0]));
}

#[test]
fn the_level_is_the_boosted_peak() {
    assert_eq!(peak(&pcm(&[3, -1000, 20])), 1000);
    assert_eq!(calc_level(&pcm(&[3, -1000, 20])), 2000);
    assert_eq!(calc_level(&pcm(&[i16::MIN])), FULL_LEVEL);
    assert_eq!(calc_level(&pcm(&[0, 0])), 0);
    assert_eq!(to_samples(&pcm(&[5, -6])), vec![5, -6]);
}

#[test]
fn streams_are_mixed() {
    let mut m = Mixer::new();
    m.drain_system(&vec![pcm(&[100, 200, 300])]);
    assert_eq!(m.combine(MixMode::Mono, &pcm(&[1, 2])), pcm(&[101, 202]));
    assert_eq!(m.combine(MixMode::Stereo, &pcm(&[5, 6])), pcm(&[5, 300, 6, 0]));
    m.drain_system(&vec![pcm(&[30000])]);
    assert_eq!(m.combine(MixMode::Mono, &pcm(&[30000])), pcm(&[i16::MAX]));
}

#[test]
fn the_backlog_keeps_the_newest() {
    let mut m = Mixer::new();
    let mut old = vec![1i16; MAX_SYS_BACKLOG];
    old.push(9);
    m.drain_system(&vec![pcm(&old)]);
    let out = m.combine(MixMode::Stereo, &pcm(&vec![0i16; MAX_SYS_BACKLOG]));
    let samples = to_samples(&out);
    assert_eq!(samples[samples.len() - 1], 9);
    assert_eq!(samples[1], 1);
}

#[test]
fn formats_go_by_the_extension() {
    assert_eq!(audio_format("/a/Meeting.WAV"), AudioFormat::Wav);
    assert_eq!(audio_format("talk.mp3"), AudioFormat::Mp3);
    assert_eq!(audio_format("talk.flac"), AudioFormat::Other);
    assert_eq!(audio_format("talk"), AudioFormat::Other);
}

#[test]
fn files_are_read_into_mono() {
    let file = wav_bytes(&pcm(&[10, 30]), 22050, 2);
    let (audio, rate) = read_audio_file("x.Wav", file).unwrap();
    assert_eq!(audio, pcm(&[20]));
    assert_eq!(rate, 22050);
    let e = read_audio_file("x.OGG", vec![]).unwrap_err();
    assert_eq!(e.message(), "unsupported audio format \"ogg\" (supported: wav, mp3)");
    let e = read_audio_file("x.wav", b"no".to_vec()).unwrap_err();
    assert_eq!(e.message(), WavError::NotWav.message());
    let silent = wav_bytes(&pcm(&[1]), 8000, 0);
    let e = read_audio_file("x.wav", silent).unwrap_err();
    assert_eq!(e.message(), "invalid channel count 0");
    assert!(matches!(e, FileError::NoChannels));
}

/// Frames of MPEG-1 layer 3 at 128 kbit/s and 44.1 kHz that hold silence.
fn silent_mp3(frames: usize) -> Vec<u8> {
    let mut out = Vec::new();
    for _ in 0..frames {
        out.extend_from_slice(&[0xff, 0xfb, 0x90, 0x00]);
        out.extend_from_slice(&[0u8; 413]);
    }
    out
}

#[test]
fn mp3_files_are_decoded() {
    let (audio, rate) = read_mp3(silent_mp3(6)).unwrap();
    assert_eq!(rate, 44100);
    assert_eq!(audio.len() % (1152 * 2), 0);
    assert!(audio.len() >= 5 * 1152 * 2, "{}", audio.len());
    assert!(audio.iter().all(|b| *b == 0));
    let (same, _) = read_audio_file("talk.mp3", silent_mp3(6)).unwrap();
    assert_eq!(same, audio);
}

#[test]
fn what_is_no_mp3_file_is_refused() {
    let e = read_mp3(vec![0u8; 100]).unwrap_err();
    assert!(e.starts_with("probe mp3: "), "{e}");
}

/// A tag with an extended header, flags for it, and what follows them.
fn tag(flags: u8, rest: &[u8]) -> Vec<u8> {
    let mut out = b"ID3\x04\0\x40\0\0\0\x40\0\0\0\x06\x01".to_vec();
    out.push(flags);
    out.extend_from_slice(rest);
    out.resize(10 + 64, 0);
    out
}

#[test]
fn tags_with_restricted_texts_are_refused() {
    let refused = "probe mp3: ID3v2 tag with restricted texts";
    let crc = [1u8, 5, 0, 0, 0, 0, 0, 1, 0x40];
    for start in [
        tag(0x10, &[1, 0x40]),
        tag(0x50, &[1, 1, 0x40]),
        tag(0x30, &crc[1..]),
        tag(0x70, &crc),
        [tag(0x10, &[1, 0]), tag(0x10, &[1, 0x40])].concat(),
        [b"junk".to_vec(), tag(0x10, &[1, 0xc0])].concat(),
    ] {
        let mut file = start;
        file.extend_from_slice(&silent_mp3(6));
        assert_eq!(read_mp3(file).unwrap_err(), refused);
    }
    // Other restrictions are read, and what stands behind a frame is not a tag.
    let mut file = tag(0x10, &[1, 0x20]);
    file.extend_from_slice(&silent_mp3(6));
    file.extend_from_slice(&tag(0x10, &[1, 0x40]));
    let (audio, rate) = read_mp3(file).unwrap();
    assert_eq!(rate, 44100);
    assert!(!audio.is_empty());
    // An unknown version ends the search before the next tag.
    let mut old = tag(0x10, &[1, 0]);
    old[3] = 5;
    old.extend_from_slice(&tag(0x10, &[1, 0x40]));
    assert_eq!(
        read_mp3(old).unwrap_err(),
        "probe mp3: unsupported feature: id3v2: unsupported ID3v2 version"
    );
}

#[test]
fn other_layers_have_no_decoder() {
    // Layer 2 at 128 kbit/s and 44.1 kHz.
    let mut file = Vec::new();
    for _ in 0..6 {
        file.extend_from_slice(&[0xff, 0xfd, 0x80, 0x00]);
        file.extend_from_slice(&[0u8; 413]);
    }
    assert_eq!(
        read_mp3(file).unwrap_err(),
        "create mp3 decoder: unsupported feature: core (codec):unsupported codec"
    );
}

#[test]
fn damaged_frames_are_skipped() {
    let mut sink = Mp3Sink::new();
    sink.take(Ok(Frame { rate: 8000, channels: 2, samples: vec![1, 3] })).unwrap();
    sink.take(Err(FrameError::Damaged)).unwrap();
    sink.take(Ok(Frame { rate: 8000, channels: 2, samples: vec![10, 20] })).unwrap();
    let (audio, rate) = sink.finish().unwrap();
    assert_eq!(audio, pcm(&[2, 15]));
    assert_eq!(rate, 8000);
}

#[test]
fn decoding_failures_are_told() {
    let mut sink = Mp3Sink::new();
    let e = sink.take(Err(FrameError::Failed("lost".to_string()))).unwrap_err();
    assert_eq!(e, "decode mp3: lost");
    assert_eq!(sink.finish().unwrap_err(), "no decodable audio in mp3");
    sink.take(Ok(Frame { rate: 8000, channels: 0, samples: vec![] })).unwrap();
    assert_eq!(sink.finish().unwrap_err(), "invalid channel count 0");
}

#[test]
fn a_tap_is_made_in_order_and_undone_in_reverse() {
    let (mut tap, first) = SystemTap::start();
    assert_eq!(first, TapCall::CreateTap);
    for expected in [
        TapCall::QueryFormat,
        TapCall::CreateDevice,
        TapCall::CreateProc,
        TapCall::Start,
    ] {
        assert!(matches!(tap.on_status(0), TapStep::Call(c) if c == expected));
    }
    assert!(matches!(tap.on_status(0), TapStep::Running));
    assert_eq!(
        tap.teardown(),
        vec![TapCall::Stop, TapCall::DestroyProc, TapCall::DestroyDevice, TapCall::DestroyTap]
    );
    assert!(tap.teardown().is_empty());
}

#[test]
fn a_failing_tap_undoes_what_was_made() {
    let (mut tap, _) = SystemTap::start();
    for _ in 0..3 {
        tap.on_status(0);
    }
    match tap.on_status(-50) {
        TapStep::Failed { cleanup, message } => {
            assert_eq!(cleanup, vec![TapCall::DestroyDevice, TapCall::DestroyTap]);
            assert_eq!(message, "create tap IOProc failed (OSStatus -50)");
        }
        _ => panic!("expected a failure"),
    }
    let (mut tap, _) = SystemTap::start();
    match tap.on_status(1) {
        TapStep::Failed { cleanup, message } => {
            assert!(cleanup.is_empty());
            assert!(message.starts_with("create system audio tap failed (OSStatus 1)"));
        }
        _ => panic!("expected a failure"),
    }
}

#[test]
fn capture_is_not_part_of_the_library() {
    assert!(Capture::start(-1, 16000).is_err());
    assert!(list_devices().is_empty());
    assert!(request_permission().is_err());
    assert_eq!(permission_of(authorization_status()), Permission::Ask);
    assert_eq!(permission_of(2), Permission::Denied);
    assert_eq!(permission_of(3), Permission::Granted);
}
