use yogurt::audio::opus_enc::{
    ogg_opus_file, opus_head, opus_supports, opus_tags, plan_opus, pre_skip, OpusError,
};

fn tone(ms: usize, rate: u32, channels: u16) -> Vec<u8> {
    let frames = rate as usize / 1000 * ms;
    let mut out = Vec::new();
    for i in 0..frames {
        let v = ((i as f32 * 0.1).sin() * 8000.0) as i16;
        for _ in 0..channels {
            out.extend_from_slice(&v.to_le_bytes());
        }
    }
    out
}

/// An Ogg-Opus file whose packets stand in for the encoder's.
fn encode(pcm: &[u8], rate: u32, channels: u16) -> Result<Vec<u8>, OpusError> {
    let plan = plan_opus(pcm, rate, channels)?;
    let packets: Vec<Vec<u8>> = plan.frames.iter().map(|_| vec![0xf8u8; 60]).collect();
    Ok(ogg_opus_file(&packets, 312, rate, channels).unwrap())
}

#[test]
fn encodes_valid_ogg_structure() {
    for channels in [1u16, 2] {
        let pcm = tone(1500, 16000, channels);
        let ogg = encode(&pcm, 16000, channels).unwrap();
        assert_eq!(&ogg[0..4], b"OggS", "ogg capture pattern");
        assert!(
            ogg.windows(8).any(|w| w == b"OpusHead"),
            "OpusHead present"
        );
        assert!(ogg.len() < pcm.len() / 4, "compressed: {} vs {}", ogg.len(), pcm.len());
    }
}

#[test]
fn rejects_unsupported_rate() {
    assert!(encode(&[0u8; 4000], 44100, 1).is_err());
}

#[test]
fn rejects_unsupported_channels() {
    let e = plan_opus(&[0u8; 4000], 16000, 3).unwrap_err();
    assert_eq!(e, OpusError::UnsupportedChannels(3));
    assert!(e.message().contains('3'));
    assert!(OpusError::UnsupportedRate(44100).message().contains("44100"));
}

#[test]
fn the_rates_of_opus() {
    for r in [8000, 12000, 16000, 24000, 48000] {
        assert!(opus_supports(r));
    }
    assert!(!opus_supports(22050));
}

#[test]
fn frames_last_twenty_milliseconds_and_are_padded() {
    let plan = plan_opus(&tone(30, 16000, 1), 16000, 1).unwrap();
    assert_eq!(plan.frames.len(), 2);
    assert_eq!(plan.frames[0].len(), 320);
    assert_eq!(plan.frames[1].len(), 320);
    assert!(plan.frames[1][160..].iter().all(|v| *v == 0));
}

#[test]
fn the_headers_describe_the_stream() {
    let head = opus_head(2, 312, 16000);
    assert_eq!(&head[0..8], b"OpusHead");
    assert_eq!(head.len(), 19);
    assert_eq!(head[9], 2);
    assert_eq!(u16::from_le_bytes([head[10], head[11]]), 312);
    assert_eq!(u32::from_le_bytes([head[12], head[13], head[14], head[15]]), 16000);
    assert_eq!(&opus_tags()[0..8], b"OpusTags");
}

#[test]
fn the_pre_skip_counts_at_full_rate() {
    assert_eq!(pre_skip(104, 16000), 312);
    assert_eq!(pre_skip(312, 48000), 312);
}

#[test]
fn granule_positions_end_with_the_last_frame() {
    let ogg = ogg_opus_file(&vec![vec![1u8; 10], vec![2u8; 10]], 312, 16000, 1).unwrap();
    let mut last = 0;
    for at in 0..ogg.len() - 14 {
        if &ogg[at..at + 4] == b"OggS" {
            last = u64::from_le_bytes([
                ogg[at + 6], ogg[at + 7], ogg[at + 8], ogg[at + 9], ogg[at + 10], ogg[at + 11],
                ogg[at + 12], ogg[at + 13],
            ]);
        }
    }
    assert_eq!(last, 312 + 2 * 960);
}
