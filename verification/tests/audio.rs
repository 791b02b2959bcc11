use meeting_notes::m4a::has_m4a_media;
use meeting_notes::processing::check_chunk_range;
use meeting_notes::wav::{inspect_bytes, plan_chunk, PcmWriter, WavInfo};

#[test]
fn extended_and_later_mdat_boxes_are_supported() {
    let bytes = [
        0, 0, 0, 8, b'm', b'd', b'a', b't', 0, 0, 0, 1, b'm', b'd', b'a', b't', 0, 0, 0, 0, 0, 0,
        0, 17, 1,
    ];

    assert!(has_m4a_media(&bytes).unwrap());
}

#[test]
fn empty_m4a_is_not_sent_to_openai() {
    let bytes = [0, 0, 0, 8, b'f', b't', b'y', b'p', 0, 0, 0, 8, b'm', b'o', b'o', b'v'];
    assert!(!has_m4a_media(&bytes).unwrap());
}

#[test]
fn truncated_m4a_is_not_treated_as_silence() {
    let bytes = [0, 0, 0, 12, b'm', b'd', b'a', b't', 1];
    let error = has_m4a_media(&bytes).unwrap_err();
    assert_eq!(error.code, "audio_file");
}

#[test]
fn m4a_with_only_an_empty_media_box_has_no_media() {
    assert!(!has_m4a_media(&[0, 0, 0, 8, b'm', b'd', b'a', b't']).unwrap());
    assert!(has_m4a_media(&[0, 0, 0, 9, b'm', b'd', b'a', b't', 7]).unwrap());
    assert!(has_m4a_media(&[]).is_err());
}

fn recording(samples: &[i16]) -> Vec<u8> {
    let mut writer = PcmWriter::create(16_000).unwrap();
    let size = writer.accept(samples.len() * 2).unwrap();
    writer.commit(size);
    let mut bytes = writer.header();
    for sample in samples {
        bytes.extend_from_slice(&sample.to_le_bytes());
    }
    bytes
}

#[test]
fn written_wav_header_reads_back_its_rate_and_frames() {
    let bytes = recording(&[1, -2, 3, -4, 5]);
    assert_eq!(bytes.len(), 44 + 10);
    let info = inspect_bytes(&bytes).unwrap();
    assert_eq!(info.sample_rate, 16_000);
    assert_eq!(info.frames, 5);
    assert_eq!(info.data_start, 44);
}

#[test]
fn unfinished_and_truncated_wav_is_refused() {
    let writer = PcmWriter::create(16_000).unwrap();
    let mut unfinished = writer.header();
    unfinished.extend_from_slice(&[0, 0, 0, 0]);
    assert_eq!(inspect_bytes(&unfinished).unwrap_err().code, "audio_chunk");

    let mut truncated = recording(&[1, 2, 3, 4]);
    truncated.pop();
    assert_eq!(inspect_bytes(&truncated).unwrap_err().code, "audio_chunk");
    assert!(inspect_bytes(&[1, 2, 3]).is_err());
}

#[test]
fn unsupported_rates_and_odd_pcm_are_refused() {
    for rate in [0, 7_999, 192_001] {
        assert_eq!(
            PcmWriter::create(rate).unwrap_err().message,
            "Unsupported PCM sample rate"
        );
    }
    assert!(PcmWriter::create(8_000).is_ok());
    assert!(PcmWriter::create(192_000).is_ok());
    let writer = PcmWriter::create(48_000).unwrap();
    assert_eq!(writer.accept(3).unwrap_err().code, "audio_chunk");
    assert_eq!(writer.frames(), 0);
}

#[test]
fn chunk_plans_stay_inside_the_source() {
    let info = WavInfo { frames: 16_000 * 10, sample_rate: 16_000, data_start: 44 };
    assert_eq!(plan_chunk(&info, 16_000, 16_000).unwrap(), (44 + 32_000, 16_000));
    assert_eq!(plan_chunk(&info, 16_000 * 9, 16_001).unwrap(), (44 + 16_000 * 18, 16_000));
    assert_eq!(plan_chunk(&info, 16_000 * 9, 16_002).unwrap_err().code, "audio_chunk");
    assert_eq!(
        plan_chunk(&info, 16_000 * 11, 10).unwrap_err().code,
        "audio_chunk"
    );
}

#[test]
fn bounds_ranges_and_refuses_oversized_upload_without_output() {
    let writer = PcmWriter::create(48_000).unwrap();
    assert!(writer.accept(1).is_err());
    let frames: u64 = 300 * 96_000 / 2;
    let info = WavInfo { frames, sample_rate: 48_000, data_start: 44 };
    assert_eq!(
        plan_chunk(&info, 0, 300 * 48_000).unwrap_err().code,
        "audio_chunk_size"
    );
    assert!(check_chunk_range(301_000_000).is_err());
    for (first, count) in [(300 * 48_000, 48_000), (299 * 48_000, 2 * 48_000)] {
        assert_eq!(plan_chunk(&info, first, count).unwrap_err().code, "audio_chunk");
    }
    assert!(PcmWriter::create(0).is_err());
}
