use local_file_explorer::media::{
    container_of_file,
    container_of, flac_stream_info, flac_stream_info_size, mkv_duration_candidates, mp3_audio_end,
    mp3_audio_start, mp3_bitrate, mp3_estimates, mp3_samples_per_frame, mp3_scan_window,
    mp3_side_info_size, mp4_on_header, mp4_on_large_size, mp4_start, mvhd_body_len,
    parse_mp3_frame_header, read_ebml_size, read_mvhd, wav_on_chunk, wav_on_format, wav_start,
    BoxWalk, Container, DurationBits, Mp3Estimate, Mp4Step, WavStep,
};

#[test]
fn ebml_sizes() {
    assert_eq!(read_ebml_size(&[0x81]), Some((1, 1)));
    assert_eq!(read_ebml_size(&[0x40, 0x02]), Some((2, 2)));
    assert_eq!(read_ebml_size(&[0x40]), None);
    assert_eq!(read_ebml_size(&[0x00, 1, 2, 3, 4, 5, 6, 7, 8]), None);
    assert_eq!(read_ebml_size(&[]), None);
    // one leading 1 bit in the eighth place: the whole first byte counts
    assert_eq!(read_ebml_size(&[0x01, 0, 0, 0, 0, 0, 0, 9]), Some((9, 8)));
    assert_eq!(read_ebml_size(&[0x01, 0, 0, 0, 0, 0, 0, 0x08]), Some((8, 8)));
    assert_eq!(read_ebml_size(&[0x01, 0xFF, 0xFF, 0xFF, 0xFF, 0xFF, 0xFF, 0xFF]), Some((0xFF_FFFF_FFFF_FFFF, 8)));
}

#[test]
fn matroska_duration_candidates() {
    let secs: f64 = 90.5;
    let mut buf = vec![0u8, 0x44, 0x89, 0x88];
    buf.extend_from_slice(&secs.to_bits().to_be_bytes());
    buf.extend_from_slice(&[0x44, 0x89, 0x84]);
    buf.extend_from_slice(&2.5f32.to_bits().to_be_bytes());
    buf.push(0);
    let c = mkv_duration_candidates(&buf);
    assert_eq!(c.len(), 2);
    assert_eq!(c[0], DurationBits { data_start: 4, width: 8, bits: secs.to_bits() });
    assert_eq!(c[1], DurationBits { data_start: 15, width: 4, bits: 2.5f32.to_bits() as u64 });
}

#[test]
fn mp3_frame_header_fields() {
    let h = parse_mp3_frame_header(&[0xFF, 0xFB, 0x90, 0xC0]).unwrap();
    assert_eq!((h.version, h.layer, h.bitrate_kbps, h.sample_rate, h.channel_mode), (3, 3, 128, 44100, 3));
    assert_eq!(parse_mp3_frame_header(&[0xFF, 0xEB, 0x90]), None);
    // reserved version
    assert_eq!(parse_mp3_frame_header(&[0xFF, 0xEB, 0x90, 0x00]), None);
    // MPEG 2 Layer III, 64 kbps, 22050 Hz
    let h = parse_mp3_frame_header(&[0xFF, 0xF3, 0x80, 0x00]).unwrap();
    assert_eq!((h.version, h.layer, h.bitrate_kbps, h.sample_rate), (2, 3, 64, 22050));
}

#[test]
fn mp3_tables() {
    assert_eq!(mp3_bitrate(3, 3, 14), Some(320));
    assert_eq!(mp3_bitrate(3, 1, 1), Some(32));
    assert_eq!(mp3_bitrate(0, 2, 14), Some(160));
    assert_eq!(mp3_bitrate(3, 3, 0), None);
    assert_eq!(mp3_bitrate(1, 3, 5), None);
    assert_eq!(mp3_samples_per_frame(3, 3), 1152);
    assert_eq!(mp3_samples_per_frame(2, 3), 576);
    assert_eq!(mp3_samples_per_frame(0, 1), 384);
    assert_eq!(mp3_side_info_size(3, 3), 17);
    assert_eq!(mp3_side_info_size(3, 0), 32);
    assert_eq!(mp3_side_info_size(2, 3), 9);
    assert_eq!(mp3_side_info_size(0, 1), 17);
}

#[test]
fn mp3_tag_bounds() {
    assert_eq!(mp3_audio_start(b"ID3\x03\x00\x00\x00\x00\x01\x05"), 10 + 128 + 5);
    assert_eq!(mp3_audio_start(b"ID2\x03\x00\x00\x00\x00\x01\x05"), 0);
    assert_eq!(mp3_audio_start(b"ID3"), 0);
    assert_eq!(mp3_audio_end(1000, Some(b"TAG")), 872);
    assert_eq!(mp3_audio_end(1000, Some(b"TAX")), 1000);
    assert_eq!(mp3_audio_end(100, Some(b"TAG")), 100);
    assert_eq!(mp3_audio_end(1000, None), 1000);
    assert_eq!(mp3_scan_window(10, 1000), 990);
    assert_eq!(mp3_scan_window(0, 1_000_000), 65536);
    assert_eq!(mp3_scan_window(500, 100), 65536);
}

#[test]
fn mp3_xing_and_bitrate_estimates() {
    // MPEG 1 Layer III stereo frame, Xing tag after 32 bytes of side info
    let mut buf = vec![0u8; 2];
    buf.extend_from_slice(&[0xFF, 0xFB, 0x90, 0x00]);
    buf.extend_from_slice(&[0u8; 32]);
    buf.extend_from_slice(b"Xing");
    buf.extend_from_slice(&1u32.to_be_bytes());
    buf.extend_from_slice(&1000u32.to_be_bytes());
    buf.extend_from_slice(&[0u8; 4]);
    let est = mp3_estimates(&buf, 100, 5000);
    assert_eq!(
        est,
        vec![
            Mp3Estimate::Frames { frames: 1000, samples_per_frame: 1152, sample_rate: 44100 },
            Mp3Estimate::Bitrate { audio_bytes: 5000 - 102, bitrate_kbps: 128 },
        ]
    );
    let no_frames = mp3_estimates(&[0u8; 20], 0, 20);
    assert!(no_frames.is_empty());
}

fn mp4_box(size: u32, kind: &[u8; 4]) -> Vec<u8> {
    let mut v = size.to_be_bytes().to_vec();
    v.extend_from_slice(kind);
    v
}

#[test]
fn mp4_walk_finds_mvhd() {
    // ftyp (16 bytes) then moov (8 + mvhd of 8 + 4 + 16)
    let (w, step) = mp4_start(60);
    assert_eq!(step, Mp4Step::Header(0));
    let (w, step) = mp4_on_header(w, &mp4_box(16, b"ftyp"));
    assert_eq!(step, Mp4Step::Header(16));
    let (w, step) = mp4_on_header(w, &mp4_box(44, b"moov"));
    assert_eq!(step, Mp4Step::Header(24));
    assert_eq!((w.offset, w.end, w.in_moov), (24, 60, true));
    let (_, step) = mp4_on_header(w, &mp4_box(36, b"mvhd"));
    assert_eq!(step, Mp4Step::Mvhd(32));
    assert_eq!(mvhd_body_len(0), 16);
    assert_eq!(mvhd_body_len(1), 32);
    let mut body = vec![0u8; 8];
    body.extend_from_slice(&1000u32.to_be_bytes());
    body.extend_from_slice(&5000u32.to_be_bytes());
    assert_eq!(read_mvhd(0, &body), Some((1000, 5000)));
    let zero = vec![0u8; 16];
    assert_eq!(read_mvhd(0, &zero), None);
}

#[test]
fn mp4_walk_edge_boxes() {
    let (w, _) = mp4_start(100);
    let (w2, step) = mp4_on_header(w, &mp4_box(1, b"mdat"));
    assert_eq!(step, Mp4Step::LargeSize(8));
    let (_, step) = mp4_on_large_size(w2, &40u64.to_be_bytes());
    assert_eq!(step, Mp4Step::Header(40));
    let (_, step) = mp4_on_header(w, &mp4_box(4, b"free"));
    assert_eq!(step, Mp4Step::NotFound);
    let (_, step) = mp4_on_header(w, &mp4_box(0, b"free"));
    assert_eq!(step, Mp4Step::NotFound);
    let (_, step) = mp4_start(7);
    assert_eq!(step, Mp4Step::NotFound);
}

#[test]
fn wav_chunks() {
    let mut header = b"RIFF\0\0\0\0WAVE".to_vec();
    header.resize(44, 0);
    let (w, step) = wav_start(&header, 100).unwrap();
    assert!(matches!(step, WavStep::Chunk(12)));
    let mut fmt_chunk = b"fmt ".to_vec();
    fmt_chunk.extend_from_slice(&16u32.to_le_bytes());
    let (w, step) = wav_on_chunk(w, &fmt_chunk);
    assert!(matches!(step, WavStep::Format(20)));
    let mut fmt = vec![0u8; 8];
    fmt.extend_from_slice(&176400u32.to_le_bytes());
    fmt.extend_from_slice(&[0u8; 4]);
    let (w, step) = wav_on_format(w, &fmt_chunk, &fmt);
    assert!(matches!(step, WavStep::Chunk(36)));
    let mut odd = b"LIST".to_vec();
    odd.extend_from_slice(&3u32.to_le_bytes());
    let (w, step) = wav_on_chunk(w, &odd);
    assert!(matches!(step, WavStep::Chunk(48)));
    let mut data = b"data".to_vec();
    data.extend_from_slice(&352800u32.to_le_bytes());
    let (_, step) = wav_on_chunk(w, &data);
    assert!(matches!(step, WavStep::Done(Some((352800, 176400)))));
    let mut not_wave = b"RIFX".to_vec();
    not_wave.resize(44, 0);
    assert!(wav_start(&not_wave, 100).is_none());
}

#[test]
fn flac_stream_info_fields() {
    assert_eq!(flac_stream_info_size(b"fLaC\x00\x00\x00\x22"), Some(34));
    assert_eq!(flac_stream_info_size(b"fLaC\x80\x00\x00\x22"), Some(34));
    assert_eq!(flac_stream_info_size(b"fLaC\x01\x00\x00\x22"), None);
    assert_eq!(flac_stream_info_size(b"fLaC\x00\x00\x00\x11"), None);
    assert_eq!(flac_stream_info_size(b"OggS\x00\x00\x00\x22"), None);
    let mut info = vec![0u8; 34];
    // 44100 Hz = 0x0AC44, 441000 samples = 0x6BAA8
    info[10] = 0x0A;
    info[11] = 0xC4;
    info[12] = 0x42;
    info[13] = 0xF0;
    info[14] = 0x00;
    info[15] = 0x06;
    info[16] = 0xBA;
    info[17] = 0xA8;
    assert_eq!(flac_stream_info(&info), Some((44100, 0x6BAA8)));
    assert_eq!(flac_stream_info(&vec![0u8; 18]), None);
}

#[test]
fn containers_by_extension() {
    assert_eq!(container_of("m4a"), Some(Container::Mp4));
    assert_eq!(container_of("3gp"), Some(Container::Mp4));
    assert_eq!(container_of("webm"), Some(Container::Matroska));
    assert_eq!(container_of("flac"), Some(Container::Flac));
    assert_eq!(container_of("MP3"), None);
    assert_eq!(container_of("ogg"), None);
}

#[test]
fn containers_by_file_name() {
    assert_eq!(container_of_file("Clip.MP4"), Some(Container::Mp4));
    assert_eq!(container_of_file("song.Mp3"), Some(Container::Mp3));
    assert_eq!(container_of_file(".mkv"), None);
    assert_eq!(container_of_file("noext"), None);
    assert_eq!(container_of_file("a.b.WEBM"), Some(Container::Matroska));
}

#[test]
fn mp4_walk_compares_offsets_as_numbers() {
    let w = BoxWalk { offset: u64::MAX - 20, end: u64::MAX, in_moov: false, pending_target: false };
    let (w, step) = mp4_on_header(w, &mp4_box(16, b"free"));
    assert_eq!(w.offset, u64::MAX - 4);
    assert_eq!(step, Mp4Step::NotFound);
    let w = BoxWalk { offset: 8, end: 100, in_moov: false, pending_target: true };
    let (inner, step) = mp4_on_large_size(w, &u64::MAX.to_be_bytes());
    assert_eq!(inner.end, u64::MAX);
    assert_eq!(step, Mp4Step::Header(24));
}

#[test]
fn mp3_bitrates_rise_with_the_index() {
    assert_eq!(mp3_bitrate(3, 3, 14), Some(320));
    assert_eq!(mp3_bitrate(3, 1, 14), Some(448));
    for version in [0u8, 2, 3] {
        for layer in 1u8..=3 {
            assert_eq!(mp3_bitrate(version, layer, 0), None);
            assert_eq!(mp3_bitrate(version, layer, 15), None);
            for i in 1u8..14 {
                let a = mp3_bitrate(version, layer, i).unwrap();
                let b = mp3_bitrate(version, layer, i + 1).unwrap();
                assert!(0 < a && a < b);
            }
        }
    }
}
