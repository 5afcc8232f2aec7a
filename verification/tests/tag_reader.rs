use sleeve::services::tag_reader::{
    container_name, encoder_from_tags, fallback_metadata, flac_marker_offset, flac_vendor_string,
    format_bit_depth, format_channels, format_file_size, format_minutes_seconds, format_sample_rate,
    is_m4a, m4a_channels, m4a_sample_entry_channels, EncoderTagKey, MetadataTag,
};

fn flac_with_vendor(vendor: &[u8]) -> Vec<u8> {
    let mut comment = Vec::new();
    comment.extend_from_slice(&(vendor.len() as u32).to_le_bytes());
    comment.extend_from_slice(vendor);
    comment.extend_from_slice(&0u32.to_le_bytes());

    let mut flac = b"fLaC".to_vec();
    flac.push(0x80 | 4);
    flac.extend_from_slice(&(comment.len() as u32).to_be_bytes()[1..]);
    flac.extend_from_slice(&comment);
    flac
}

#[test]
fn formats_duration_size_and_channels() {
    assert_eq!(format_minutes_seconds(61.2f64.round() as u64), "1:01");
    assert_eq!(format_file_size(1024), "1.0 KB");
    assert_eq!(format_channels(2), "立体声 (2)");
}

#[test]
fn prefers_encoder_tag_and_falls_back_to_encoder_settings() {
    let encoder = [MetadataTag { key: EncoderTagKey::Encoder, value: "Lavf57.71.100".into() }];
    let settings = [MetadataTag { key: EncoderTagKey::EncoderSettings, value: "-compression_level 8".into() }];

    assert_eq!(encoder_from_tags(&encoder), Some("Lavf57.71.100".into()));
    assert_eq!(encoder_from_tags(&settings), Some("-compression_level 8".into()));
}

#[test]
fn reads_flac_vorbis_comment_vendor_as_encoder() {
    let flac = flac_with_vendor(b"reference libFLAC 1.2.1 20070917");
    assert_eq!(flac_vendor_string(&flac), Some("libFLAC 1.2.1 20070917".into()));
}

#[test]
fn reads_flac_vendor_after_id3v2_prefix() {
    let flac = flac_with_vendor(b"reference libFLAC 1.3.1 20141125");
    let mut id3 = b"ID3\x03\0\0\0\0\0\x05".to_vec();
    id3.extend_from_slice(b"abcde");
    id3.extend_from_slice(&flac);

    assert_eq!(flac_vendor_string(&id3), Some("libFLAC 1.3.1 20141125".into()));
}

#[test]
fn reads_m4a_channel_count_from_audio_sample_entry() {
    let mut entry = Vec::new();
    entry.extend_from_slice(&36u32.to_be_bytes());
    entry.extend_from_slice(b"mp4a");
    entry.extend_from_slice(&[0; 6]);
    entry.extend_from_slice(&1u16.to_be_bytes());
    entry.extend_from_slice(&[0; 8]);
    entry.extend_from_slice(&2u16.to_be_bytes());
    entry.extend_from_slice(&16u16.to_be_bytes());
    entry.extend_from_slice(&[0; 4]);
    entry.extend_from_slice(&(44_100u32 << 16).to_be_bytes());

    assert_eq!(m4a_sample_entry_channels(&entry), Some(2));

    let mut stsd = Vec::new();
    stsd.extend_from_slice(&52u32.to_be_bytes());
    stsd.extend_from_slice(b"stsd");
    stsd.extend_from_slice(&[0; 4]);
    stsd.extend_from_slice(&1u32.to_be_bytes());
    stsd.extend_from_slice(&entry);

    assert_eq!(m4a_channels(&stsd), Some(2));
}

#[test]
fn a_vendor_without_the_reference_prefix_is_kept_whole() {
    let flac = flac_with_vendor(b"Lavf58.76.100");
    assert_eq!(flac_vendor_string(&flac), Some("Lavf58.76.100".into()));
    assert_eq!(flac_marker_offset(&flac), Some(0));
    assert_eq!(flac_vendor_string(b"not audio"), None);
}

#[test]
fn encoder_tag_wins_over_settings_in_any_order() {
    let tags = [
        MetadataTag { key: EncoderTagKey::Other, value: "x".into() },
        MetadataTag { key: EncoderTagKey::EncoderSettings, value: "settings".into() },
        MetadataTag { key: EncoderTagKey::Encoder, value: "encoder".into() },
    ];
    assert_eq!(encoder_from_tags(&tags), Some("encoder".into()));
    assert_eq!(encoder_from_tags(&tags[..1]), None);
}

#[test]
fn formats_sizes_rates_and_channel_counts() {
    assert_eq!(format_file_size(1536), "1.5 KB");
    assert_eq!(format_file_size(5 * 1024 * 1024 + 512 * 1024), "5.5 MB");
    assert_eq!(format_file_size(1024 + 51), format!("{:.1} KB", (1024.0 + 51.0) / 1024.0));
    assert_eq!(format_channels(1), "单声道 (1)");
    assert_eq!(format_channels(6), "6 声道");
    assert_eq!(format_minutes_seconds(3599), "59:59");
    assert_eq!(format_sample_rate(44100), format!("{} Hz", 44100));
    assert_eq!(format_bit_depth(24), "24-bit");
}

#[test]
fn file_size_text_matches_std_float_formatting() {
    for bytes in [1024u64, 1075, 1126, 1177, 2047, 10_240, 1_048_575, 1_048_576, 1_572_864, 123_456_789] {
        let expected = if bytes >= 1024 * 1024 {
            format!("{:.1} MB", bytes as f64 / (1024.0 * 1024.0))
        } else {
            format!("{:.1} KB", bytes as f64 / 1024.0)
        };
        assert_eq!(format_file_size(bytes), expected, "{bytes} bytes");
    }
}

#[test]
fn containers_are_named_by_extension() {
    assert!(is_m4a("song.m4a"));
    assert!(is_m4a("video.mp4"));
    assert!(!is_m4a("song.mp3"));
    assert_eq!(container_name("song.flac"), "FLAC");
    let metadata = fallback_metadata("song.mp3", 2048);
    assert_eq!(metadata.file_size, Some("2.0 KB".to_string()));
    assert_eq!(metadata.duration, None);
}

#[test]
fn vendor_strings_are_trimmed_of_exactly_unicode_whitespace() {
    for code in (0u32..0x3100).chain([0xfeff, 0x180e, 0x200b, 0x10000]) {
        let Some(c) = char::from_u32(code) else { continue };
        let vendor = format!("{c}abc{c}");
        assert_eq!(
            flac_vendor_string(&flac_with_vendor(vendor.as_bytes())),
            Some(vendor.trim().to_string()),
            "character U+{code:04X}"
        );
    }
}
