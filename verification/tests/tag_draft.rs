use sleeve::models::audio_file::AudioFile;
use sleeve::models::tag_draft::{common_draft, CoverDraft, TagDraft, TagField};

#[test]
fn validates_year_and_positive_track_number() {
    let draft = TagDraft {
        year: "99".into(),
        track_number: "0".into(),
        ..Default::default()
    };
    assert_eq!(draft.validation_error(TagField::Year), Some("请输入 1000 至 9999 的四位年份。"));
    assert_eq!(draft.validation_error(TagField::TrackNumber), Some("请输入大于 0 的整数。"));
    assert!(!draft.is_valid());
}

#[test]
fn clears_mixed_fields_in_a_common_draft() {
    let first = TagDraft {
        title: "First".into(),
        artist: "Shared".into(),
        ..Default::default()
    };
    let second = TagDraft {
        title: "Second".into(),
        artist: "Shared".into(),
        ..Default::default()
    };

    let (common, mixed, covers_mixed) = common_draft(&[first, second]);

    assert_eq!(common.title, "");
    assert_eq!(common.artist, "Shared");
    assert!(mixed.contains(&TagField::Title));
    assert!(!mixed.contains(&TagField::Artist));
    assert!(!covers_mixed);
}

#[test]
fn clears_a_mixed_cover_from_a_common_draft() {
    let first = TagDraft {
        cover: CoverDraft::Embedded(vec![1, 2, 3]),
        ..Default::default()
    };
    let second = TagDraft {
        cover: CoverDraft::Embedded(vec![4, 5, 6]),
        ..Default::default()
    };

    let (common, _, covers_mixed) = common_draft(&[first, second]);

    assert_eq!(common.cover, CoverDraft::Unavailable);
    assert!(covers_mixed);
}

#[test]
fn cloning_with_a_field_preserves_unrelated_metadata() {
    let draft = TagDraft {
        title: "Original".into(),
        artist: "Artist".into(),
        cover: CoverDraft::Embedded(vec![1, 2, 3]),
        ..Default::default()
    };

    let updated = draft.with_field(TagField::Title, "Updated".into());

    assert_eq!(updated.title, "Updated");
    assert_eq!(updated.artist, "Artist");
    assert_eq!(updated.cover, CoverDraft::Embedded(vec![1, 2, 3]));
}

#[test]
fn setting_a_field_changes_only_that_field() {
    let mut draft = TagDraft {
        title: "Original".into(),
        artist: "Artist".into(),
        ..Default::default()
    };
    draft.set(TagField::Title, "Updated".into());
    assert_eq!(draft.title, "Updated");
    assert_eq!(draft.artist, "Artist");
}

#[test]
fn every_validation_message_has_an_input() {
    let long = "x".repeat(256);
    let draft = TagDraft {
        title: long.clone(),
        year: "12345".into(),
        disc_number: "70000".into(),
        track_number: "7".into(),
        ..Default::default()
    };
    assert_eq!(draft.validation_error(TagField::Title), Some("最长为 255 个字符。"));
    assert_eq!(draft.validation_error(TagField::Year), Some("请输入 1000 至 9999 的四位年份。"));
    assert_eq!(draft.validation_error(TagField::DiscNumber), Some("请输入 1 至 65535 的整数。"));
    assert_eq!(draft.validation_error(TagField::TrackNumber), None);
    assert_eq!(draft.validation_error(TagField::Genre), None);
    let valid = TagDraft {
        title: "x".repeat(255),
        year: "2024".into(),
        track_number: "65535".into(),
        ..Default::default()
    };
    assert!(valid.is_valid());
}

#[test]
fn a_file_gives_its_tags_as_a_draft() {
    let file = AudioFile {
        title: Some("Song".into()),
        year: Some(-5),
        track_number: Some(7),
        embedded_cover: Some(vec![9, 9]),
        ..Default::default()
    };
    let draft = TagDraft::from_audio_file(&file);
    assert_eq!(draft.title, "Song");
    assert_eq!(draft.artist, "");
    assert_eq!(draft.year, "-5");
    assert_eq!(draft.track_number, "7");
    assert_eq!(draft.disc_number, "");
    assert_eq!(draft.cover, CoverDraft::Embedded(vec![9, 9]));
    assert_eq!(draft.value(TagField::Title), "Song");
}

#[test]
fn the_common_draft_of_nothing_is_empty_and_of_one_is_itself() {
    let (common, mixed, covers_mixed) = common_draft(&[]);
    assert_eq!(common, TagDraft::default());
    assert!(mixed.is_empty());
    assert!(!covers_mixed);
    let only = TagDraft { genre: "Jazz".into(), cover: CoverDraft::Removed, ..Default::default() };
    let (common, mixed, covers_mixed) = common_draft(&[only.clone()]);
    assert_eq!(common, only);
    assert!(mixed.is_empty());
    assert!(!covers_mixed);
}

#[test]
fn mixed_fields_come_in_the_editor_order() {
    let first = TagDraft { genre: "A".into(), title: "A".into(), ..Default::default() };
    let second = TagDraft { genre: "B".into(), title: "B".into(), ..Default::default() };
    let (_, mixed, _) = common_draft(&[first, second]);
    assert_eq!(mixed, vec![TagField::Title, TagField::Genre]);
}
