use sleeve::i18n::{tr, Language, Localization};
use sleeve::models::audio_file::{AudioFile, AudioMetadata};
use sleeve::models::tag_draft::{CoverDraft, TagDraft, TagField};
use sleeve::panels::{FormState, InspectorState, PanelVisibility};

#[test]
fn inspector_state_reflects_the_current_file_and_cover_draft() {
    let file = AudioFile {
        metadata: AudioMetadata {
            container: "FLAC".into(),
            codec: "FLAC".into(),
            duration: Some("3:45".into()),
            ..Default::default()
        },
        ..Default::default()
    };
    let draft = TagDraft {
        cover: CoverDraft::Removed,
        ..Default::default()
    };

    let state = InspectorState::from_selection(Some(&file), &draft, "封面已移除".to_string(), false);

    assert!(state.has_selection);
    assert!(!state.is_sensitive);
    assert_eq!(state.container, "FLAC");
    assert_eq!(state.codec, "FLAC");
    assert_eq!(state.duration, "3:45");
    assert_eq!(state.cover_hint, "封面已移除");
    assert_eq!(state.cover, CoverDraft::Removed);
}

#[test]
fn form_state_preserves_mixed_field_placeholders_and_validation_errors() {
    let draft = TagDraft {
        title: "Song".into(),
        year: "99".into(),
        ..Default::default()
    };
    let mixed_fields = [TagField::Artist];
    let localization = Localization::default();

    let state = FormState::from_draft(&draft, &mixed_fields, true, true, true);

    assert!(state.visible);
    assert!(state.is_sensitive);
    assert!(state.is_batch_editing);
    assert_eq!(state.placeholder(&localization, TagField::Artist), "form.multiple_values");
    assert_eq!(state.value(TagField::Title), "Song");
    assert_eq!(
        state.validation_error(&localization, TagField::Year),
        Some(tr(&localization, "validation.year"))
    );
}

#[test]
fn form_messages_are_translated_and_absent_for_valid_fields() {
    let localization = Localization::init(
        Language::En,
        Some(r#"{"validation.year": "Enter a four-digit year.", "validation.positive": "Enter a number above 0."}"#.to_string()),
    );
    let draft = TagDraft { year: "12".into(), disc_number: "0".into(), track_number: "x".into(), ..Default::default() };
    let state = FormState::from_draft(&draft, &[], true, true, false);
    assert_eq!(state.validation_error(&localization, TagField::Year), Some("Enter a four-digit year.".to_string()));
    assert_eq!(state.validation_error(&localization, TagField::DiscNumber), Some("Enter a number above 0.".to_string()));
    assert_eq!(state.validation_error(&localization, TagField::TrackNumber), Some("validation.number".to_string()));
    assert_eq!(state.validation_error(&localization, TagField::Title), None);
    assert_eq!(state.placeholder(&localization, TagField::Title), "");
    let long = TagDraft { genre: "g".repeat(300), ..Default::default() };
    let state = FormState::from_draft(&long, &[], true, true, false);
    assert_eq!(state.validation_error(&localization, TagField::Genre), Some("validation.too_long".to_string()));
}

#[test]
fn placeholders_are_translated() {
    let localization = Localization::init(
        Language::En,
        Some(r#"{"form.multiple_values": "Multiple values", "inspector.no_cover": "No cover"}"#.to_string()),
    );
    let state = FormState::from_draft(&TagDraft::default(), &[TagField::Genre], true, false, true);
    assert_eq!(state.placeholder(&localization, TagField::Genre), "Multiple values");
    let empty = InspectorState::empty(&localization);
    assert_eq!(empty.cover_hint, "No cover");
}

#[test]
fn with_nothing_selected_every_fact_is_unknown() {
    let state = InspectorState::from_selection(None, &TagDraft::default(), "hint".to_string(), true);
    assert!(!state.has_selection);
    assert!(!state.is_sensitive);
    for fact in [
        &state.container,
        &state.codec,
        &state.duration,
        &state.bitrate,
        &state.sample_rate,
        &state.channels,
        &state.bits_per_sample,
        &state.file_size,
    ] {
        assert_eq!(fact, "—");
    }
    assert_eq!(state.cover, CoverDraft::Unavailable);
    assert_eq!(state.cover_hint, "hint");
    let default = InspectorState::empty(&Localization::default());
    assert_eq!(default.cover_hint, "inspector.no_cover");
    assert_eq!(default.bitrate, "—");
}

#[test]
fn missing_stream_facts_show_as_unknown() {
    let file = AudioFile {
        metadata: AudioMetadata {
            container: "MP3".into(),
            codec: "MPEG".into(),
            bitrate: Some("320 kbps".into()),
            ..Default::default()
        },
        ..Default::default()
    };
    let draft = TagDraft { cover: CoverDraft::Embedded(vec![1]), ..Default::default() };
    let state = InspectorState::from_selection(Some(&file), &draft, String::new(), true);
    assert!(state.is_sensitive);
    assert_eq!(state.bitrate, "320 kbps");
    assert_eq!(state.sample_rate, "—");
    assert_eq!(state.cover, CoverDraft::Embedded(vec![1]));
}

#[test]
fn the_inspector_only_shows_with_a_selection_and_toggles_come_back() {
    let mut panels = PanelVisibility::hidden();
    panels.set_inspector(true);
    assert!(!panels.inspector());
    panels.toggle_inspector();
    assert!(!panels.inspector());
    panels.file_selected();
    assert!(panels.has_selection());
    panels.set_inspector(true);
    assert!(panels.inspector());
    let before = panels;
    panels.toggle_sidebar();
    assert!(panels.sidebar() && panels.inspector());
    panels.toggle_sidebar();
    panels.toggle_inspector();
    assert!(!panels.inspector());
    panels.toggle_inspector();
    assert_eq!(panels, before);
    panels.selection_cleared();
    assert!(!panels.inspector() && !panels.sidebar() && !panels.has_selection());
    panels.toggle_inspector();
    assert!(!panels.inspector());
    panels.set_sidebar(true);
    assert!(panels.sidebar());
}
