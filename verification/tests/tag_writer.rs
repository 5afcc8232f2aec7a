use sleeve::models::tag_draft::{CoverDraft, TagDraft};
use sleeve::services::tag_writer::{
    infer_mime_type, plan_tag_write, CoverChange, CoverMime, NumberChange, TextChange, WriteError, YearChange,
};

const PNG: [u8; 8] = [0x89, b'P', b'N', b'G', 0x0d, 0x0a, 0x1a, 0x0a];

#[test]
fn image_bytes_are_recognized_by_their_signature() {
    assert_eq!(infer_mime_type(&PNG), Ok(CoverMime::Png));
    assert_eq!(infer_mime_type(&[0xff, 0xd8, 0xff, 0xe0, 0, 0]), Ok(CoverMime::Jpeg));
    assert_eq!(infer_mime_type(b"GIF89a......"), Ok(CoverMime::Gif));
    assert!(matches!(infer_mime_type(b"hello"), Err(WriteError::UnknownImageType(_))));
    assert_eq!(infer_mime_type(b"RIFF\0\0\0\0WEBPVP8 "), Err(WriteError::UnsupportedImageFormat));
}

#[test]
fn a_plan_sets_filled_fields_and_removes_empty_ones() {
    let draft = TagDraft {
        title: "Song".into(),
        year: "2024".into(),
        track_number: "3".into(),
        cover: CoverDraft::Embedded(PNG.to_vec()),
        ..Default::default()
    };
    let plan = plan_tag_write(&draft).expect("plan");
    assert_eq!(plan.title, TextChange::Write("Song".into()));
    assert_eq!(plan.artist, TextChange::Remove);
    assert_eq!(plan.year, YearChange::Write(2024));
    assert_eq!(plan.track_number, NumberChange::Write(3));
    assert_eq!(plan.disc_number, NumberChange::Remove);
    assert_eq!(plan.cover, CoverChange::Write(PNG.to_vec(), CoverMime::Png));
    let removed = plan_tag_write(&TagDraft { cover: CoverDraft::Removed, ..Default::default() }).expect("plan");
    assert_eq!(removed.cover, CoverChange::Remove);
    let kept = plan_tag_write(&TagDraft::default()).expect("plan");
    assert_eq!(kept.cover, CoverChange::Keep);
    let chosen = plan_tag_write(&TagDraft { cover: CoverDraft::External("c.png".into()), ..Default::default() }).expect("plan");
    assert_eq!(chosen.cover, CoverChange::FromFile("c.png".into()));
}

#[test]
fn each_write_error_has_an_input() {
    let bad_year = TagDraft { year: "soon".into(), track_number: "x".into(), ..Default::default() };
    assert_eq!(plan_tag_write(&bad_year).err(), Some(WriteError::InvalidYear));
    let bad_number = TagDraft { disc_number: "70000".into(), ..Default::default() };
    assert_eq!(plan_tag_write(&bad_number).err(), Some(WriteError::InvalidNumber));
    let unknown = TagDraft { cover: CoverDraft::Embedded(vec![1, 2, 3]), ..Default::default() };
    assert!(matches!(plan_tag_write(&unknown).err(), Some(WriteError::UnknownImageType(_))));
    let negative_year = TagDraft { year: "-300".into(), ..Default::default() };
    assert_eq!(plan_tag_write(&negative_year).expect("plan").year, YearChange::Write(-300));
}

#[test]
fn an_unrecognized_image_carries_the_image_crate_message() {
    match infer_mime_type(b"hello") {
        Err(WriteError::UnknownImageType(message)) => {
            assert_eq!(message, "The image format could not be determined")
        }
        other => panic!("unexpected {other:?}"),
    }
}
