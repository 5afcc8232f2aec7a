//! What a save writes: for each tag, whether it is set or removed and to what,
//! checked before the file is touched.

use vstd::prelude::*;
use vstd::string::*;

use crate::models::audio_file::AudioFile;
use crate::models::tag_draft::{draft_of_file, field_issue, CoverDraft, CoverView, TagDraft, TagDraftView, TagField};
use crate::text::{is_digit, parse_i32, parse_i32_spec, parse_u16, parse_unsigned};

verus! {

/// A text tag to set or remove.
#[derive(Debug, PartialEq, Eq)]
pub enum TextChange {
    Remove,
    Write(String),
}

/// A number tag (track or disc) to set or remove.
#[derive(Debug, PartialEq, Eq)]
pub enum NumberChange {
    Remove,
    Write(u16),
}

/// The year tag to set or remove.
#[derive(Debug, PartialEq, Eq)]
pub enum YearChange {
    Remove,
    Write(i32),
}

/// The image formats a cover can be written in.
#[derive(Clone, Copy, Debug, PartialEq, Eq, Structural)]
pub enum CoverMime {
    Jpeg,
    Png,
    Gif,
    Bmp,
    Tiff,
}

/// What the image crate recognizes image bytes as.
#[derive(Clone, Copy, Debug, PartialEq, Eq, Structural)]
pub enum ImageKind {
    Jpeg,
    Png,
    Gif,
    Bmp,
    Tiff,
    Other,
}

/// What happens to the cover.
#[derive(Debug, PartialEq, Eq)]
pub enum CoverChange {
    /// The cover in the file stays as it is.
    Keep,
    /// The cover is removed.
    Remove,
    /// These bytes, of this format, become the cover.
    Write(Vec<u8>, CoverMime),
    /// The image in this file becomes the cover; its format is known once it is read.
    FromFile(String),
}

/// Why a draft cannot be written.
#[derive(Debug, PartialEq, Eq)]
pub enum WriteError {
    /// The year is not a number.
    InvalidYear,
    /// A track or disc number is not a number from 0 to 65535.
    InvalidNumber,
    /// The cover's format could not be determined; the image crate's message.
    UnknownImageType(String),
    /// The cover is an image of a format that tags cannot hold.
    UnsupportedImageFormat,
}

/// Everything a save writes.
#[derive(Debug, PartialEq, Eq)]
pub struct TagWritePlan {
    pub title: TextChange,
    pub artist: TextChange,
    pub album: TextChange,
    pub album_artist: TextChange,
    pub genre: TextChange,
    pub year: YearChange,
    pub track_number: NumberChange,
    pub disc_number: NumberChange,
    pub cover: CoverChange,
}

/// The format that the image crate's `guess_format` recognizes image bytes as,
/// from their leading magic bytes; `None` when it recognizes none.
pub uninterp spec fn image_format_of(bytes: Seq<u8>) -> Option<ImageKind>;

/// The message of the image crate's error when it cannot tell an image's format.
pub open spec fn unknown_format_message() -> Seq<char> {
    "The image format could not be determined"@
}

/// image `guess_format`: the format of image bytes, or the crate's message when it
/// recognizes none (its `Unsupported` error with an unknown format, which it
/// shows as [`unknown_format_message`]).
#[verifier::external_body]
fn guess_image_format(bytes: &[u8]) -> (r: Result<ImageKind, String>)
    ensures
        match r {
            Ok(kind) => image_format_of(bytes@) == Some(kind),
            Err(message) => image_format_of(bytes@) is None && message@ == unknown_format_message(),
        },
{
    match image::guess_format(bytes) {
        Ok(image::ImageFormat::Jpeg) => Ok(ImageKind::Jpeg),
        Ok(image::ImageFormat::Png) => Ok(ImageKind::Png),
        Ok(image::ImageFormat::Gif) => Ok(ImageKind::Gif),
        Ok(image::ImageFormat::Bmp) => Ok(ImageKind::Bmp),
        Ok(image::ImageFormat::Tiff) => Ok(ImageKind::Tiff),
        Ok(_) => Ok(ImageKind::Other),
        Err(error) => Err(error.to_string()),
    }
}

/// The cover format for a recognized image: JPEG, PNG, GIF, BMP and TIFF can be
/// written, others cannot.
pub open spec fn mime_of(kind: ImageKind) -> Option<CoverMime> {
    match kind {
        ImageKind::Jpeg => Some(CoverMime::Jpeg),
        ImageKind::Png => Some(CoverMime::Png),
        ImageKind::Gif => Some(CoverMime::Gif),
        ImageKind::Bmp => Some(CoverMime::Bmp),
        ImageKind::Tiff => Some(CoverMime::Tiff),
        ImageKind::Other => None,
    }
}

/// The cover format of image bytes: an unknown type and an unsupported format are
/// errors.
pub fn infer_mime_type(bytes: &[u8]) -> (r: Result<CoverMime, WriteError>)
    ensures
        match image_format_of(bytes@) {
            Some(kind) => match mime_of(kind) {
                Some(mime) => r == Ok::<CoverMime, WriteError>(mime),
                None => r == Err::<CoverMime, WriteError>(WriteError::UnsupportedImageFormat),
            },
            None => r matches Err(WriteError::UnknownImageType(message)) && message@
                == unknown_format_message(),
        },
{
    match guess_image_format(bytes) {
        Ok(ImageKind::Jpeg) => Ok(CoverMime::Jpeg),
        Ok(ImageKind::Png) => Ok(CoverMime::Png),
        Ok(ImageKind::Gif) => Ok(CoverMime::Gif),
        Ok(ImageKind::Bmp) => Ok(CoverMime::Bmp),
        Ok(ImageKind::Tiff) => Ok(CoverMime::Tiff),
        Ok(ImageKind::Other) => Err(WriteError::UnsupportedImageFormat),
        Err(message) => Err(WriteError::UnknownImageType(message)),
    }
}

/// A text tag's change: removed when empty, set otherwise.
pub open spec fn text_change_ok(change: TextChange, value: Seq<char>) -> bool {
    if value.len() == 0 {
        change == TextChange::Remove
    } else {
        change matches TextChange::Write(s) && s@ == value
    }
}

/// Whether a text tag change sets the tag to exactly `value`, or removes the tag
/// when `value` is empty.
pub open spec fn sets_text_to(change: TextChange, value: Seq<char>) -> bool {
    &&& value.len() == 0 ==> change == TextChange::Remove
    &&& value.len() > 0 ==> (change matches TextChange::Write(text) && text@ == value)
}

/// Each text tag of a write plan comes from the draft field of the same name, and
/// from nothing else: set to that field's text, or removed when it is empty.
pub proof fn law_each_text_tag_comes_from_its_own_field(plan: TagWritePlan, draft: TagDraftView)
    requires
        plan_of(plan, draft),
    ensures
        sets_text_to(plan.title, draft.title),
        sets_text_to(plan.artist, draft.artist),
        sets_text_to(plan.album, draft.album),
        sets_text_to(plan.album_artist, draft.album_artist),
        sets_text_to(plan.genre, draft.genre),
{
}

/// Whether a text tag change writes back an optional tag: sets it to the same
/// text, or removes it when it is absent or empty.
pub open spec fn writes_back_text(change: TextChange, tag: Option<String>) -> bool {
    match tag {
        Some(text) => if text@.len() > 0 {
            change matches TextChange::Write(written) && written@ == text@
        } else {
            change == TextChange::Remove
        },
        None => change == TextChange::Remove,
    }
}

/// Saving the draft of a file as it was loaded writes the file's own tags back:
/// each text tag as it was (an absent or empty one removed), the same year, track
/// and disc numbers (absent ones removed), and its embedded cover's bytes again,
/// while a file without a cover keeps having none written.
pub proof fn law_saving_a_loaded_file_writes_back_its_tags(plan: TagWritePlan, file: AudioFile)
    requires
        plan_of(plan, draft_of_file(file)),
    ensures
        writes_back_text(plan.title, file.title),
        writes_back_text(plan.artist, file.artist),
        writes_back_text(plan.album, file.album),
        writes_back_text(plan.album_artist, file.album_artist),
        writes_back_text(plan.genre, file.genre),
        plan.year == match file.year {
            Some(year) => YearChange::Write(year),
            None => YearChange::Remove,
        },
        plan.track_number == match file.track_number {
            Some(n) => NumberChange::Write(n),
            None => NumberChange::Remove,
        },
        plan.disc_number == match file.disc_number {
            Some(n) => NumberChange::Write(n),
            None => NumberChange::Remove,
        },
        file.embedded_cover is None ==> plan.cover == CoverChange::Keep,
        file.embedded_cover matches Some(bytes) ==> (plan.cover matches CoverChange::Write(written, _)
            && written@ == bytes@),
{
    if let Some(n) = file.track_number {
        crate::text::law_decimal_text_reads_back(n as nat, 65535, 0);
    }
    if let Some(n) = file.disc_number {
        crate::text::law_decimal_text_reads_back(n as nat, 65535, 0);
    }
    if let Some(year) = file.year {
        crate::text::law_decimal_text_reads_back(0, 0, year);
    }
}

fn text_change(value: &String) -> (r: TextChange)
    ensures
        text_change_ok(r, value@),
{
    if value.as_str().unicode_len() == 0 {
        TextChange::Remove
    } else {
        TextChange::Write(value.clone())
    }
}

/// Whether the plan carries out a draft: empty text tags are removed and others
/// set, the year and numbers are set to the values they parse to, and the cover
/// follows the draft's cover.
pub open spec fn plan_of(plan: TagWritePlan, draft: TagDraftView) -> bool {
    &&& text_change_ok(plan.title, draft.title)
    &&& text_change_ok(plan.artist, draft.artist)
    &&& text_change_ok(plan.album, draft.album)
    &&& text_change_ok(plan.album_artist, draft.album_artist)
    &&& text_change_ok(plan.genre, draft.genre)
    &&& (if draft.year.len() == 0 {
        plan.year == YearChange::Remove
    } else {
        plan.year == YearChange::Write(parse_i32_spec(draft.year)->0 as i32)
    })
    &&& (if draft.track_number.len() == 0 {
        plan.track_number == NumberChange::Remove
    } else {
        plan.track_number == NumberChange::Write(parse_unsigned(draft.track_number, 65535)->0 as u16)
    })
    &&& (if draft.disc_number.len() == 0 {
        plan.disc_number == NumberChange::Remove
    } else {
        plan.disc_number == NumberChange::Write(parse_unsigned(draft.disc_number, 65535)->0 as u16)
    })
    &&& match draft.cover {
        CoverView::Unavailable => plan.cover == CoverChange::Keep,
        CoverView::Removed => plan.cover == CoverChange::Remove,
        CoverView::Embedded(bytes) => match plan.cover {
            CoverChange::Write(b, mime) => b@ == bytes && match image_format_of(bytes) {
                Some(kind) => mime_of(kind) == Some(mime),
                None => false,
            },
            _ => false,
        },
        CoverView::External(path) => plan.cover matches CoverChange::FromFile(p) && p@ == path,
    }
}

/// Whether a number field of a draft is one that can be written.
pub open spec fn number_ok(value: Seq<char>) -> bool {
    value.len() == 0 || parse_unsigned(value, 65535) is Some
}

/// Whether a draft's embedded cover, if any, is an image of a writable format.
pub open spec fn cover_ok(cover: CoverView) -> bool {
    match cover {
        CoverView::Embedded(bytes) => match image_format_of(bytes) {
            Some(kind) => mime_of(kind) is Some,
            None => false,
        },
        _ => true,
    }
}

/// What a save of `draft` writes, or why it cannot be written: the year is
/// checked first, then the track and disc numbers, then an embedded cover's format.
pub fn plan_tag_write(draft: &TagDraft) -> (r: Result<TagWritePlan, WriteError>)
    ensures
        match r {
            Ok(plan) => plan_of(plan, draft@),
            Err(error) => if !(draft@.year.len() == 0 || parse_i32_spec(draft@.year) is Some) {
                error == WriteError::InvalidYear
            } else if !number_ok(draft@.track_number) || !number_ok(draft@.disc_number) {
                error == WriteError::InvalidNumber
            } else {
                !cover_ok(draft@.cover) && match draft@.cover {
                    CoverView::Embedded(bytes) => match image_format_of(bytes) {
                        Some(_) => error == WriteError::UnsupportedImageFormat,
                        None => error matches WriteError::UnknownImageType(message) && message@
                            == unknown_format_message(),
                    },
                    _ => false,
                }
            },
        },
        r is Ok <==> ((draft@.year.len() == 0 || parse_i32_spec(draft@.year) is Some) && number_ok(
            draft@.track_number,
        ) && number_ok(draft@.disc_number) && cover_ok(draft@.cover)),
{
    let year = if draft.year.as_str().unicode_len() == 0 {
        YearChange::Remove
    } else {
        match parse_i32(draft.year.as_str()) {
            Some(value) => YearChange::Write(value),
            None => return Err(WriteError::InvalidYear),
        }
    };
    let track_number = match number_change(&draft.track_number) {
        Some(change) => change,
        None => return Err(WriteError::InvalidNumber),
    };
    let disc_number = match number_change(&draft.disc_number) {
        Some(change) => change,
        None => return Err(WriteError::InvalidNumber),
    };
    let cover = match &draft.cover {
        CoverDraft::Unavailable => CoverChange::Keep,
        CoverDraft::Removed => CoverChange::Remove,
        CoverDraft::Embedded(bytes) => {
            let mime = match infer_mime_type(bytes.as_slice()) {
                Ok(mime) => mime,
                Err(error) => return Err(error),
            };
            let copy = bytes.clone();
            assert(copy@ =~= bytes@);
            CoverChange::Write(copy, mime)
        },
        CoverDraft::External(path) => CoverChange::FromFile(path.clone()),
    };
    Ok(
        TagWritePlan {
            title: text_change(&draft.title),
            artist: text_change(&draft.artist),
            album: text_change(&draft.album),
            album_artist: text_change(&draft.album_artist),
            genre: text_change(&draft.genre),
            year,
            track_number,
            disc_number,
            cover,
        },
    )
}

fn number_change(value: &String) -> (r: Option<NumberChange>)
    ensures
        match r {
            Some(change) => if value@.len() == 0 {
                change == NumberChange::Remove
            } else {
                change == NumberChange::Write(parse_unsigned(value@, 65535)->0 as u16)
            },
            None => !number_ok(value@),
        },
        r is Some <==> number_ok(value@),
{
    if value.as_str().unicode_len() == 0 {
        return Some(NumberChange::Remove);
    }
    match parse_u16(value.as_str()) {
        Some(number) => Some(NumberChange::Write(number)),
        None => None,
    }
}

/// A draft that passes validation is never refused for its year or its track
/// and disc numbers when it is written, and the year written is the year that
/// was validated; only an embedded cover of an unknown or unwritable image type
/// can still stop the write.
pub proof fn law_valid_drafts_write_their_fields(draft: TagDraftView)
    requires
        draft.is_valid(),
    ensures
        draft.year.len() == 0 || parse_i32_spec(draft.year) is Some,
        draft.year.len() > 0 ==> parse_i32_spec(draft.year) == Some(parse_unsigned(draft.year, 65535)->0 as int),
        number_ok(draft.track_number),
        number_ok(draft.disc_number),
{
    assert(field_issue(TagField::Year, draft.field(TagField::Year)) is None);
    assert(field_issue(TagField::TrackNumber, draft.field(TagField::TrackNumber)) is None);
    assert(field_issue(TagField::DiscNumber, draft.field(TagField::DiscNumber)) is None);
    let year = draft.year;
    if year.len() > 0 {
        assert(parse_unsigned(year, 65535) is Some);
        if year[0] != '+' {
            assert(is_digit(year[0]));
        }
    }
}

} // verus!
