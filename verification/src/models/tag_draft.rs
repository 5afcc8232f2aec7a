//! Editable tag values of one audio file, their validation, and the common
//! draft of several files edited together.

use vstd::prelude::*;

use crate::models::audio_file::AudioFile;
use crate::text::{
    chars_equal, chars_of, decimal, decimal_string, parse_u16, parse_unsigned, signed_decimal,
    signed_decimal_string,
};

verus! {

/// The eight editable tag fields.
#[derive(Clone, Copy, Debug, PartialEq, Eq, Structural, Hash)]
pub enum TagField {
    Title,
    Artist,
    Album,
    AlbumArtist,
    Year,
    TrackNumber,
    DiscNumber,
    Genre,
}

/// The cover that a draft will write.
#[derive(Clone, Debug, Default, PartialEq, Eq)]
pub enum CoverDraft {
    /// No cover is known; writing leaves the file's cover as it is.
    #[default]
    Unavailable,
    /// The image bytes read from the file.
    Embedded(Vec<u8>),
    /// An image file chosen by the user.
    External(String),
    /// The cover is to be removed.
    Removed,
}

/// The editable tag values of one audio file.
#[derive(Clone, Debug, Default, PartialEq, Eq)]
pub struct TagDraft {
    pub title: String,
    pub artist: String,
    pub album: String,
    pub album_artist: String,
    pub year: String,
    pub track_number: String,
    pub disc_number: String,
    pub genre: String,
    pub cover: CoverDraft,
}

/// The mathematical value of a [`CoverDraft`].
pub enum CoverView {
    Unavailable,
    Embedded(Seq<u8>),
    External(Seq<char>),
    Removed,
}

impl View for CoverDraft {
    type V = CoverView;

    open spec fn view(&self) -> CoverView {
        match self {
            CoverDraft::Unavailable => CoverView::Unavailable,
            CoverDraft::Embedded(bytes) => CoverView::Embedded(bytes@),
            CoverDraft::External(path) => CoverView::External(path@),
            CoverDraft::Removed => CoverView::Removed,
        }
    }
}

/// The mathematical value of a [`TagDraft`].
pub struct TagDraftView {
    pub title: Seq<char>,
    pub artist: Seq<char>,
    pub album: Seq<char>,
    pub album_artist: Seq<char>,
    pub year: Seq<char>,
    pub track_number: Seq<char>,
    pub disc_number: Seq<char>,
    pub genre: Seq<char>,
    pub cover: CoverView,
}

impl View for TagDraft {
    type V = TagDraftView;

    open spec fn view(&self) -> TagDraftView {
        TagDraftView {
            title: self.title@,
            artist: self.artist@,
            album: self.album@,
            album_artist: self.album_artist@,
            year: self.year@,
            track_number: self.track_number@,
            disc_number: self.disc_number@,
            genre: self.genre@,
            cover: self.cover@,
        }
    }
}

impl TagDraftView {
    /// The text of one field.
    pub open spec fn field(self, field: TagField) -> Seq<char> {
        match field {
            TagField::Title => self.title,
            TagField::Artist => self.artist,
            TagField::Album => self.album,
            TagField::AlbumArtist => self.album_artist,
            TagField::Year => self.year,
            TagField::TrackNumber => self.track_number,
            TagField::DiscNumber => self.disc_number,
            TagField::Genre => self.genre,
        }
    }

    /// The same draft with one field replaced.
    pub open spec fn with_field(self, field: TagField, value: Seq<char>) -> TagDraftView {
        match field {
            TagField::Title => TagDraftView { title: value, ..self },
            TagField::Artist => TagDraftView { artist: value, ..self },
            TagField::Album => TagDraftView { album: value, ..self },
            TagField::AlbumArtist => TagDraftView { album_artist: value, ..self },
            TagField::Year => TagDraftView { year: value, ..self },
            TagField::TrackNumber => TagDraftView { track_number: value, ..self },
            TagField::DiscNumber => TagDraftView { disc_number: value, ..self },
            TagField::Genre => TagDraftView { genre: value, ..self },
        }
    }

    /// Whether no field of the draft has a validation issue.
    pub open spec fn is_valid(self) -> bool {
        forall|field: TagField| #[trigger] field_issue(field, self.field(field)) is None
    }
}

/// The draft with every field empty and no cover.
pub open spec fn empty_draft() -> TagDraftView {
    TagDraftView {
        title: Seq::empty(),
        artist: Seq::empty(),
        album: Seq::empty(),
        album_artist: Seq::empty(),
        year: Seq::empty(),
        track_number: Seq::empty(),
        disc_number: Seq::empty(),
        genre: Seq::empty(),
        cover: CoverView::Unavailable,
    }
}

/// The fields in the order in which the editor lists them.
pub open spec fn tag_field_at(i: int) -> TagField {
    if i == 0 { TagField::Title }
    else if i == 1 { TagField::Artist }
    else if i == 2 { TagField::Album }
    else if i == 3 { TagField::AlbumArtist }
    else if i == 4 { TagField::Year }
    else if i == 5 { TagField::TrackNumber }
    else if i == 6 { TagField::DiscNumber }
    else { TagField::Genre }
}

/// The position of a field in [`tag_field_at`]'s order.
pub open spec fn tag_field_index(field: TagField) -> int {
    match field {
        TagField::Title => 0,
        TagField::Artist => 1,
        TagField::Album => 2,
        TagField::AlbumArtist => 3,
        TagField::Year => 4,
        TagField::TrackNumber => 5,
        TagField::DiscNumber => 6,
        TagField::Genre => 7,
    }
}

/// The field at position `i` (0 to 7) of the editor's order.
pub fn tag_field(i: usize) -> (f: TagField)
    requires
        i < 8,
    ensures
        f == tag_field_at(i as int),
        tag_field_index(f) == i,
{
    if i == 0 { TagField::Title }
    else if i == 1 { TagField::Artist }
    else if i == 2 { TagField::Album }
    else if i == 3 { TagField::AlbumArtist }
    else if i == 4 { TagField::Year }
    else if i == 5 { TagField::TrackNumber }
    else if i == 6 { TagField::DiscNumber }
    else { TagField::Genre }
}

/// Why a field value is refused.
#[derive(Debug, Clone, Copy, PartialEq, Eq, Structural)]
pub enum ValidationIssue {
    /// More than 255 characters.
    TooLong,
    /// A year that is not a number from 1000 to 9999.
    InvalidYear,
    /// A track or disc number of zero.
    ZeroNumber,
    /// A track or disc number that is not a number from 0 to 65535.
    NumberOutOfRange,
}

/// The issue, if any, with `value` as the content of `field`.
pub open spec fn field_issue(field: TagField, value: Seq<char>) -> Option<ValidationIssue> {
    if value.len() > 255 {
        Some(ValidationIssue::TooLong)
    } else if value.len() == 0 {
        None
    } else {
        match field {
            TagField::Year => match parse_unsigned(value, 65535) {
                Some(year) => if 1000 <= year <= 9999 {
                    None
                } else {
                    Some(ValidationIssue::InvalidYear)
                },
                None => Some(ValidationIssue::InvalidYear),
            },
            TagField::TrackNumber | TagField::DiscNumber => match parse_unsigned(value, 65535) {
                Some(number) => if number == 0 {
                    Some(ValidationIssue::ZeroNumber)
                } else {
                    None
                },
                None => Some(ValidationIssue::NumberOutOfRange),
            },
            _ => None,
        }
    }
}

/// The translation key of the message for a validation issue.
pub open spec fn issue_key(issue: ValidationIssue) -> &'static str {
    match issue {
        ValidationIssue::TooLong => "validation.too_long",
        ValidationIssue::InvalidYear => "validation.year",
        ValidationIssue::ZeroNumber => "validation.positive",
        ValidationIssue::NumberOutOfRange => "validation.number",
    }
}

/// The message shown for a validation issue.
pub open spec fn issue_message(issue: ValidationIssue) -> &'static str {
    match issue {
        ValidationIssue::TooLong => "最长为 255 个字符。",
        ValidationIssue::InvalidYear => "请输入 1000 至 9999 的四位年份。",
        ValidationIssue::ZeroNumber => "请输入大于 0 的整数。",
        ValidationIssue::NumberOutOfRange => "请输入 1 至 65535 的整数。",
    }
}

/// The text of an optional tag value: the value, or nothing.
pub open spec fn text_or_empty(value: Option<String>) -> Seq<char> {
    match value {
        Some(s) => s@,
        None => Seq::empty(),
    }
}

/// Each text field of a file's draft is that file's tag of the same name, or
/// empty when the file has none; the cover is the file's embedded cover, or
/// unavailable when it has none.
pub proof fn law_a_files_draft_shows_its_own_tags(file: AudioFile)
    ensures
        file.title matches Some(t) ==> draft_of_file(file).title == t@,
        file.artist matches Some(t) ==> draft_of_file(file).artist == t@,
        file.album matches Some(t) ==> draft_of_file(file).album == t@,
        file.album_artist matches Some(t) ==> draft_of_file(file).album_artist == t@,
        file.genre matches Some(t) ==> draft_of_file(file).genre == t@,
        file.title is None ==> draft_of_file(file).title.len() == 0,
        file.artist is None ==> draft_of_file(file).artist.len() == 0,
        file.album is None ==> draft_of_file(file).album.len() == 0,
        file.album_artist is None ==> draft_of_file(file).album_artist.len() == 0,
        file.genre is None ==> draft_of_file(file).genre.len() == 0,
        file.year is None ==> draft_of_file(file).year.len() == 0,
        file.track_number is None ==> draft_of_file(file).track_number.len() == 0,
        file.disc_number is None ==> draft_of_file(file).disc_number.len() == 0,
        file.embedded_cover matches Some(bytes) ==> draft_of_file(file).cover == CoverView::Embedded(bytes@),
        file.embedded_cover is None ==> draft_of_file(file).cover == CoverView::Unavailable,
{
}

/// The draft that a file's tags give: absent values become empty fields, numbers
/// their decimal text, and an embedded cover the draft's cover.
pub open spec fn draft_of_file(file: AudioFile) -> TagDraftView {
    TagDraftView {
        title: text_or_empty(file.title),
        artist: text_or_empty(file.artist),
        album: text_or_empty(file.album),
        album_artist: text_or_empty(file.album_artist),
        year: match file.year {
            Some(year) => signed_decimal(year as int),
            None => Seq::empty(),
        },
        track_number: match file.track_number {
            Some(n) => decimal(n as nat),
            None => Seq::empty(),
        },
        disc_number: match file.disc_number {
            Some(n) => decimal(n as nat),
            None => Seq::empty(),
        },
        genre: text_or_empty(file.genre),
        cover: match file.embedded_cover {
            Some(bytes) => CoverView::Embedded(bytes@),
            None => CoverView::Unavailable,
        },
    }
}

/// Whether some draft after the first holds a different value in `field`.
pub open spec fn field_is_mixed(drafts: Seq<TagDraftView>, field: TagField) -> bool {
    exists|i: int| 1 <= i < drafts.len() && #[trigger] drafts[i].field(field) != drafts[0].field(field)
}

/// Whether some draft after the first holds a different cover.
pub open spec fn cover_is_mixed(drafts: Seq<TagDraftView>) -> bool {
    exists|i: int| 1 <= i < drafts.len() && #[trigger] drafts[i].cover != drafts[0].cover
}

/// The common draft of several drafts: the first draft, with every mixed field
/// emptied and a mixed cover made unavailable.
pub open spec fn common_of(drafts: Seq<TagDraftView>) -> TagDraftView {
    let first = drafts[0];
    let text = |field: TagField|
        if field_is_mixed(drafts, field) { Seq::<char>::empty() } else { first.field(field) };
    TagDraftView {
        title: text(TagField::Title),
        artist: text(TagField::Artist),
        album: text(TagField::Album),
        album_artist: text(TagField::AlbumArtist),
        year: text(TagField::Year),
        track_number: text(TagField::TrackNumber),
        disc_number: text(TagField::DiscNumber),
        genre: text(TagField::Genre),
        cover: if cover_is_mixed(drafts) { CoverView::Unavailable } else { first.cover },
    }
}

/// The views of a slice of drafts.
pub open spec fn draft_views(drafts: Seq<TagDraft>) -> Seq<TagDraftView> {
    drafts.map_values(|d: TagDraft| d@)
}

impl CoverDraft {
    /// A copy of the cover.
    pub fn duplicate(&self) -> (r: CoverDraft)
        ensures
            r@ == self@,
    {
        match self {
            CoverDraft::Unavailable => CoverDraft::Unavailable,
            CoverDraft::Embedded(bytes) => {
                let copy = bytes.clone();
                assert(copy@ =~= bytes@);
                CoverDraft::Embedded(copy)
            },
            CoverDraft::External(path) => CoverDraft::External(path.clone()),
            CoverDraft::Removed => CoverDraft::Removed,
        }
    }

    /// Whether two covers are the same.
    pub fn same_as(&self, other: &CoverDraft) -> (r: bool)
        ensures
            r == (self@ == other@),
    {
        match (self, other) {
            (CoverDraft::Unavailable, CoverDraft::Unavailable) => true,
            (CoverDraft::Removed, CoverDraft::Removed) => true,
            (CoverDraft::Embedded(a), CoverDraft::Embedded(b)) => bytes_equal(a, b),
            (CoverDraft::External(a), CoverDraft::External(b)) => {
                let x = chars_of(a.as_str());
                let y = chars_of(b.as_str());
                chars_equal(&x, &y)
            },
            _ => false,
        }
    }
}

fn bytes_equal(a: &Vec<u8>, b: &Vec<u8>) -> (r: bool)
    ensures
        r == (a@ == b@),
{
    if a.len() != b.len() {
        return false;
    }
    let mut i: usize = 0;
    while i < a.len()
        invariant
            a@.len() == b@.len(),
            i <= a@.len(),
            forall|j: int| 0 <= j < i ==> a@[j] == b@[j],
        decreases a@.len() - i,
    {
        if a[i] != b[i] {
            return false;
        }
        i = i + 1;
    }
    assert(a@ =~= b@);
    true
}

fn text_of(value: &Option<String>) -> (r: String)
    ensures
        r@ == text_or_empty(*value),
{
    match value {
        Some(s) => s.clone(),
        None => String::new(),
    }
}

impl TagDraft {
    /// The empty draft.
    pub fn empty() -> (r: TagDraft)
        ensures
            r@ == empty_draft(),
    {
        TagDraft {
            title: String::new(),
            artist: String::new(),
            album: String::new(),
            album_artist: String::new(),
            year: String::new(),
            track_number: String::new(),
            disc_number: String::new(),
            genre: String::new(),
            cover: CoverDraft::Unavailable,
        }
    }

    /// A copy of the draft.
    pub fn duplicate(&self) -> (r: TagDraft)
        ensures
            r@ == self@,
    {
        TagDraft {
            title: self.title.clone(),
            artist: self.artist.clone(),
            album: self.album.clone(),
            album_artist: self.album_artist.clone(),
            year: self.year.clone(),
            track_number: self.track_number.clone(),
            disc_number: self.disc_number.clone(),
            genre: self.genre.clone(),
            cover: self.cover.duplicate(),
        }
    }

    /// The draft of a file's current tags.
    pub fn from_audio_file(file: &AudioFile) -> (r: TagDraft)
        ensures
            r@ == draft_of_file(*file),
    {
        let year = match file.year {
            Some(value) => signed_decimal_string(value),
            None => String::new(),
        };
        let track_number = match file.track_number {
            Some(value) => decimal_string(value as u64),
            None => String::new(),
        };
        let disc_number = match file.disc_number {
            Some(value) => decimal_string(value as u64),
            None => String::new(),
        };
        let cover = match &file.embedded_cover {
            Some(bytes) => {
                let copy = bytes.clone();
                assert(copy@ =~= bytes@);
                CoverDraft::Embedded(copy)
            },
            None => CoverDraft::Unavailable,
        };
        TagDraft {
            title: text_of(&file.title),
            artist: text_of(&file.artist),
            album: text_of(&file.album),
            album_artist: text_of(&file.album_artist),
            year,
            track_number,
            disc_number,
            genre: text_of(&file.genre),
            cover,
        }
    }

    /// The issue with the value of `field`, or `None` when it is valid.
    pub fn validation_issue(&self, field: TagField) -> (r: Option<ValidationIssue>)
        ensures
            r == field_issue(field, self@.field(field)),
    {
        let value = self.value(field);
        let length = chars_of(value).len();
        if length > 255 {
            return Some(ValidationIssue::TooLong);
        }
        if length == 0 {
            return None;
        }
        match field {
            TagField::Year => match parse_u16(value) {
                Some(year) => if 1000 <= year && year <= 9999 {
                    None
                } else {
                    Some(ValidationIssue::InvalidYear)
                },
                None => Some(ValidationIssue::InvalidYear),
            },
            TagField::TrackNumber | TagField::DiscNumber => match parse_u16(value) {
                Some(0) => Some(ValidationIssue::ZeroNumber),
                Some(_) => None,
                None => Some(ValidationIssue::NumberOutOfRange),
            },
            _ => None,
        }
    }

    /// The message for the issue with `field`, or `None` when its value is valid.
    pub fn validation_error(&self, field: TagField) -> (r: Option<&'static str>)
        ensures
            match field_issue(field, self@.field(field)) {
                Some(issue) => r == Some(issue_message(issue)),
                None => r is None,
            },
    {
        match self.validation_issue(field) {
            Some(ValidationIssue::TooLong) => Some("最长为 255 个字符。"),
            Some(ValidationIssue::InvalidYear) => Some("请输入 1000 至 9999 的四位年份。"),
            Some(ValidationIssue::ZeroNumber) => Some("请输入大于 0 的整数。"),
            Some(ValidationIssue::NumberOutOfRange) => Some("请输入 1 至 65535 的整数。"),
            None => None,
        }
    }

    /// Whether every field is valid.
    pub fn is_valid(&self) -> (r: bool)
        ensures
            r == self@.is_valid(),
    {
        let mut i: usize = 0;
        while i < 8
            invariant
                i <= 8,
                forall|j: int| 0 <= j < i ==> #[trigger] field_issue(tag_field_at(j), self@.field(tag_field_at(j))) is None,
            decreases 8 - i,
        {
            let field = tag_field(i);
            if self.validation_error(field).is_some() {
                assert(!self@.is_valid());
                return false;
            }
            i = i + 1;
        }
        assert forall|field: TagField| #[trigger] field_issue(field, self@.field(field)) is None by {
            assert(tag_field_at(tag_field_index(field)) == field);
        }
        true
    }

    /// The text of one field.
    pub fn value(&self, field: TagField) -> (r: &str)
        ensures
            r@ == self@.field(field),
    {
        match field {
            TagField::Title => self.title.as_str(),
            TagField::Artist => self.artist.as_str(),
            TagField::Album => self.album.as_str(),
            TagField::AlbumArtist => self.album_artist.as_str(),
            TagField::Year => self.year.as_str(),
            TagField::TrackNumber => self.track_number.as_str(),
            TagField::DiscNumber => self.disc_number.as_str(),
            TagField::Genre => self.genre.as_str(),
        }
    }

    /// The draft with one field replaced.
    pub fn with_field(self, field: TagField, value: String) -> (r: TagDraft)
        ensures
            r@ == self@.with_field(field, value@),
    {
        let mut draft = self;
        draft.set(field, value);
        draft
    }

    /// Replaces one field.
    pub fn set(&mut self, field: TagField, value: String)
        ensures
            final(self)@ == old(self)@.with_field(field, value@),
    {
        match field {
            TagField::Title => self.title = value,
            TagField::Artist => self.artist = value,
            TagField::Album => self.album = value,
            TagField::AlbumArtist => self.album_artist = value,
            TagField::Year => self.year = value,
            TagField::TrackNumber => self.track_number = value,
            TagField::DiscNumber => self.disc_number = value,
            TagField::Genre => self.genre = value,
        }
    }
}

/// The common draft of several drafts, the fields whose values differ (in the
/// editor's order) and whether the covers differ. For no drafts: the empty draft,
/// no fields and `false`.
pub fn common_draft(drafts: &[TagDraft]) -> (r: (TagDraft, Vec<TagField>, bool))
    ensures
        ({
            let views = draft_views(drafts@);
            if drafts@.len() == 0 {
                &&& r.0@ == empty_draft()
                &&& r.1@.len() == 0
                &&& !r.2
            } else {
                &&& r.0@ == common_of(views)
                &&& r.1@ == Seq::new(8, |i: int| tag_field_at(i)).filter(
                    |field: TagField| field_is_mixed(views, field),
                )
                &&& r.2 == cover_is_mixed(views)
            }
        }),
{
    let ghost views = draft_views(drafts@);
    if drafts.len() == 0 {
        return (TagDraft::empty(), Vec::new(), false);
    }
    let first = &drafts[0];
    let mut common = first.duplicate();
    let mut mixed_fields: Vec<TagField> = Vec::new();
    let ghost order = Seq::new(8, |i: int| tag_field_at(i));
    let ghost is_mixed = |field: TagField| field_is_mixed(views, field);
    let mut k: usize = 0;
    while k < 8
        invariant
            drafts@.len() > 0,
            first == drafts@[0],
            views == draft_views(drafts@),
            order == Seq::new(8, |i: int| tag_field_at(i)),
            is_mixed == (|field: TagField| field_is_mixed(views, field)),
            k <= 8,
            mixed_fields@ == order.take(k as int).filter(is_mixed),
            common@.cover == first@.cover,
            forall|field: TagField| #[trigger] common@.field(field) == if tag_field_index(field) < k
                && field_is_mixed(views, field) {
                Seq::<char>::empty()
            } else {
                first@.field(field)
            },
        decreases 8 - k,
    {
        let field = tag_field(k);
        let first_value = first.value(field);
        let mut differs = false;
        let mut i: usize = 1;
        while i < drafts.len()
            invariant
                drafts@.len() > 0,
                first == drafts@[0],
                views == draft_views(drafts@),
                first_value@ == first@.field(field),
                1 <= i <= drafts@.len(),
                differs == exists|j: int| 1 <= j < i && #[trigger] views[j].field(field) != views[0].field(field),
            decreases drafts@.len() - i,
        {
            let other = drafts[i].value(field);
            if !str_same(other, first_value) {
                differs = true;
                assert(views[i as int].field(field) != views[0].field(field));
            }
            i = i + 1;
        }
        assert(differs == field_is_mixed(views, field));
        let ghost previous = common@;
        if differs {
            common.set(field, String::new());
            mixed_fields.push(field);
        }
        proof {
            assert forall|other: TagField| #[trigger] common@.field(other) == if tag_field_index(other)
                < k + 1 && field_is_mixed(views, other) {
                Seq::<char>::empty()
            } else {
                first@.field(other)
            } by {
                if other != field {
                    assert(tag_field_index(other) != k);
                    assert(common@.field(other) == previous.field(other));
                }
            }
            assert(order.take(k + 1).drop_last() =~= order.take(k as int));
            assert(order.take(k + 1).last() == field);
            reveal_with_fuel(Seq::<_>::filter, 1);
        }
        k = k + 1;
    }
    assert(order.take(8) =~= order);
    proof {
        let expected = common_of(views);
        assert(common@.field(TagField::Title) == expected.title);
        assert(common@.field(TagField::Artist) == expected.artist);
        assert(common@.field(TagField::Album) == expected.album);
        assert(common@.field(TagField::AlbumArtist) == expected.album_artist);
        assert(common@.field(TagField::Year) == expected.year);
        assert(common@.field(TagField::TrackNumber) == expected.track_number);
        assert(common@.field(TagField::DiscNumber) == expected.disc_number);
        assert(common@.field(TagField::Genre) == expected.genre);
    }
    let mut covers_mixed = false;
    let mut i: usize = 1;
    while i < drafts.len()
        invariant
            drafts@.len() > 0,
            first == drafts@[0],
            views == draft_views(drafts@),
            1 <= i <= drafts@.len(),
            covers_mixed == exists|j: int| 1 <= j < i && #[trigger] views[j].cover != views[0].cover,
        decreases drafts@.len() - i,
    {
        if !drafts[i].cover.same_as(&first.cover) {
            covers_mixed = true;
            assert(views[i as int].cover != views[0].cover);
        }
        i = i + 1;
    }
    if covers_mixed {
        common.cover = CoverDraft::Unavailable;
    }
    assert(common@ == common_of(views));
    (common, mixed_fields, covers_mixed)
}

fn str_same(a: &str, b: &str) -> (r: bool)
    ensures
        r == (a@ == b@),
{
    crate::text::str_equals(a, b)
}

/// Setting a field changes that field and nothing else of the draft.
pub proof fn law_setting_a_field_changes_only_that_field(draft: TagDraftView, field: TagField, value: Seq<char>)
    ensures
        draft.with_field(field, value).field(field) == value,
        forall|other: TagField| other != field ==> #[trigger] draft.with_field(field, value).field(other) == draft.field(other),
        draft.with_field(field, value).cover == draft.cover,
{
}

/// In the common draft of several drafts, a field that is not mixed holds the
/// value that every draft holds, and a mixed field is empty; the cover is every
/// draft's cover unless the covers differ, when it is unavailable.
pub proof fn law_common_draft_shows_shared_values(drafts: Seq<TagDraftView>, field: TagField)
    requires
        drafts.len() > 0,
    ensures
        !field_is_mixed(drafts, field) ==> forall|i: int| 0 <= i < drafts.len() ==> #[trigger] drafts[i].field(field) == common_of(drafts).field(field),
        field_is_mixed(drafts, field) ==> common_of(drafts).field(field) == Seq::<char>::empty(),
        !cover_is_mixed(drafts) ==> forall|i: int| 0 <= i < drafts.len() ==> #[trigger] drafts[i].cover == common_of(drafts).cover,
        cover_is_mixed(drafts) ==> common_of(drafts).cover == CoverView::Unavailable,
{
    let common = common_of(drafts);
    assert(common.field(field) == if field_is_mixed(drafts, field) { Seq::<char>::empty() } else { drafts[0].field(field) }) by {
        match field {
            TagField::Title => {},
            TagField::Artist => {},
            TagField::Album => {},
            TagField::AlbumArtist => {},
            TagField::Year => {},
            TagField::TrackNumber => {},
            TagField::DiscNumber => {},
            TagField::Genre => {},
        }
    }
    if !field_is_mixed(drafts, field) {
        assert forall|i: int| 0 <= i < drafts.len() implies #[trigger] drafts[i].field(field) == common.field(field) by {
            if i >= 1 {
                assert(!(drafts[i].field(field) != drafts[0].field(field)));
            }
        }
    }
    if !cover_is_mixed(drafts) {
        assert forall|i: int| 0 <= i < drafts.len() implies #[trigger] drafts[i].cover == common.cover by {
            if i >= 1 {
                assert(!(drafts[i].cover != drafts[0].cover));
            }
        }
    }
}

} // verus!
