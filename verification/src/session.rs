//! The editing session's decisions: what is staged for a batch save, what the
//! window's title and hints say, which files a click selects, which directories
//! are expanded, and whether a request may go ahead while saves are pending.

use vstd::prelude::*;

use crate::history::{contains_path, distinct_strings, path_set};
use crate::i18n::{argument_views, fill_arguments, pair_views, tf, tr, translated, Localization};
use crate::models::file_tree::{
    album_paths, audio_paths_between, first_position, lists_path, paths_between, row_views, string_views, tree_rows,
    FileTreeNode, RowView, TreeRow,
};
use crate::paths::{path_components, same_path};
use crate::models::tag_draft::{field_issue, CoverDraft, CoverView, TagDraft, TagDraftView, TagField};
use crate::text::{chars_of, decimal, decimal_string, push_char_all, string_of, str_equals, trim, trimmed};

verus! {

/// The text of a translation key.
pub open spec fn text_of_key(localization: Localization, key: &str) -> Seq<char> {
    translated(pair_views(localization.translations@), key@)
}

// ---------------------------------------------------------------------------
// Batch edits waiting to be saved
// ---------------------------------------------------------------------------

/// The edits made to a selection of several files that have not been saved yet.
#[derive(Debug, Clone)]
pub struct PendingBatchSave {
    /// The files that the edits apply to.
    pub paths: Vec<String>,
    /// The edited fields and their new values; no field occurs twice.
    pub fields: Vec<(TagField, String)>,
    /// The new cover, if it was changed.
    pub cover: Option<CoverDraft>,
}

/// The staged field values of a list of edits, the later of two edits of a field
/// winning.
pub open spec fn staged_map(fields: Seq<(TagField, String)>) -> Map<TagField, Seq<char>>
    decreases fields.len(),
{
    if fields.len() == 0 {
        Map::empty()
    } else {
        staged_map(fields.drop_last()).insert(fields.last().0, fields.last().1@)
    }
}

/// A draft with staged fields and an optional cover applied over it.
pub open spec fn applied(draft: TagDraftView, staged: Map<TagField, Seq<char>>, cover: Option<CoverView>) -> TagDraftView {
    let text = |field: TagField|
        if staged.contains_key(field) { staged[field] } else { draft.field(field) };
    TagDraftView {
        title: text(TagField::Title),
        artist: text(TagField::Artist),
        album: text(TagField::Album),
        album_artist: text(TagField::AlbumArtist),
        year: text(TagField::Year),
        track_number: text(TagField::TrackNumber),
        disc_number: text(TagField::DiscNumber),
        genre: text(TagField::Genre),
        cover: match cover {
            Some(c) => c,
            None => draft.cover,
        },
    }
}

/// Applying staged batch edits changes only what was staged: a field that was
/// not staged keeps the draft's value and a staged one takes the staged text;
/// without a staged cover the draft keeps its own cover, and a staged cover
/// replaces it.
pub proof fn law_batch_edits_change_only_what_was_staged(
    draft: TagDraftView,
    staged: Map<TagField, Seq<char>>,
    cover: Option<CoverView>,
    field: TagField,
)
    ensures
        applied(draft, staged, None).cover == draft.cover,
        cover matches Some(c) ==> applied(draft, staged, cover).cover == c,
        !staged.contains_key(field) ==> applied(draft, staged, cover).field(field) == draft.field(field),
        staged.contains_key(field) ==> applied(draft, staged, cover).field(field) == staged[field],
{
}

/// The view of an optional cover.
pub open spec fn cover_view(cover: Option<CoverDraft>) -> Option<CoverView> {
    match cover {
        Some(c) => Some(c@),
        None => None,
    }
}

proof fn lemma_staged_map_lookup(fields: Seq<(TagField, String)>, i: int)
    requires
        0 <= i < fields.len(),
        forall|a: int, b: int| 0 <= a < b < fields.len() ==> #[trigger] fields[a].0 != #[trigger] fields[b].0,
    ensures
        staged_map(fields).contains_key(fields[i].0),
        staged_map(fields)[fields[i].0] == fields[i].1@,
    decreases fields.len(),
{
    if i < fields.len() - 1 {
        lemma_staged_map_lookup(fields.drop_last(), i);
        assert(fields.drop_last()[i] == fields[i]);
        assert(fields[i].0 != fields[fields.len() - 1].0);
    }
}

proof fn lemma_staged_map_keys(fields: Seq<(TagField, String)>, field: TagField)
    ensures
        staged_map(fields).contains_key(field) <==> exists|i: int| 0 <= i < fields.len() && #[trigger] fields[i].0 == field,
    decreases fields.len(),
{
    if fields.len() > 0 {
        lemma_staged_map_keys(fields.drop_last(), field);
        if staged_map(fields.drop_last()).contains_key(field) {
            let i = choose|i: int| 0 <= i < fields.drop_last().len() && #[trigger] fields.drop_last()[i].0 == field;
            assert(fields[i] == fields.drop_last()[i]);
        }
        if exists|i: int| 0 <= i < fields.len() && #[trigger] fields[i].0 == field {
            let i = choose|i: int| 0 <= i < fields.len() && #[trigger] fields[i].0 == field;
            if i < fields.len() - 1 {
                assert(fields.drop_last()[i] == fields[i]);
            }
        }
    }
}

impl PendingBatchSave {
    /// No field is staged twice.
    pub open spec fn well_formed(&self) -> bool {
        forall|a: int, b: int| 0 <= a < b < self.fields@.len() ==> #[trigger] self.fields@[a].0 != #[trigger] self.fields@[b].0
    }

    /// The staged field values.
    pub open spec fn staged(&self) -> Map<TagField, Seq<char>> {
        staged_map(self.fields@)
    }

    /// Nothing staged yet for the given files.
    pub fn new(paths: Vec<String>) -> (r: PendingBatchSave)
        ensures
            r.well_formed(),
            r.paths@ == paths@,
            r.fields@.len() == 0,
            r.staged() == Map::<TagField, Seq<char>>::empty(),
            r.cover is None,
    {
        PendingBatchSave { paths, fields: Vec::new(), cover: None }
    }

    /// Whether neither a field nor the cover is staged.
    pub fn is_empty(&self) -> (r: bool)
        requires
            self.well_formed(),
        ensures
            r == (self.staged().dom().len() == 0 && self.cover is None),
    {
        proof {
            if self.fields@.len() > 0 {
                lemma_staged_map_lookup(self.fields@, 0);
                lemma_staged_map_finite(self.fields@);
                assert(self.staged().dom().contains(self.fields@[0].0));
            } else {
                assert(self.staged().dom() =~= Set::<TagField>::empty());
            }
        }
        self.fields.len() == 0 && self.cover.is_none()
    }

    /// Stages a field's new value, replacing an earlier one.
    pub fn stage_field(&mut self, field: TagField, value: String)
        requires
            old(self).well_formed(),
        ensures
            final(self).well_formed(),
            final(self).staged() == old(self).staged().insert(field, value@),
            final(self).paths@ == old(self).paths@,
            final(self).cover == old(self).cover,
    {
        let ghost before = self.fields@;
        let mut i: usize = 0;
        while i < self.fields.len()
            invariant
                i <= self.fields@.len(),
                self.fields@ == before,
                before == old(self).fields@,
                old(self).well_formed(),
                self.paths@ == old(self).paths@,
                self.cover == old(self).cover,
                forall|j: int| 0 <= j < i ==> self.fields@[j].0 != field,
            decreases self.fields@.len() - i,
        {
            if self.fields[i].0 == field {
                let ghost index = i as int;
                self.fields.set(i, (field, value));
                proof {
                    let after = self.fields@;
                    assert forall|a: int, b: int| 0 <= a < b < after.len() implies #[trigger] after[a].0 != #[trigger] after[b].0 by {
                        assert(before[a].0 != before[b].0);
                    }
                    assert forall|f: TagField| #[trigger] staged_map(after).contains_key(f) == staged_map(before).insert(field, value@).contains_key(f) by {
                        lemma_staged_map_keys(after, f);
                        lemma_staged_map_keys(before, f);
                        if exists|k: int| 0 <= k < before.len() && #[trigger] before[k].0 == f {
                            let k = choose|k: int| 0 <= k < before.len() && #[trigger] before[k].0 == f;
                            assert(after[k].0 == f);
                        }
                        if exists|k: int| 0 <= k < after.len() && #[trigger] after[k].0 == f {
                            let k = choose|k: int| 0 <= k < after.len() && #[trigger] after[k].0 == f;
                            assert(before[k].0 == f);
                        }
                    }
                    assert forall|f: TagField| #[trigger] staged_map(after).contains_key(f) implies staged_map(after)[f] == staged_map(before).insert(field, value@)[f] by {
                        lemma_staged_map_keys(after, f);
                        let k = choose|k: int| 0 <= k < after.len() && #[trigger] after[k].0 == f;
                        lemma_staged_map_lookup(after, k);
                        if k != index {
                            lemma_staged_map_lookup(before, k);
                        }
                    }
                    assert(staged_map(after) =~= staged_map(before).insert(field, value@));
                }
                return;
            }
            i = i + 1;
        }
        self.fields.push((field, value));
        proof {
            let after = self.fields@;
            assert(after.drop_last() =~= before);
            assert forall|a: int, b: int| 0 <= a < b < after.len() implies #[trigger] after[a].0 != #[trigger] after[b].0 by {
                if b < before.len() {
                    assert(before[a].0 != before[b].0);
                } else {
                    assert(before[a].0 != field);
                }
            }
        }
    }

    /// Stages a new cover, replacing an earlier one.
    pub fn stage_cover(&mut self, cover: CoverDraft)
        ensures
            final(self).fields@ == old(self).fields@,
            final(self).paths@ == old(self).paths@,
            final(self).cover == Some(cover),
    {
        self.cover = Some(cover);
    }

    /// Whether some staged value would not be valid in its field.
    pub fn has_invalid_field(&self) -> (r: bool)
        requires
            self.well_formed(),
        ensures
            r == exists|field: TagField| #[trigger] self.staged().contains_key(field) && field_issue(field, self.staged()[field]) is Some,
    {
        let mut i: usize = 0;
        while i < self.fields.len()
            invariant
                self.well_formed(),
                i <= self.fields@.len(),
                forall|j: int| 0 <= j < i ==> field_issue(#[trigger] self.fields@[j].0, self.fields@[j].1@) is None,
            decreases self.fields@.len() - i,
        {
            let field = self.fields[i].0;
            let draft = TagDraft::empty().with_field(field, self.fields[i].1.clone());
            if draft.validation_error(field).is_some() {
                proof {
                    lemma_staged_map_lookup(self.fields@, i as int);
                }
                assert(self.staged().contains_key(field) && field_issue(field, self.staged()[field]) is Some);
                return true;
            }
            i = i + 1;
        }
        assert forall|field: TagField| #[trigger] self.staged().contains_key(field) implies field_issue(field, self.staged()[field]) is None by {
            lemma_staged_map_keys(self.fields@, field);
            let k = choose|k: int| 0 <= k < self.fields@.len() && #[trigger] self.fields@[k].0 == field;
            lemma_staged_map_lookup(self.fields@, k);
            assert(field_issue(self.fields@[k].0, self.fields@[k].1@) is None);
        }
        false
    }

    /// The draft with every staged field and the staged cover applied.
    pub fn apply_to(&self, draft: TagDraft) -> (r: TagDraft)
        requires
            self.well_formed(),
        ensures
            r@ == applied(draft@, self.staged(), cover_view(self.cover)),
    {
        let ghost start = draft@;
        let mut out = draft;
        let mut i: usize = 0;
        while i < self.fields.len()
            invariant
                i <= self.fields@.len(),
                out@ == applied(start, staged_map(self.fields@.take(i as int)), None),
            decreases self.fields@.len() - i,
        {
            let ghost previous = out@;
            out.set(self.fields[i].0, self.fields[i].1.clone());
            proof {
                assert(self.fields@.take(i + 1).drop_last() =~= self.fields@.take(i as int));
                assert(self.fields@.take(i + 1).last() == self.fields@[i as int]);
            }
            i = i + 1;
            assert(out@ =~= applied(start, staged_map(self.fields@.take(i as int)), None));
        }
        assert(self.fields@.take(self.fields@.len() as int) =~= self.fields@);
        match &self.cover {
            Some(cover) => {
                out.cover = cover.duplicate();
            },
            None => {},
        }
        out
    }
}

proof fn lemma_staged_map_finite(fields: Seq<(TagField, String)>)
    ensures
        staged_map(fields).dom().finite(),
    decreases fields.len(),
{
    if fields.len() > 0 {
        lemma_staged_map_finite(fields.drop_last());
    }
}

/// A staged field, once applied, holds the staged value, and later staging of
/// the same field wins over earlier staging.
pub proof fn law_staged_value_is_written(
    draft: TagDraftView,
    staged: Map<TagField, Seq<char>>,
    cover: Option<CoverView>,
    field: TagField,
    first: Seq<char>,
    second: Seq<char>,
)
    ensures
        applied(draft, staged.insert(field, first), cover).field(field) == first,
        staged.insert(field, first).insert(field, second) == staged.insert(field, second),
{
    assert(staged.insert(field, first).insert(field, second) =~= staged.insert(field, second));
    match field {
        TagField::Title => {},
        TagField::Artist => {},
        TagField::Album => {},
        TagField::AlbumArtist => {},
        TagField::Year => {},
        TagField::TrackNumber => {},
        TagField::DiscNumber => {},
        TagField::Genre => {},
    }
}

/// Stages a field for the selection: into the pending edits, or into new edits
/// for the selected files when there are none.
pub fn stage_batch_field(
    pending: Option<PendingBatchSave>,
    selected_paths: &[String],
    field: TagField,
    value: String,
) -> (r: PendingBatchSave)
    requires
        pending matches Some(p) ==> p.well_formed(),
    ensures
        r.well_formed(),
        match pending {
            Some(p) => r.paths@ == p.paths@ && r.cover == p.cover && r.staged() == p.staged().insert(field, value@),
            None => string_views(r.paths@) == string_views(selected_paths@) && r.cover is None
                && r.staged() == Map::<TagField, Seq<char>>::empty().insert(field, value@),
        },
{
    let mut batch = match pending {
        Some(p) => p,
        None => PendingBatchSave::new(copy_paths(selected_paths)),
    };
    batch.stage_field(field, value);
    batch
}

/// Stages a cover for the selection: into the pending edits, or into new edits
/// for the selected files when there are none.
pub fn stage_batch_cover(
    pending: Option<PendingBatchSave>,
    selected_paths: &[String],
    cover: CoverDraft,
) -> (r: PendingBatchSave)
    requires
        pending matches Some(p) ==> p.well_formed(),
    ensures
        r.well_formed(),
        r.cover == Some(cover),
        pending matches Some(p) ==> r.paths@ == p.paths@ && r.fields@ == p.fields@,
        pending is None ==> string_views(r.paths@) == string_views(selected_paths@) && r.fields@.len() == 0,
{
    let mut batch = match pending {
        Some(p) => p,
        None => PendingBatchSave::new(copy_paths(selected_paths)),
    };
    let ghost before = batch;
    batch.stage_cover(cover);
    batch
}

/// Copies of a list of paths.
pub fn copy_paths(paths: &[String]) -> (r: Vec<String>)
    ensures
        string_views(r@) == string_views(paths@),
        r@.len() == paths@.len(),
{
    let mut out: Vec<String> = Vec::new();
    let mut i: usize = 0;
    while i < paths.len()
        invariant
            i <= paths@.len(),
            out@.len() == i,
            forall|j: int| 0 <= j < i ==> #[trigger] out@[j]@ == paths@[j]@,
        decreases paths@.len() - i,
    {
        out.push(paths[i].clone());
        i = i + 1;
    }
    assert(string_views(out@) =~= string_views(paths@));
    out
}

// ---------------------------------------------------------------------------
// Title, hints and summary
// ---------------------------------------------------------------------------

/// The application's name.
pub open spec fn app_name() -> Seq<char> {
    seq!['S', 'l', 'e', 'e', 'v', 'e']
}

/// What separates the parts of the window title.
pub open spec fn title_separator() -> Seq<char> {
    seq![' ', '·', ' ']
}

/// The window title: the application's name, followed by the trimmed artist and
/// title of the focused file's draft where they are not empty.
pub open spec fn header_title_of(has_file: bool, artist: Seq<char>, title: Seq<char>) -> Seq<char> {
    let artist = trim(artist);
    let title = trim(title);
    if !has_file || (artist.len() == 0 && title.len() == 0) {
        app_name()
    } else if title.len() == 0 {
        app_name() + title_separator() + artist
    } else if artist.len() == 0 {
        app_name() + title_separator() + title
    } else {
        app_name() + title_separator() + artist + title_separator() + title
    }
}

fn text_from(literal: &str) -> (r: String)
    ensures
        r@ == literal@,
{
    literal.to_owned()
}

/// The window title for the focused file's draft (see [`header_title_of`]).
pub fn header_title(has_file: bool, draft: &TagDraft) -> (r: String)
    ensures
        r@ == header_title_of(has_file, draft@.artist, draft@.title),
{
    proof {
        reveal_strlit("Sleeve");
        reveal_strlit(" · ");
    }
    let mut out = text_from("Sleeve");
    assert(out@ =~= app_name());
    if !has_file {
        return out;
    }
    let artist = trimmed(&chars_of(draft.artist.as_str()));
    let title = trimmed(&chars_of(draft.title.as_str()));
    if artist.len() > 0 {
        push_char_all(&mut out, " · ");
        push_char_all(&mut out, string_of(&artist).as_str());
    }
    if title.len() > 0 {
        push_char_all(&mut out, " · ");
        push_char_all(&mut out, string_of(&title).as_str());
    }
    assert(out@ =~= header_title_of(has_file, draft@.artist, draft@.title));
    out
}

/// The hint under the cover: that the selected files' covers differ, else the
/// last cover error, else what the draft's cover is.
pub open spec fn cover_hint_of(
    localization: Localization,
    is_batch_editing: bool,
    covers_mixed: bool,
    cover_error: Option<Seq<char>>,
    cover: CoverView,
) -> Seq<char> {
    if is_batch_editing && covers_mixed {
        text_of_key(localization, "cover.mixed_hint")
    } else {
        match cover_error {
            Some(error) => error,
            None => match cover {
                CoverView::External(_) => text_of_key(localization, "cover.external_hint"),
                CoverView::Embedded(_) => text_of_key(localization, "cover.embedded_hint"),
                CoverView::Removed => text_of_key(localization, "cover.removed_hint"),
                CoverView::Unavailable => text_of_key(localization, "cover.unavailable_hint"),
            },
        }
    }
}

/// The view of an optional string slice.
pub open spec fn str_view(value: Option<&str>) -> Option<Seq<char>> {
    match value {
        Some(s) => Some(s@),
        None => None,
    }
}

/// The hint under the cover (see [`cover_hint_of`]).
pub fn cover_hint(
    localization: &Localization,
    is_batch_editing: bool,
    covers_mixed: bool,
    cover_error: Option<&str>,
    cover: &CoverDraft,
) -> (r: String)
    ensures
        r@ == cover_hint_of(*localization, is_batch_editing, covers_mixed, str_view(cover_error), cover@),
{
    if is_batch_editing && covers_mixed {
        tr(localization, "cover.mixed_hint")
    } else if let Some(error) = cover_error {
        text_from(error)
    } else {
        match cover {
            CoverDraft::External(_) => tr(localization, "cover.external_hint"),
            CoverDraft::Embedded(_) => tr(localization, "cover.embedded_hint"),
            CoverDraft::Removed => tr(localization, "cover.removed_hint"),
            CoverDraft::Unavailable => tr(localization, "cover.unavailable_hint"),
        }
    }
}

/// What the status bar says of the selection: nothing selected; the focused
/// file's relative path for one file; the number of files for several.
pub open spec fn selection_summary_of(localization: Localization, count: nat, focused: Option<Seq<char>>) -> Seq<char> {
    if count == 0 {
        text_of_key(localization, "app.no_file_selected")
    } else if count == 1 {
        match focused {
            Some(path) => path,
            None => text_of_key(localization, "app.no_file_selected"),
        }
    } else {
        fill_arguments(text_of_key(localization, "app.selected_files"), seq![("count"@, decimal(count))])
    }
}

/// What the status bar says of the selection (see [`selection_summary_of`]);
/// `focused` is the relative path of the focused file, if one is loaded.
pub fn selection_summary(localization: &Localization, count: usize, focused: Option<&str>) -> (r: String)
    ensures
        r@ == selection_summary_of(*localization, count as nat, str_view(focused)),
{
    if count == 0 {
        tr(localization, "app.no_file_selected")
    } else if count == 1 {
        match focused {
            Some(path) => text_from(path),
            None => tr(localization, "app.no_file_selected"),
        }
    } else {
        let number = decimal_string(count as u64);
        let arguments = [("count", number.as_str())];
        let r = tf(localization, "app.selected_files", &arguments);
        assert(argument_views(arguments@) =~= seq![("count"@, decimal(count as nat))]);
        r
    }
}

// ---------------------------------------------------------------------------
// Selection
// ---------------------------------------------------------------------------

/// The set of paths that a sequence holds.
pub open spec fn seq_set(paths: Seq<Seq<char>>) -> Set<Seq<char>> {
    Set::new(|p: Seq<char>| paths.contains(p))
}

/// The selection after a click on the file `path`: with the range modifier, the
/// files shown from the anchor (or `path` itself when there is none) to `path`,
/// added to the selection when the toggle modifier is held too; with the toggle
/// modifier alone, the selection with `path` added or removed; otherwise `path`
/// alone.
pub open spec fn selection_after(
    rows: Seq<RowView>,
    selected: Set<Seq<char>>,
    anchor: Option<Seq<char>>,
    path: Seq<char>,
    range: bool,
    toggle: bool,
) -> Set<Seq<char>> {
    let base = if toggle { selected } else { Set::empty() };
    if range {
        let start = match anchor {
            Some(a) => a,
            None => path,
        };
        base.union(seq_set(paths_between(rows, start, path)))
    } else if toggle {
        if selected.contains(path) {
            selected.remove(path)
        } else {
            selected.insert(path)
        }
    } else {
        Set::empty().insert(path)
    }
}

fn insert_path(paths: &mut Vec<String>, path: &str)
    requires
        distinct_strings(old(paths)@),
    ensures
        distinct_strings(final(paths)@),
        path_set(final(paths)@) == path_set(old(paths)@).insert(path@),
{
    if contains_path(paths, path) {
        assert(path_set(old(paths)@).insert(path@) =~= path_set(old(paths)@));
        return;
    }
    let ghost before = paths@;
    paths.push(text_from(path));
    proof {
        let after = paths@;
        assert forall|a: int, b: int| 0 <= a < after.len() && 0 <= b < after.len() && a != b implies #[trigger] after[a]@ != #[trigger] after[b]@ by {
            if a == before.len() {
                assert(after[b] == before[b]);
                assert(path_set(before).contains(before[b]@));
            } else if b == before.len() {
                assert(after[a] == before[a]);
                assert(path_set(before).contains(before[a]@));
            } else {
                assert(after[a] == before[a]);
                assert(after[b] == before[b]);
            }
        }
        assert forall|p: Seq<char>| #[trigger] path_set(after).contains(p) <==> path_set(before).insert(path@).contains(p) by {
            if path_set(after).contains(p) {
                let k = choose|k: int| 0 <= k < after.len() && #[trigger] after[k]@ == p;
                if k < before.len() {
                    assert(after[k] == before[k]);
                }
            }
            if path_set(before).contains(p) {
                let k = choose|k: int| 0 <= k < before.len() && #[trigger] before[k]@ == p;
                assert(after[k] == before[k]);
            }
            if p == path@ {
                assert(after[before.len() as int]@ == p);
            }
        }
        assert(path_set(after) =~= path_set(before).insert(path@));
    }
}

fn without_path(paths: &[String], path: &str) -> (r: Vec<String>)
    requires
        distinct_strings(paths@),
    ensures
        distinct_strings(r@),
        path_set(r@) == path_set(paths@).remove(path@),
{
    let mut out: Vec<String> = Vec::new();
    let mut i: usize = 0;
    while i < paths.len()
        invariant
            i <= paths@.len(),
            distinct_strings(paths@),
            distinct_strings(out@),
            forall|p: Seq<char>| #[trigger] path_set(out@).contains(p) <==> (p != path@ && exists|j: int| 0 <= j < i && #[trigger] paths@[j]@ == p),
        decreases paths@.len() - i,
    {
        let ghost before = out@;
        if !str_equals(paths[i].as_str(), path) {
            out.push(paths[i].clone());
            proof {
                let after = out@;
                assert forall|a: int, b: int| 0 <= a < after.len() && 0 <= b < after.len() && a != b implies #[trigger] after[a]@ != #[trigger] after[b]@ by {
                    if a == before.len() {
                        assert(after[b] == before[b]);
                        assert(path_set(before).contains(before[b]@));
                        let j = choose|j: int| 0 <= j < i && #[trigger] paths@[j]@ == before[b]@;
                        assert(paths@[j]@ != paths@[i as int]@);
                    } else if b == before.len() {
                        assert(after[a] == before[a]);
                        assert(path_set(before).contains(before[a]@));
                        let j = choose|j: int| 0 <= j < i && #[trigger] paths@[j]@ == before[a]@;
                        assert(paths@[j]@ != paths@[i as int]@);
                    } else {
                        assert(after[a] == before[a]);
                        assert(after[b] == before[b]);
                    }
                }
            }
        }
        proof {
            let next = i + 1;
            assert forall|p: Seq<char>| #[trigger] path_set(out@).contains(p) <==> (p != path@ && exists|j: int| 0 <= j < next && #[trigger] paths@[j]@ == p) by {
                if path_set(out@).contains(p) {
                    let k = choose|k: int| 0 <= k < out@.len() && #[trigger] out@[k]@ == p;
                    if k < before.len() {
                        assert(out@[k] == before[k]);
                        assert(path_set(before).contains(p));
                    } else {
                        assert(paths@[i as int]@ == p);
                    }
                }
                if p != path@ && exists|j: int| 0 <= j < next && #[trigger] paths@[j]@ == p {
                    let j = choose|j: int| 0 <= j < next && #[trigger] paths@[j]@ == p;
                    if j < i {
                        assert(path_set(before).contains(p));
                        let k = choose|k: int| 0 <= k < before.len() && #[trigger] before[k]@ == p;
                        assert(out@[k] == before[k]);
                    } else {
                        assert(out@[before.len() as int]@ == p);
                    }
                }
            }
        }
        i = i + 1;
    }
    assert(path_set(out@) =~= path_set(paths@).remove(path@));
    out
}

fn copy_selection(paths: &[String]) -> (r: Vec<String>)
    requires
        distinct_strings(paths@),
    ensures
        distinct_strings(r@),
        path_set(r@) == path_set(paths@),
{
    let r = copy_paths(paths);
    proof {
        assert forall|a: int, b: int| 0 <= a < r@.len() && 0 <= b < r@.len() && a != b implies #[trigger] r@[a]@ != #[trigger] r@[b]@ by {
            assert(string_views(r@)[a] == string_views(paths@)[a]);
            assert(string_views(r@)[b] == string_views(paths@)[b]);
        }
        assert forall|p: Seq<char>| #[trigger] path_set(r@).contains(p) <==> path_set(paths@).contains(p) by {
            if path_set(r@).contains(p) {
                let k = choose|k: int| 0 <= k < r@.len() && #[trigger] r@[k]@ == p;
                assert(string_views(r@)[k] == string_views(paths@)[k]);
            }
            if path_set(paths@).contains(p) {
                let k = choose|k: int| 0 <= k < paths@.len() && #[trigger] paths@[k]@ == p;
                assert(string_views(r@)[k] == string_views(paths@)[k]);
            }
        }
        assert(path_set(r@) =~= path_set(paths@));
    }
    r
}

/// The selection after a click on the file `path` (see [`selection_after`]); the
/// selection holds each path once.
pub fn next_selection(
    rows: &[TreeRow],
    selected: &[String],
    anchor: Option<&str>,
    path: &str,
    range: bool,
    toggle: bool,
) -> (r: Vec<String>)
    requires
        distinct_strings(selected@),
    ensures
        distinct_strings(r@),
        path_set(r@) == selection_after(row_views(rows@), path_set(selected@), str_view(anchor), path@, range, toggle),
{
    let ghost expected = selection_after(row_views(rows@), path_set(selected@), str_view(anchor), path@, range, toggle);
    if range {
        let mut out = if toggle {
            copy_selection(selected)
        } else {
            Vec::new()
        };
        let ghost base = path_set(out@);
        assert(base =~= if toggle { path_set(selected@) } else { Set::<Seq<char>>::empty() });
        let start = match anchor {
            Some(a) => a,
            None => path,
        };
        let between = audio_paths_between(rows, start, path);
        let ghost views = string_views(between@);
        let mut i: usize = 0;
        while i < between.len()
            invariant
                i <= between@.len(),
                views == string_views(between@),
                distinct_strings(out@),
                path_set(out@) == base.union(seq_set(views.take(i as int))),
            decreases between@.len() - i,
        {
            insert_path(&mut out, between[i].as_str());
            proof {
                assert(views[i as int] == between@[i as int]@);
                assert(seq_set(views.take(i + 1)) =~= seq_set(views.take(i as int)).insert(views[i as int])) by {
                    assert forall|p: Seq<char>| seq_set(views.take(i + 1)).contains(p) implies seq_set(views.take(i as int)).insert(views[i as int]).contains(p) by {
                        let k = choose|k: int| 0 <= k < i + 1 && #[trigger] views.take(i + 1)[k] == p;
                        if k < i {
                            assert(views.take(i as int)[k] == p);
                        }
                    }
                    assert forall|p: Seq<char>| seq_set(views.take(i as int)).insert(views[i as int]).contains(p) implies seq_set(views.take(i + 1)).contains(p) by {
                        if p == views[i as int] {
                            assert(views.take(i + 1)[i as int] == p);
                        } else {
                            let k = choose|k: int| 0 <= k < i && #[trigger] views.take(i as int)[k] == p;
                            assert(views.take(i + 1)[k] == p);
                        }
                    }
                }
                assert(path_set(out@) =~= base.union(seq_set(views.take(i + 1))));
            }
            i = i + 1;
        }
        assert(views.take(between@.len() as int) =~= views);
        assert(path_set(out@) =~= expected);
        out
    } else if toggle {
        if contains_path(selected, path) {
            without_path(selected, path)
        } else {
            let mut out = copy_selection(selected);
            insert_path(&mut out, path);
            out
        }
    } else {
        let mut out: Vec<String> = Vec::new();
        insert_path(&mut out, path);
        assert(path_set(Seq::<String>::empty()) =~= Set::<Seq<char>>::empty());
        assert(path_set(out@) =~= expected);
        out
    }
}

/// Clicking a file twice with the toggle modifier gives back the selection.
pub proof fn law_toggle_click_twice_restores_selection(
    rows: Seq<RowView>,
    selected: Set<Seq<char>>,
    anchor: Option<Seq<char>>,
    path: Seq<char>,
)
    ensures
        selection_after(rows, selection_after(rows, selected, anchor, path, false, true), Some(path), path, false, true)
            == selected,
{
    if selected.contains(path) {
        assert(selected.remove(path).insert(path) =~= selected);
    } else {
        assert(selected.insert(path).remove(path) =~= selected);
    }
}

/// A click without modifiers selects the clicked file alone; with the range
/// modifier alone, the files shown between the anchor and the clicked file.
pub proof fn law_click_replaces_selection(
    rows: Seq<RowView>,
    selected: Set<Seq<char>>,
    anchor: Seq<char>,
    path: Seq<char>,
)
    ensures
        selection_after(rows, selected, Some(anchor), path, false, false) == Set::<Seq<char>>::empty().insert(path),
        selection_after(rows, selected, Some(anchor), path, true, false) == seq_set(paths_between(rows, anchor, path)),
{
    assert(Set::<Seq<char>>::empty().union(seq_set(paths_between(rows, anchor, path))) =~= seq_set(paths_between(rows, anchor, path)));
}

/// Whether a row is a selected file.
pub open spec fn is_selected_file(row: RowView, selected: Set<Seq<char>>) -> bool {
    !row.is_directory && selected.contains(row.path)
}

/// Which file has the focus after a click changed the selection.
#[derive(Debug, Clone, PartialEq, Eq)]
pub enum FocusChange {
    /// This file gets the focus.
    Focus(String),
    /// No file has the focus any longer.
    Clear,
    /// The focus stays where it was.
    Keep,
}

/// Which file has the focus after a click on `path` gave the selection
/// `selected`: `path` while it is selected; when the click deselected the focused
/// file, the first selected file among the rows, or no file; else the focus stays.
pub fn focus_after_selection(rows: &[TreeRow], selected: &[String], path: &str, focused: Option<&str>) -> (r: FocusChange)
    ensures
        path_set(selected@).contains(path@) ==> (r matches FocusChange::Focus(p) && p@ == path@),
        !path_set(selected@).contains(path@) && str_view(focused) != Some(path@) ==> r == FocusChange::Keep,
        !path_set(selected@).contains(path@) && str_view(focused) == Some(path@) ==> match r {
            FocusChange::Focus(p) => exists|i: int|
                0 <= i < rows@.len() && is_selected_file(#[trigger] rows@[i]@, path_set(selected@)) && rows@[i]@.path == p@
                    && forall|j: int| 0 <= j < i ==> !is_selected_file(#[trigger] rows@[j]@, path_set(selected@)),
            FocusChange::Clear => forall|i: int| 0 <= i < rows@.len() ==> !is_selected_file(#[trigger] rows@[i]@, path_set(selected@)),
            FocusChange::Keep => false,
        },
{
    if contains_path(selected, path) {
        return FocusChange::Focus(text_from(path));
    }
    let is_focused = match focused {
        Some(f) => str_equals(f, path),
        None => false,
    };
    if !is_focused {
        return FocusChange::Keep;
    }
    let mut i: usize = 0;
    while i < rows.len()
        invariant
            i <= rows@.len(),
            !path_set(selected@).contains(path@),
            str_view(focused) == Some(path@),
            forall|j: int| 0 <= j < i ==> !is_selected_file(#[trigger] rows@[j]@, path_set(selected@)),
        decreases rows@.len() - i,
    {
        if !rows[i].is_directory && contains_path(selected, rows[i].path.as_str()) {
            assert(is_selected_file(rows@[i as int]@, path_set(selected@)));
            return FocusChange::Focus(rows[i].path.clone());
        }
        i = i + 1;
    }
    FocusChange::Clear
}

/// For each row, whether it is shown selected: a file row whose path is selected.
pub fn selected_rows(rows: &[TreeRow], selected: &[String]) -> (r: Vec<bool>)
    ensures
        r@.len() == rows@.len(),
        forall|i: int| 0 <= i < rows@.len() ==> #[trigger] r@[i] == is_selected_file(rows@[i]@, path_set(selected@)),
{
    let mut out: Vec<bool> = Vec::new();
    let mut i: usize = 0;
    while i < rows.len()
        invariant
            i <= rows@.len(),
            out@.len() == i,
            forall|j: int| 0 <= j < i ==> #[trigger] out@[j] == is_selected_file(rows@[j]@, path_set(selected@)),
        decreases rows@.len() - i,
    {
        let flag = !rows[i].is_directory && contains_path(selected, rows[i].path.as_str());
        out.push(flag);
        i = i + 1;
    }
    out
}

/// The rows whose selection mark changes when the selection goes from
/// `previous` to `current`: each such row's index, in order, with its new mark.
pub fn selection_changes(row_paths: &[String], previous: &[String], current: &[String]) -> (r: Vec<(usize, bool)>)
    ensures
        forall|k: int| 0 <= k < r@.len() ==> #[trigger] r@[k].0 < row_paths@.len()
            && r@[k].1 == path_set(current@).contains(row_paths@[r@[k].0 as int]@)
            && path_set(current@).contains(row_paths@[r@[k].0 as int]@) != path_set(previous@).contains(row_paths@[r@[k].0 as int]@),
        forall|a: int, b: int| 0 <= a < b < r@.len() ==> #[trigger] r@[a].0 < #[trigger] r@[b].0,
        forall|i: int| 0 <= i < row_paths@.len() && path_set(current@).contains(#[trigger] row_paths@[i]@)
            != path_set(previous@).contains(row_paths@[i]@) ==> exists|k: int| 0 <= k < r@.len() && r@[k].0 == i,
{
    let mut out: Vec<(usize, bool)> = Vec::new();
    let mut i: usize = 0;
    while i < row_paths.len()
        invariant
            i <= row_paths@.len(),
            forall|k: int| 0 <= k < out@.len() ==> #[trigger] out@[k].0 < i
                && out@[k].1 == path_set(current@).contains(row_paths@[out@[k].0 as int]@)
                && path_set(current@).contains(row_paths@[out@[k].0 as int]@) != path_set(previous@).contains(row_paths@[out@[k].0 as int]@),
            forall|a: int, b: int| 0 <= a < b < out@.len() ==> #[trigger] out@[a].0 < #[trigger] out@[b].0,
            forall|j: int| 0 <= j < i && path_set(current@).contains(#[trigger] row_paths@[j]@)
                != path_set(previous@).contains(row_paths@[j]@) ==> exists|k: int| 0 <= k < out@.len() && out@[k].0 == j,
        decreases row_paths@.len() - i,
    {
        let is_selected = contains_path(current, row_paths[i].as_str());
        let was_selected = contains_path(previous, row_paths[i].as_str());
        if is_selected != was_selected {
            let ghost before = out@;
            out.push((i, is_selected));
            assert forall|j: int| 0 <= j < i + 1 && path_set(current@).contains(#[trigger] row_paths@[j]@)
                != path_set(previous@).contains(row_paths@[j]@) implies exists|k: int| 0 <= k < out@.len() && out@[k].0 == j by {
                if j < i {
                    let k = choose|k: int| 0 <= k < before.len() && before[k].0 == j;
                    assert(out@[k] == before[k]);
                } else {
                    assert(out@[before.len() as int].0 == j);
                }
            }
        }
        i = i + 1;
    }
    out
}

/// The answers to the question asked when closing with unsaved edits.
#[derive(Debug, Clone, Copy, PartialEq, Eq, Structural)]
pub enum CloseAction {
    Cancel,
    Discard,
    Save,
}

/// The answer that a response of the close dialog stands for: "discard",
/// "save", and anything else cancels.
pub fn close_action_of(response: &str) -> (r: CloseAction)
    ensures
        r == if response@ == "discard"@ {
            CloseAction::Discard
        } else if response@ == "save"@ {
            CloseAction::Save
        } else {
            CloseAction::Cancel
        },
{
    if str_equals(response, "discard") {
        CloseAction::Discard
    } else if str_equals(response, "save") {
        CloseAction::Save
    } else {
        CloseAction::Cancel
    }
}

// ---------------------------------------------------------------------------
// Expanded directories
// ---------------------------------------------------------------------------

/// The expanded directories after a click on the directory `path`: without the
/// first entry that names the same path ([`same_path`]) when there is one, else
/// with `path` added at the end.
pub open spec fn toggled(expanded: Seq<Seq<char>>, path: Seq<char>) -> Seq<Seq<char>> {
    match first_position(expanded, path) {
        Some(i) => expanded.remove(i),
        None => expanded.push(path),
    }
}

/// The index of the first of `paths` that names the same path as `path`.
pub fn path_position(paths: &[String], path: &str) -> (r: Option<usize>)
    ensures
        match r {
            Some(i) => first_position(string_views(paths@), path@) == Some(i as int),
            None => first_position(string_views(paths@), path@) is None,
        },
{
    let ghost views = string_views(paths@);
    let mut i: usize = 0;
    while i < paths.len()
        invariant
            i <= paths@.len(),
            views == string_views(paths@),
            views.len() == paths@.len(),
            first_position(views.take(i as int), path@) is None,
        decreases paths@.len() - i,
    {
        proof {
            crate::models::file_tree::lemma_first_position_step(views, i as int, path@);
        }
        assert(views[i as int] == paths@[i as int]@);
        if crate::paths::paths_equal(paths[i].as_str(), path) {
            proof {
                crate::models::file_tree::lemma_first_position_extends(views, i + 1, path@);
            }
            return Some(i);
        }
        i = i + 1;
    }
    assert(views.take(paths@.len() as int) =~= views);
    None
}

/// Expands a collapsed directory or collapses an expanded one (see [`toggled`]).
pub fn toggle_expanded(expanded: &mut Vec<String>, path: &str)
    ensures
        string_views(final(expanded)@) == toggled(string_views(old(expanded)@), path@),
{
    match path_position(expanded, path) {
        Some(i) => {
            proof {
                crate::models::file_tree::lemma_first_position_bounds(string_views(expanded@), path@);
            }
            let ghost before = expanded@;
            expanded.remove(i);
            assert(string_views(expanded@) =~= string_views(before).remove(i as int));
        },
        None => {
            let ghost before = expanded@;
            expanded.push(text_from(path));
            assert(string_views(expanded@) =~= string_views(before).push(path@));
        },
    }
}

fn bytes_equal(a: &[u8], b: &[u8]) -> (r: bool)
    ensures
        r == (a@ == b@),
{
    if a.len() != b.len() {
        return false;
    }
    let mut i: usize = 0;
    while i < a.len()
        invariant
            a@.len() == b@.len(),
            i <= a@.len(),
            forall|j: int| 0 <= j < i ==> a@[j] == b@[j],
        decreases a@.len() - i,
    {
        if a[i] != b[i] {
            return false;
        }
        i = i + 1;
    }
    assert(a@ =~= b@);
    true
}

fn covers_equal(a: &Option<std::sync::Arc<Vec<u8>>>, b: &Option<std::sync::Arc<Vec<u8>>>) -> (r: bool)
    ensures
        r == (crate::models::file_tree::cover_bytes(*a) == crate::models::file_tree::cover_bytes(*b)),
{
    match (a, b) {
        (Some(x), Some(y)) => {
            let x: &Vec<u8> = &**x;
            let y: &Vec<u8> = &**y;
            bytes_equal(x.as_slice(), y.as_slice())
        },
        (None, None) => true,
        _ => false,
    }
}

/// Whether two rows are the same, but for whether they are expanded.
fn rows_alike(a: &TreeRow, b: &TreeRow, expanded: bool) -> (r: bool)
    ensures
        r == (RowView { expanded, ..a@ } == b@),
{
    str_equals(a.name.as_str(), b.name.as_str()) && str_equals(a.path.as_str(), b.path.as_str())
        && a.depth == b.depth && a.is_directory == b.is_directory && a.is_album == b.is_album
        && covers_equal(&a.album_cover, &b.album_cover) && expanded == b.expanded
}

/// How the shown rows change after a click on a directory: not at all; by
/// setting whether the row at `index` is expanded and putting the `inserted`
/// rows of `rows` after `index + 1` in place of the `removed` rows that followed
/// it; or by showing `rows` in place of all of them.
pub enum RowsChange {
    Unchanged,
    Splice { index: usize, removed: usize, inserted: usize, expanded: bool, rows: Vec<TreeRow> },
    Replace(Vec<TreeRow>),
}

/// The rows shown after `change` is made to the rows `shown`.
pub open spec fn changed_rows(shown: Seq<RowView>, change: RowsChange) -> Seq<RowView> {
    match change {
        RowsChange::Unchanged => shown,
        RowsChange::Splice { index, removed, inserted, expanded, rows } => shown.take(index as int) + seq![
            RowView { expanded, ..shown[index as int] },
        ] + row_views(rows@).subrange(index + 1, index + 1 + inserted) + shown.skip(index + 1 + removed),
        RowsChange::Replace(rows) => row_views(rows@),
    }
}

/// A click on the directory `path` in the sidebar showing the rows of `tree`:
/// nothing when no row has that path; otherwise the directory is expanded or
/// collapsed ([`toggled`]) and the change that makes the shown rows the rows of
/// the tree with the new expanded directories. The change touches only the
/// clicked row and the rows below it when the other rows stay as they were, as
/// they do in a tree; it shows all rows anew otherwise.
#[verifier::loop_isolation(false)]
pub fn toggle_directory(tree: &FileTreeNode, expanded: &mut Vec<String>, path: &str) -> (r: RowsChange)
    requires
        tree@.levels() <= usize::MAX,
    ensures
        ({
            let shown = tree_rows(tree@, string_views(old(expanded)@));
            match first_position(shown.map_values(|row: RowView| row.path), path@) {
                None => final(expanded)@ == old(expanded)@ && r is Unchanged,
                Some(_) => string_views(final(expanded)@) == toggled(string_views(old(expanded)@), path@)
                    && changed_rows(shown, r) == tree_rows(tree@, string_views(final(expanded)@)),
            }
        }),
{
    let old_rows = tree.flatten(expanded);
    let index = match crate::models::file_tree::position_of(&old_rows, path) {
        Some(i) => i,
        None => return RowsChange::Unchanged,
    };
    proof {
        crate::models::file_tree::lemma_first_position_bounds(
            row_views(old_rows@).map_values(|row: RowView| row.path),
            path@,
        );
    }
    let old_count = descendant_count(&old_rows, index);
    toggle_expanded(expanded, path);
    let new_rows = tree.flatten(expanded);
    let ghost shown = row_views(old_rows@);
    let ghost fresh = row_views(new_rows@);
    if index >= new_rows.len() {
        return RowsChange::Replace(new_rows);
    }
    let new_count = descendant_count(&new_rows, index);
    let head = index + 1;
    let old_tail = old_rows.len() - head - old_count;
    if new_rows.len() - head - new_count != old_tail {
        return RowsChange::Replace(new_rows);
    }
    let mut k: usize = 0;
    while k < index
        invariant
            k <= index,
            index < old_rows@.len(),
            index < new_rows@.len(),
            shown == row_views(old_rows@),
            fresh == row_views(new_rows@),
            forall|j: int| 0 <= j < k ==> #[trigger] shown[j] == fresh[j],
        decreases index - k,
    {
        if !rows_alike(&old_rows[k], &new_rows[k], old_rows[k].expanded) {
            return RowsChange::Replace(new_rows);
        }
        assert(shown[k as int] == old_rows@[k as int]@);
        assert(fresh[k as int] == new_rows@[k as int]@);
        k = k + 1;
    }
    let expanded_now = new_rows[index].expanded;
    if !rows_alike(&old_rows[index], &new_rows[index], expanded_now) {
        return RowsChange::Replace(new_rows);
    }
    let mut t: usize = 0;
    while t < old_tail
        invariant
            t <= old_tail,
            head + old_count + old_tail == old_rows@.len(),
            head + new_count + old_tail == new_rows@.len(),
            shown == row_views(old_rows@),
            fresh == row_views(new_rows@),
            forall|j: int| 0 <= j < t ==> #[trigger] shown[head + old_count + j] == fresh[head + new_count + j],
        decreases old_tail - t,
    {
        let a = head + old_count + t;
        let b = head + new_count + t;
        if !rows_alike(&old_rows[a], &new_rows[b], old_rows[a].expanded) {
            return RowsChange::Replace(new_rows);
        }
        assert(shown[a as int] == old_rows@[a as int]@);
        assert(fresh[b as int] == new_rows@[b as int]@);
        t = t + 1;
    }
    let change = RowsChange::Splice {
        index,
        removed: old_count,
        inserted: new_count,
        expanded: expanded_now,
        rows: new_rows,
    };
    proof {
        let result = changed_rows(shown, change);
        assert(shown[index as int] == old_rows@[index as int]@);
        assert(fresh[index as int] == change->rows@[index as int]@);
        assert(result.len() == fresh.len());
        assert forall|j: int| 0 <= j < fresh.len() implies result[j] == fresh[j] by {
            if j < index {
            } else if j == index {
            } else if j < head + new_count {
            } else {
                let t = j - head - new_count;
                assert(shown[head + old_count + t] == fresh[head + new_count + t]);
            }
        }
        assert(result =~= fresh);
    }
    change
}

proof fn lemma_first_position_found(items: Seq<Seq<char>>, item: Seq<char>)
    ensures
        first_position(items, item) is None <==> !lists_path(items, item),
        first_position(items, item) matches Some(i) ==> 0 <= i < items.len() && same_path(items[i], item)
            && forall|j: int| 0 <= j < i ==> !same_path(#[trigger] items[j], item),
    decreases items.len(),
{
    if items.len() > 0 {
        let front = items.drop_last();
        lemma_first_position_found(front, item);
        assert forall|j: int| 0 <= j < front.len() implies front[j] == items[j] by {}
        if lists_path(front, item) {
            let k = choose|k: int| 0 <= k < front.len() && same_path(#[trigger] front[k], item);
            assert(same_path(items[k], item));
        }
        if lists_path(items, item) && !lists_path(front, item) {
            let k = choose|k: int| 0 <= k < items.len() && same_path(#[trigger] items[k], item);
            if k < items.len() - 1 {
                assert(same_path(front[k], item));
            }
        }
        if first_position(front, item) is None && same_path(items.last(), item) {
            assert forall|j: int| 0 <= j < items.len() - 1 implies !same_path(#[trigger] items[j], item) by {
                assert(front[j] == items[j]);
                if same_path(items[j], item) {
                    assert(lists_path(front, item));
                }
            }
        }
    }
}

/// Whether at most one of `paths` names the same path as `path`.
pub open spec fn at_most_once(paths: Seq<Seq<char>>, path: Seq<char>) -> bool {
    forall|a: int, b: int|
        0 <= a < paths.len() && 0 <= b < paths.len() && same_path(#[trigger] paths[a], path) && same_path(
            #[trigger] paths[b],
            path,
        ) ==> a == b
}

/// The paths that some of `paths` name, each by its components.
pub open spec fn named_paths(paths: Seq<Seq<char>>) -> Set<Seq<Seq<char>>> {
    Set::new(|c: Seq<Seq<char>>| exists|i: int| 0 <= i < paths.len() && path_components(#[trigger] paths[i]) == c)
}

/// Clicking a directory twice leaves the same directories expanded, where the
/// directory was listed at most once.
pub proof fn law_toggling_twice_restores_expansion(expanded: Seq<Seq<char>>, path: Seq<char>)
    requires
        at_most_once(expanded, path),
    ensures
        named_paths(toggled(toggled(expanded, path), path)) == named_paths(expanded),
        at_most_once(toggled(expanded, path), path),
{
    lemma_first_position_found(expanded, path);
    match first_position(expanded, path) {
        Some(i) => {
            let once = expanded.remove(i);
            assert(!lists_path(once, path)) by {
                if lists_path(once, path) {
                    let k = choose|k: int| 0 <= k < once.len() && same_path(#[trigger] once[k], path);
                    if k < i {
                        assert(same_path(expanded[k], path));
                    } else {
                        assert(same_path(expanded[k + 1], path));
                    }
                }
            }
            lemma_first_position_found(once, path);
            let twice = once.push(path);
            assert forall|c: Seq<Seq<char>>| named_paths(twice).contains(c) == named_paths(expanded).contains(c) by {
                if named_paths(twice).contains(c) {
                    let k = choose|k: int| 0 <= k < twice.len() && path_components(#[trigger] twice[k]) == c;
                    if k == once.len() {
                        assert(path_components(expanded[i]) == c);
                    } else if k < i {
                        assert(path_components(expanded[k]) == c);
                    } else {
                        assert(path_components(expanded[k + 1]) == c);
                    }
                }
                if named_paths(expanded).contains(c) {
                    let k = choose|k: int| 0 <= k < expanded.len() && path_components(#[trigger] expanded[k]) == c;
                    if k == i {
                        assert(path_components(twice[once.len() as int]) == c);
                    } else if k < i {
                        assert(path_components(twice[k]) == c);
                    } else {
                        assert(path_components(twice[k - 1]) == c);
                    }
                }
            }
            assert(named_paths(twice) =~= named_paths(expanded));
        },
        None => {
            let once = expanded.push(path);
            assert(first_position(once, path) == Some(expanded.len() as int)) by {
                assert(once.drop_last() =~= expanded);
            }
            assert(once.remove(expanded.len() as int) =~= expanded);
            assert forall|a: int, b: int|
                0 <= a < once.len() && 0 <= b < once.len() && same_path(#[trigger] once[a], path) && same_path(
                    #[trigger] once[b],
                    path,
                ) implies a == b by {
                if a < expanded.len() {
                    assert(same_path(expanded[a], path));
                }
                if b < expanded.len() {
                    assert(same_path(expanded[b], path));
                }
            }
        },
    }
}

/// The number of rows right after the row at `index` that are deeper than it:
/// the rows of its descendants that are shown.
pub fn descendant_count(rows: &[TreeRow], index: usize) -> (r: usize)
    requires
        index < rows@.len(),
    ensures
        index + 1 + r <= rows@.len(),
        forall|k: int| index + 1 <= k < index + 1 + r ==> #[trigger] rows@[k].depth > rows@[index as int].depth,
        index + 1 + r < rows@.len() ==> rows@[index + 1 + r].depth <= rows@[index as int].depth,
{
    let depth = rows[index].depth;
    let mut next: usize = index + 1;
    while next < rows.len() && rows[next].depth > depth
        invariant
            index < rows@.len(),
            depth == rows@[index as int].depth,
            index + 1 <= next <= rows@.len(),
            forall|k: int| index + 1 <= k < next ==> #[trigger] rows@[k].depth > depth,
        decreases rows@.len() - next,
    {
        next = next + 1;
    }
    next - index - 1
}

/// The directories expanded when a scan finishes: the album directories, and
/// the scanned directory itself when it is not one of them.
pub open spec fn initially_expanded(albums: Seq<Seq<char>>, root: Seq<char>) -> Seq<Seq<char>> {
    if lists_path(albums, root) {
        albums
    } else {
        albums.push(root)
    }
}

/// The directories expanded when the scan of `root` gave `tree` (see
/// [`initially_expanded`]).
pub fn initial_expanded_paths(tree: &FileTreeNode, root: &str) -> (r: Vec<String>)
    ensures
        string_views(r@) == initially_expanded(album_paths(tree@), root@),
{
    let mut paths = tree.album_directory_paths();
    let found = path_position(&paths, root);
    proof {
        lemma_first_position_found(string_views(paths@), root@);
    }
    if found.is_none() {
        let ghost before = paths@;
        paths.push(text_from(root));
        assert(string_views(paths@) =~= string_views(before).push(root@));
    }
    paths
}

// ---------------------------------------------------------------------------
// Requests while saves are pending
// ---------------------------------------------------------------------------

/// What the window knows of saves that are waiting or running.
#[derive(Debug, Clone, Copy, PartialEq, Eq, Structural)]
pub struct SaveActivity {
    /// A save of the focused file is scheduled.
    pub pending_save: bool,
    /// A save of the focused file is running.
    pub save_in_progress: bool,
    /// A batch save, undo or redo is running.
    pub batch_save_in_progress: bool,
    /// Edits of several files wait to be saved.
    pub pending_batch: bool,
    /// Those edits change at least a field or the cover.
    pub pending_batch_has_edits: bool,
}

/// The saves of the window: the scheduled save of the focused file (`P` is the
/// window's handle of it, such as its timer), the edits of several files that
/// wait to be saved, whether a save or a batch save runs, and whether the window
/// closes once saving is done.
pub struct SaveState<P> {
    pub pending_save: Option<P>,
    pub pending_batch_save: Option<PendingBatchSave>,
    pub save_in_progress: bool,
    pub batch_save_in_progress: bool,
    pub quitting: bool,
}

impl<P> SaveState<P> {
    /// Whether the staged batch edits, if any, are well formed.
    pub open spec fn well_formed(&self) -> bool {
        self.pending_batch_save matches Some(pending) ==> pending.well_formed()
    }

    /// What the window knows of these saves.
    pub open spec fn activity_of(&self) -> SaveActivity {
        SaveActivity {
            pending_save: self.pending_save is Some,
            save_in_progress: self.save_in_progress,
            batch_save_in_progress: self.batch_save_in_progress,
            pending_batch: self.pending_batch_save is Some,
            pending_batch_has_edits: match self.pending_batch_save {
                Some(pending) => !(pending.staged().dom().len() == 0 && pending.cover is None),
                None => false,
            },
        }
    }

    /// No save scheduled, staged or running, and not closing.
    pub fn idle() -> (r: SaveState<P>)
        ensures
            r.pending_save is None,
            r.pending_batch_save is None,
            !r.save_in_progress,
            !r.batch_save_in_progress,
            !r.quitting,
    {
        SaveState {
            pending_save: None,
            pending_batch_save: None,
            save_in_progress: false,
            batch_save_in_progress: false,
            quitting: false,
        }
    }

    /// What the window knows of these saves (see [`SaveState::activity_of`]).
    pub fn activity(&self) -> (r: SaveActivity)
        requires
            self.well_formed(),
        ensures
            r == self.activity_of(),
    {
        SaveActivity {
            pending_save: self.pending_save.is_some(),
            save_in_progress: self.save_in_progress,
            batch_save_in_progress: self.batch_save_in_progress,
            pending_batch: self.pending_batch_save.is_some(),
            pending_batch_has_edits: match &self.pending_batch_save {
                Some(pending) => !pending.is_empty(),
                None => false,
            },
        }
    }

    /// The save of the focused file failed: it is scheduled again (its handle
    /// given back), it no longer runs, and the window does not close; the staged
    /// batch edits and a running batch save are as they were. So the edits are
    /// still unsaved.
    pub fn save_failed(&mut self, pending: P)
        ensures
            final(self).pending_save == Some(pending),
            !final(self).save_in_progress,
            !final(self).quitting,
            final(self).pending_batch_save == old(self).pending_batch_save,
            final(self).batch_save_in_progress == old(self).batch_save_in_progress,
            final(self).activity_of().unsaved(),
    {
        self.pending_save = Some(pending);
        self.save_in_progress = false;
        self.quitting = false;
    }

    /// The batch save failed: its edits are staged again, it no longer runs, and
    /// the window does not close; the save of the focused file is as it was.
    pub fn batch_save_failed(&mut self, pending: PendingBatchSave)
        ensures
            final(self).pending_batch_save == Some(pending),
            !final(self).batch_save_in_progress,
            !final(self).quitting,
            final(self).pending_save == old(self).pending_save,
            final(self).save_in_progress == old(self).save_in_progress,
    {
        self.pending_batch_save = Some(pending);
        self.batch_save_in_progress = false;
        self.quitting = false;
    }
}

/// Whether a request may go ahead now.
#[derive(Debug, Clone, Copy, PartialEq, Eq)]
pub enum Gate {
    /// Refused; the status bar shows the translation of this key.
    Blocked(&'static str),
    /// The scheduled save runs first; the request follows when it is done.
    SaveFirst,
    /// The request goes ahead.
    Proceed,
}

/// What a request to close the window leads to.
#[derive(Debug, Clone, Copy, PartialEq, Eq)]
pub enum CloseStep {
    /// Refused while saving; the status bar shows the translation of this key.
    Wait(&'static str),
    /// Unsaved edits: ask whether to save, discard or cancel.
    Ask,
    /// Nothing unsaved: close.
    Close,
}

impl SaveActivity {
    /// Whether a save of any kind is running.
    pub open spec fn saving(self) -> bool {
        self.save_in_progress || self.batch_save_in_progress
    }

    /// Whether edits wait to be saved.
    pub open spec fn unsaved(self) -> bool {
        self.pending_save || (self.pending_batch && self.pending_batch_has_edits)
    }

    /// Whether a save of any kind is running.
    pub fn is_saving(&self) -> (r: bool)
        ensures
            r == self.saving(),
    {
        self.save_in_progress || self.batch_save_in_progress
    }

    /// Whether edits wait to be saved.
    pub fn has_pending_save(&self) -> (r: bool)
        ensures
            r == self.unsaved(),
    {
        self.pending_save || (self.pending_batch && self.pending_batch_has_edits)
    }

    /// Whether another directory may be opened: not while saving or while batch
    /// edits wait; after the scheduled save when there is one.
    pub fn directory_gate(&self) -> (r: Gate)
        ensures
            r == if self.saving() {
                Gate::Blocked("app.saving_before_switch")
            } else if self.pending_batch {
                Gate::Blocked("app.batch_unsaved")
            } else if self.pending_save || self.save_in_progress {
                Gate::SaveFirst
            } else {
                Gate::Proceed
            },
    {
        if self.is_saving() {
            Gate::Blocked("app.saving_before_switch")
        } else if self.pending_batch {
            Gate::Blocked("app.batch_unsaved")
        } else if self.pending_save || self.save_in_progress {
            Gate::SaveFirst
        } else {
            Gate::Proceed
        }
    }

    /// Whether a click on a file may change the selection: not while saving or
    /// while batch edits wait; after the scheduled save when another file than
    /// the focused one was clicked.
    pub fn selection_gate(&self, is_focused_file: bool) -> (r: Gate)
        ensures
            r == if self.saving() {
                Gate::Blocked("app.saving_before_select")
            } else if self.pending_batch {
                Gate::Blocked("app.batch_unsaved")
            } else if !is_focused_file && (self.pending_save || self.save_in_progress) {
                Gate::SaveFirst
            } else {
                Gate::Proceed
            },
    {
        if self.is_saving() {
            Gate::Blocked("app.saving_before_select")
        } else if self.pending_batch {
            Gate::Blocked("app.batch_unsaved")
        } else if !is_focused_file && (self.pending_save || self.save_in_progress) {
            Gate::SaveFirst
        } else {
            Gate::Proceed
        }
    }

    /// Whether undo or redo may run: not while saving or while batch edits wait;
    /// after the scheduled save when there is one.
    pub fn history_gate(&self) -> (r: Gate)
        ensures
            r == if self.saving() || self.pending_batch {
                Gate::Blocked("app.undo_while_saving")
            } else if self.pending_save || self.save_in_progress {
                Gate::SaveFirst
            } else {
                Gate::Proceed
            },
    {
        if self.is_saving() || self.pending_batch {
            Gate::Blocked("app.undo_while_saving")
        } else if self.pending_save || self.save_in_progress {
            Gate::SaveFirst
        } else {
            Gate::Proceed
        }
    }

    /// What a request to close leads to: waiting while saving, the question when
    /// edits are unsaved, else closing.
    pub fn close_step(&self) -> (r: CloseStep)
        ensures
            r == if self.saving() {
                CloseStep::Wait("app.saving_before_close")
            } else if self.unsaved() {
                CloseStep::Ask
            } else {
                CloseStep::Close
            },
    {
        if self.is_saving() {
            CloseStep::Wait("app.saving_before_close")
        } else if self.has_pending_save() {
            CloseStep::Ask
        } else {
            CloseStep::Close
        }
    }
}

/// What happens when the save of the focused file is due.
#[derive(Debug, Clone, Copy, PartialEq, Eq, Structural)]
pub enum SaveStart {
    /// Nothing: a save is running or none is scheduled.
    Unchanged,
    /// The draft has an invalid field: the save stays scheduled, the status bar
    /// says why, and closing is called off.
    Invalid,
    /// The scheduled save is dropped: no file is focused, no directory is open,
    /// or the save was for another file.
    Dropped,
    /// The save starts.
    Start,
}

/// What happens when the save of the focused file is due (see [`SaveStart`]);
/// `pending_path` is the file of the scheduled save, if one is scheduled.
pub fn start_save(
    in_progress: bool,
    pending_path: Option<&str>,
    draft: &TagDraft,
    focused_path: Option<&str>,
    has_root: bool,
) -> (r: SaveStart)
    ensures
        r == if in_progress || pending_path is None {
            SaveStart::Unchanged
        } else if !draft@.is_valid() {
            SaveStart::Invalid
        } else if focused_path is None || !has_root || str_view(pending_path) != str_view(focused_path) {
            SaveStart::Dropped
        } else {
            SaveStart::Start
        },
{
    if in_progress {
        return SaveStart::Unchanged;
    }
    let pending = match pending_path {
        Some(p) => p,
        None => return SaveStart::Unchanged,
    };
    if !draft.is_valid() {
        return SaveStart::Invalid;
    }
    let focused = match focused_path {
        Some(p) => p,
        None => return SaveStart::Dropped,
    };
    if !has_root || !str_equals(pending, focused) {
        return SaveStart::Dropped;
    }
    SaveStart::Start
}

/// What happens when the batch edits are due to be saved.
#[derive(Debug, Clone)]
pub enum BatchSaveStart {
    /// Nothing: a batch save is running or no edits wait; the edits stay as they were.
    Unchanged(Option<PendingBatchSave>),
    /// The edits are dropped: they change nothing, cover fewer than two files, or
    /// no directory is open.
    Dropped,
    /// A staged value is invalid: the edits wait on, the status bar says why, and
    /// closing is called off.
    Invalid(PendingBatchSave),
    /// The save of these edits starts.
    Start(PendingBatchSave),
}

/// What happens when the batch edits are due to be saved (see [`BatchSaveStart`]).
pub fn start_batch_save(pending: Option<PendingBatchSave>, in_progress: bool, has_root: bool) -> (r: BatchSaveStart)
    requires
        pending matches Some(p) ==> p.well_formed(),
    ensures
        in_progress ==> (r matches BatchSaveStart::Unchanged(q) && q == pending),
        !in_progress ==> match pending {
            None => r matches BatchSaveStart::Unchanged(q) && q is None,
            Some(p) => {
                let unchanged = p.staged().dom().len() == 0 && p.cover is None;
                let invalid = exists|field: TagField| #[trigger] p.staged().contains_key(field) && field_issue(field, p.staged()[field]) is Some;
                if unchanged || p.paths@.len() < 2 {
                    r is Dropped
                } else if invalid {
                    r matches BatchSaveStart::Invalid(q) && q == p
                } else if !has_root {
                    r is Dropped
                } else {
                    r matches BatchSaveStart::Start(q) && q == p
                }
            },
        },
{
    if in_progress {
        return BatchSaveStart::Unchanged(pending);
    }
    let batch = match pending {
        Some(p) => p,
        None => return BatchSaveStart::Unchanged(None),
    };
    if batch.is_empty() || batch.paths.len() < 2 {
        return BatchSaveStart::Dropped;
    }
    if batch.has_invalid_field() {
        return BatchSaveStart::Invalid(batch);
    }
    if !has_root {
        return BatchSaveStart::Dropped;
    }
    BatchSaveStart::Start(batch)
}

/// What follows a successful save of the focused file.
#[derive(Debug, Clone, Copy, PartialEq, Eq, Structural)]
pub enum AfterSave {
    /// Another save was scheduled meanwhile: it runs.
    SaveAgain,
    /// The window was closing: it closes.
    FinishClose,
    /// The request that waited for the save goes ahead.
    ResumeRequest,
}

/// What follows a successful save of the focused file.
pub fn after_save(pending_save: bool, quitting: bool) -> (r: AfterSave)
    ensures
        r == if pending_save {
            AfterSave::SaveAgain
        } else if quitting {
            AfterSave::FinishClose
        } else {
            AfterSave::ResumeRequest
        },
{
    if pending_save {
        AfterSave::SaveAgain
    } else if quitting {
        AfterSave::FinishClose
    } else {
        AfterSave::ResumeRequest
    }
}

} // verus!
