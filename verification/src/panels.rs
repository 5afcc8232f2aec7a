//! What the tag form and the inspector panel show: plain values computed from the
//! selection and the draft, which the window only has to display.

use vstd::prelude::*;

use crate::i18n::{pair_views, tr, translated, Localization};
use crate::models::audio_file::AudioFile;
use crate::models::tag_draft::{field_issue, issue_key, CoverDraft, CoverView, TagDraft, TagField, ValidationIssue};

verus! {

/// What the tag form shows.
#[derive(Debug, Clone)]
pub struct FormState {
    /// The draft whose values fill the entries.
    pub draft: TagDraft,
    /// The fields whose values differ between the selected files.
    pub mixed_fields: Vec<TagField>,
    pub visible: bool,
    pub is_sensitive: bool,
    pub is_batch_editing: bool,
}

/// The translation key of the placeholder of a field whose values differ.
pub open spec fn multiple_values_key() -> Seq<char> {
    seq!['f', 'o', 'r', 'm', '.', 'm', 'u', 'l', 't', 'i', 'p', 'l', 'e', '_', 'v', 'a', 'l', 'u', 'e', 's']
}

fn has_field(fields: &[TagField], field: TagField) -> (r: bool)
    ensures
        r == fields@.contains(field),
{
    let mut i: usize = 0;
    while i < fields.len()
        invariant
            i <= fields@.len(),
            forall|j: int| 0 <= j < i ==> fields@[j] != field,
        decreases fields@.len() - i,
    {
        if fields[i] == field {
            assert(fields@[i as int] == field);
            return true;
        }
        i = i + 1;
    }
    false
}

fn issue_key_of(issue: ValidationIssue) -> (r: &'static str)
    ensures
        r == issue_key(issue),
{
    match issue {
        ValidationIssue::TooLong => "validation.too_long",
        ValidationIssue::InvalidYear => "validation.year",
        ValidationIssue::ZeroNumber => "validation.positive",
        ValidationIssue::NumberOutOfRange => "validation.number",
    }
}

impl FormState {
    /// The form for a draft, with the fields whose values differ.
    pub fn from_draft(
        draft: &TagDraft,
        mixed_fields: &[TagField],
        visible: bool,
        is_sensitive: bool,
        is_batch_editing: bool,
    ) -> (r: FormState)
        ensures
            r.draft@ == draft@,
            r.mixed_fields@ == mixed_fields@,
            r.visible == visible,
            r.is_sensitive == is_sensitive,
            r.is_batch_editing == is_batch_editing,
    {
        let mut fields: Vec<TagField> = Vec::new();
        let mut i: usize = 0;
        while i < mixed_fields.len()
            invariant
                i <= mixed_fields@.len(),
                fields@ == mixed_fields@.take(i as int),
            decreases mixed_fields@.len() - i,
        {
            fields.push(mixed_fields[i]);
            i = i + 1;
            assert(fields@ =~= mixed_fields@.take(i as int));
        }
        assert(mixed_fields@.take(mixed_fields@.len() as int) =~= mixed_fields@);
        FormState {
            draft: draft.duplicate(),
            mixed_fields: fields,
            visible,
            is_sensitive,
            is_batch_editing,
        }
    }

    /// The placeholder of a field's entry: "multiple values" where the selected
    /// files differ in it, else nothing.
    pub fn placeholder(&self, localization: &Localization, field: TagField) -> (r: String)
        ensures
            r@ == if self.mixed_fields@.contains(field) {
                translated(pair_views(localization.translations@), multiple_values_key())
            } else {
                Seq::<char>::empty()
            },
    {
        if has_field(&self.mixed_fields, field) {
            let key = "form.multiple_values";
            proof {
                reveal_strlit("form.multiple_values");
            }
            assert(key@ =~= multiple_values_key());
            tr(localization, key)
        } else {
            String::new()
        }
    }

    /// The text of a field.
    pub fn value(&self, field: TagField) -> (r: &str)
        ensures
            r@ == self.draft@.field(field),
    {
        self.draft.value(field)
    }

    /// The message under a field's entry: the translation of its issue's key, or
    /// `None` when its value is valid.
    pub fn validation_error(&self, localization: &Localization, field: TagField) -> (r: Option<String>)
        ensures
            match field_issue(field, self.draft@.field(field)) {
                Some(issue) => r is Some && r->0@ == translated(pair_views(localization.translations@), issue_key(issue)@),
                None => r is None,
            },
    {
        match self.draft.validation_issue(field) {
            Some(issue) => Some(tr(localization, issue_key_of(issue))),
            None => None,
        }
    }
}

/// What the inspector panel shows.
#[derive(Debug, Clone)]
pub struct InspectorState {
    pub has_selection: bool,
    pub is_sensitive: bool,
    pub container: String,
    pub codec: String,
    pub duration: String,
    pub bitrate: String,
    pub sample_rate: String,
    pub channels: String,
    pub bits_per_sample: String,
    pub file_size: String,
    pub cover: CoverDraft,
    pub cover_hint: String,
}

/// The text shown for a fact that is not known.
pub open spec fn unknown_text() -> Seq<char> {
    seq!['—']
}

/// A fact's text, or the unknown text when there is none.
pub open spec fn known_or_unknown(value: Option<String>) -> Seq<char> {
    match value {
        Some(text) => text@,
        None => unknown_text(),
    }
}

/// The translation key of the hint shown when no file is selected.
pub open spec fn no_cover_key() -> Seq<char> {
    seq!['i', 'n', 's', 'p', 'e', 'c', 't', 'o', 'r', '.', 'n', 'o', '_', 'c', 'o', 'v', 'e', 'r']
}

/// Whether every stream fact of a state is the unknown text.
pub open spec fn facts_unknown(state: InspectorState) -> bool {
    &&& state.container@ == unknown_text()
    &&& state.codec@ == unknown_text()
    &&& state.duration@ == unknown_text()
    &&& state.bitrate@ == unknown_text()
    &&& state.sample_rate@ == unknown_text()
    &&& state.channels@ == unknown_text()
    &&& state.bits_per_sample@ == unknown_text()
    &&& state.file_size@ == unknown_text()
}

fn unknown() -> (r: String)
    ensures
        r@ == unknown_text(),
{
    let text = "—";
    proof {
        reveal_strlit("—");
    }
    assert(text@ =~= unknown_text());
    text.to_owned()
}

fn known_or_unknown_text(value: &Option<String>) -> (r: String)
    ensures
        r@ == known_or_unknown(*value),
{
    match value {
        Some(text) => text.clone(),
        None => unknown(),
    }
}

impl InspectorState {
    /// The panel with nothing selected: every fact unknown, no cover, and the
    /// "no cover" hint.
    pub fn empty(localization: &Localization) -> (r: InspectorState)
        ensures
            !r.has_selection,
            !r.is_sensitive,
            facts_unknown(r),
            r.cover@ == CoverView::Unavailable,
            r.cover_hint@ == translated(pair_views(localization.translations@), no_cover_key()),
    {
        let key = "inspector.no_cover";
        proof {
            reveal_strlit("inspector.no_cover");
        }
        assert(key@ =~= no_cover_key());
        InspectorState::with_hint(tr(localization, key))
    }

    fn with_hint(cover_hint: String) -> (r: InspectorState)
        ensures
            !r.has_selection,
            !r.is_sensitive,
            facts_unknown(r),
            r.cover@ == CoverView::Unavailable,
            r.cover_hint@ == cover_hint@,
    {
        InspectorState {
            has_selection: false,
            is_sensitive: false,
            container: unknown(),
            codec: unknown(),
            duration: unknown(),
            bitrate: unknown(),
            sample_rate: unknown(),
            channels: unknown(),
            bits_per_sample: unknown(),
            file_size: unknown(),
            cover: CoverDraft::Unavailable,
            cover_hint,
        }
    }

    /// The panel for the focused file, if any: its stream facts (unknown where
    /// missing), the draft's cover and the given hint. With no file, the empty
    /// panel with the given hint.
    pub fn from_selection(
        file: Option<&AudioFile>,
        draft: &TagDraft,
        cover_hint: String,
        is_sensitive: bool,
    ) -> (r: InspectorState)
        ensures
            r.cover_hint@ == cover_hint@,
            match file {
                None => {
                    &&& !r.has_selection
                    &&& !r.is_sensitive
                    &&& facts_unknown(r)
                    &&& r.cover@ == CoverView::Unavailable
                },
                Some(file) => {
                    &&& r.has_selection
                    &&& r.is_sensitive == is_sensitive
                    &&& r.container@ == file.metadata.container@
                    &&& r.codec@ == file.metadata.codec@
                    &&& r.duration@ == known_or_unknown(file.metadata.duration)
                    &&& r.bitrate@ == known_or_unknown(file.metadata.bitrate)
                    &&& r.sample_rate@ == known_or_unknown(file.metadata.sample_rate)
                    &&& r.channels@ == known_or_unknown(file.metadata.channels)
                    &&& r.bits_per_sample@ == known_or_unknown(file.metadata.bits_per_sample)
                    &&& r.file_size@ == known_or_unknown(file.metadata.file_size)
                    &&& r.cover@ == draft@.cover
                },
            },
    {
        match file {
            None => InspectorState::with_hint(cover_hint),
            Some(file) => {
                let metadata = &file.metadata;
                InspectorState {
                    has_selection: true,
                    is_sensitive,
                    container: metadata.container.clone(),
                    codec: metadata.codec.clone(),
                    duration: known_or_unknown_text(&metadata.duration),
                    bitrate: known_or_unknown_text(&metadata.bitrate),
                    sample_rate: known_or_unknown_text(&metadata.sample_rate),
                    channels: known_or_unknown_text(&metadata.channels),
                    bits_per_sample: known_or_unknown_text(&metadata.bits_per_sample),
                    file_size: known_or_unknown_text(&metadata.file_size),
                    cover: draft.cover.duplicate(),
                    cover_hint,
                }
            },
        }
    }
}

/// Which side panels of the window are shown, the file tree on the left and the
/// inspector on the right, and whether a file is selected. The inspector is
/// shown only while a file is selected: every value keeps that.
#[derive(Debug, Clone, Copy, PartialEq, Eq)]
pub struct PanelVisibility {
    sidebar: bool,
    inspector: bool,
    selection: bool,
}

/// The mathematical value of [`PanelVisibility`].
pub struct PanelsView {
    pub sidebar: bool,
    pub inspector: bool,
    pub has_selection: bool,
}

impl View for PanelVisibility {
    type V = PanelsView;

    closed spec fn view(&self) -> PanelsView {
        PanelsView { sidebar: self.sidebar, inspector: self.inspector, has_selection: self.selection }
    }
}

/// Whether the inspector is shown only with a selection.
pub open spec fn inspector_needs_selection(panels: PanelsView) -> bool {
    panels.inspector ==> panels.has_selection
}

/// The panels with the file tree shown or hidden.
pub open spec fn sidebar_set(panels: PanelsView, visible: bool) -> PanelsView {
    PanelsView { sidebar: visible, ..panels }
}

/// The panels with the inspector shown (while a file is selected) or hidden.
pub open spec fn inspector_set(panels: PanelsView, visible: bool) -> PanelsView {
    PanelsView { inspector: visible && panels.has_selection, ..panels }
}

/// The panels with the file tree flipped.
pub open spec fn sidebar_toggled(panels: PanelsView) -> PanelsView {
    PanelsView { sidebar: !panels.sidebar, ..panels }
}

/// The panels with the inspector flipped while a file is selected, else unchanged.
pub open spec fn inspector_toggled(panels: PanelsView) -> PanelsView {
    if panels.has_selection {
        PanelsView { inspector: !panels.inspector, ..panels }
    } else {
        panels
    }
}

/// The panels once a file is selected.
pub open spec fn with_selection(panels: PanelsView) -> PanelsView {
    PanelsView { has_selection: true, ..panels }
}

/// The panels once the selection is cleared: the inspector is hidden.
pub open spec fn without_selection(panels: PanelsView) -> PanelsView {
    PanelsView { inspector: false, has_selection: false, ..panels }
}

impl PanelVisibility {
    #[verifier::type_invariant]
    spec fn shown_only_with_selection(self) -> bool {
        self.inspector ==> self.selection
    }

    /// Both panels hidden and nothing selected, as the window starts.
    pub fn hidden() -> (r: PanelVisibility)
        ensures
            r@ == (PanelsView { sidebar: false, inspector: false, has_selection: false }),
    {
        PanelVisibility { sidebar: false, inspector: false, selection: false }
    }

    /// Whether the file tree is shown.
    pub fn sidebar(&self) -> (r: bool)
        ensures
            r == self@.sidebar,
    {
        self.sidebar
    }

    /// Whether the inspector is shown; only while a file is selected.
    pub fn inspector(&self) -> (r: bool)
        ensures
            r == self@.inspector,
            r ==> self@.has_selection,
    {
        proof {
            use_type_invariant(self);
        }
        self.inspector
    }

    /// Whether a file is selected.
    pub fn has_selection(&self) -> (r: bool)
        ensures
            r == self@.has_selection,
    {
        self.selection
    }

    /// Shows or hides the file tree.
    pub fn set_sidebar(&mut self, visible: bool)
        ensures
            final(self)@ == sidebar_set(old(self)@, visible),
    {
        proof {
            use_type_invariant(&*self);
        }
        self.sidebar = visible;
    }

    /// Shows or hides the inspector; it stays hidden while no file is selected.
    pub fn set_inspector(&mut self, visible: bool)
        ensures
            final(self)@ == inspector_set(old(self)@, visible),
    {
        self.inspector = visible && self.selection;
    }

    /// Flips the file tree between shown and hidden.
    pub fn toggle_sidebar(&mut self)
        ensures
            final(self)@ == sidebar_toggled(old(self)@),
    {
        proof {
            use_type_invariant(&*self);
        }
        self.sidebar = !self.sidebar;
    }

    /// Flips the inspector between shown and hidden while a file is selected;
    /// without a selection nothing changes.
    pub fn toggle_inspector(&mut self)
        ensures
            final(self)@ == inspector_toggled(old(self)@),
    {
        proof {
            use_type_invariant(&*self);
        }
        if self.selection {
            self.inspector = !self.inspector;
        }
    }

    /// Notes that a file is selected.
    pub fn file_selected(&mut self)
        ensures
            final(self)@ == with_selection(old(self)@),
    {
        proof {
            use_type_invariant(&*self);
        }
        self.selection = true;
    }

    /// Notes that the selection was cleared, which hides the inspector.
    pub fn selection_cleared(&mut self)
        ensures
            final(self)@ == without_selection(old(self)@),
    {
        self.inspector = false;
        self.selection = false;
    }
}

/// Whatever happens to the panels, the inspector is shown only while a file is
/// selected: each step keeps it.
pub proof fn every_step_keeps_the_inspector_with_a_selection(panels: PanelsView, visible: bool)
    requires
        inspector_needs_selection(panels),
    ensures
        inspector_needs_selection(sidebar_set(panels, visible)),
        inspector_needs_selection(inspector_set(panels, visible)),
        inspector_needs_selection(sidebar_toggled(panels)),
        inspector_needs_selection(inspector_toggled(panels)),
        inspector_needs_selection(with_selection(panels)),
        inspector_needs_selection(without_selection(panels)),
        inspector_set(panels, visible).inspector == (visible && panels.has_selection),
        !panels.has_selection ==> inspector_toggled(panels) == panels,
{
}

/// Toggling a panel twice leaves the panels as they were, and toggling one panel
/// never changes the other.
pub proof fn toggling_twice_restores_the_panels(start: PanelsView)
    ensures
        sidebar_toggled(sidebar_toggled(start)) == start,
        inspector_toggled(inspector_toggled(start)) == start,
        sidebar_toggled(start).inspector == start.inspector,
        inspector_toggled(start).sidebar == start.sidebar,
{
}

} // verus!
