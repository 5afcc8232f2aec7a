use std::collections::BTreeSet;

use sleeve::i18n::{Language, Localization};
use sleeve::models::file_tree::{FileTreeNode, TreeRow};
use sleeve::models::tag_draft::{CoverDraft, TagDraft, TagField};
use sleeve::session::{
    after_save, close_action_of, cover_hint, descendant_count, focus_after_selection, header_title,
    initial_expanded_paths, next_selection, path_position, selected_rows, selection_changes,
    selection_summary, stage_batch_cover, stage_batch_field, start_batch_save, start_save,
    toggle_directory, toggle_expanded, AfterSave, BatchSaveStart, CloseAction, CloseStep, FocusChange, Gate,
    PendingBatchSave, RowsChange, SaveActivity, SaveStart, SaveState,
};

fn strings(values: &[&str]) -> Vec<String> {
    values.iter().map(|value| value.to_string()).collect()
}

fn set(values: &[String]) -> BTreeSet<String> {
    values.iter().cloned().collect()
}

fn row(path: &str, depth: usize, is_directory: bool) -> TreeRow {
    TreeRow {
        name: path.rsplit('/').next().unwrap_or(path).into(),
        path: path.into(),
        depth,
        is_directory,
        is_album: false,
        album_cover: None,
        expanded: is_directory,
    }
}

fn rows() -> Vec<TreeRow> {
    vec![
        row("music/album", 0, true),
        row("music/album/a.flac", 1, false),
        row("music/album/b.flac", 1, false),
        row("music/album/c.flac", 1, false),
        row("music/other.flac", 0, false),
    ]
}

#[test]
fn canceling_close_keeps_pending_changes() {
    let pending = PendingBatchSave {
        paths: vec!["track.flac".to_string()],
        fields: vec![(TagField::Artist, "Changed".into())],
        cover: None,
    };

    assert!(!pending.is_empty());
}

#[test]
fn staging_replaces_earlier_values_and_applies_over_a_draft() {
    let selected = strings(&["a.flac", "b.flac"]);
    let pending = stage_batch_field(None, &selected, TagField::Artist, "First".into());
    assert_eq!(pending.paths, selected);
    let pending = stage_batch_field(Some(pending), &selected, TagField::Artist, "Second".into());
    let pending = stage_batch_field(Some(pending), &selected, TagField::Year, "2020".into());
    assert_eq!(pending.fields.len(), 2);
    assert!(!pending.is_empty());
    let pending = stage_batch_cover(Some(pending), &selected, CoverDraft::Removed);
    let draft = TagDraft { title: "Keep".into(), artist: "Old".into(), ..Default::default() };
    let applied = pending.apply_to(draft);
    assert_eq!(applied.title, "Keep");
    assert_eq!(applied.artist, "Second");
    assert_eq!(applied.year, "2020");
    assert_eq!(applied.cover, CoverDraft::Removed);
    assert!(PendingBatchSave::new(selected.clone()).is_empty());
    assert!(!stage_batch_cover(None, &selected, CoverDraft::Removed).is_empty());
}

#[test]
fn batch_saves_start_only_with_valid_edits_for_several_files() {
    let selected = strings(&["a.flac", "b.flac"]);
    let valid = stage_batch_field(None, &selected, TagField::Genre, "Jazz".into());
    assert!(matches!(start_batch_save(Some(valid.clone()), false, true), BatchSaveStart::Start(_)));
    assert!(matches!(start_batch_save(Some(valid.clone()), false, false), BatchSaveStart::Dropped));
    assert!(matches!(start_batch_save(Some(valid.clone()), true, true), BatchSaveStart::Unchanged(Some(_))));
    assert!(matches!(start_batch_save(None, false, true), BatchSaveStart::Unchanged(None)));
    let invalid = stage_batch_field(Some(valid), &selected, TagField::Year, "99".into());
    assert!(invalid.has_invalid_field());
    assert!(matches!(start_batch_save(Some(invalid), false, true), BatchSaveStart::Invalid(_)));
    let single = stage_batch_field(None, &strings(&["a.flac"]), TagField::Genre, "Jazz".into());
    assert!(matches!(start_batch_save(Some(single), false, true), BatchSaveStart::Dropped));
    let nothing = PendingBatchSave::new(selected);
    assert!(matches!(start_batch_save(Some(nothing), false, true), BatchSaveStart::Dropped));
}

#[test]
fn the_title_shows_trimmed_artist_and_title() {
    let draft = TagDraft { artist: "  Artist ".into(), title: "\tSong\n".into(), ..Default::default() };
    assert_eq!(header_title(true, &draft), "Sleeve · Artist · Song");
    assert_eq!(header_title(false, &draft), "Sleeve");
    let only_title = TagDraft { title: "Song".into(), artist: "   ".into(), ..Default::default() };
    assert_eq!(header_title(true, &only_title), "Sleeve · Song");
    let only_artist = TagDraft { artist: "Artist".into(), ..Default::default() };
    assert_eq!(header_title(true, &only_artist), "Sleeve · Artist");
    assert_eq!(header_title(true, &TagDraft::default()), "Sleeve");
    let wide = TagDraft { title: "\u{3000}歌\u{3000}".into(), ..Default::default() };
    assert_eq!(header_title(true, &wide), "Sleeve · 歌");
}

#[test]
fn cover_hints_follow_the_cover_and_errors() {
    let localization = Localization::default();
    assert_eq!(cover_hint(&localization, true, true, Some("bad"), &CoverDraft::Removed), "cover.mixed_hint");
    assert_eq!(cover_hint(&localization, false, true, Some("bad"), &CoverDraft::Removed), "bad");
    assert_eq!(cover_hint(&localization, false, false, None, &CoverDraft::Removed), "cover.removed_hint");
    assert_eq!(
        cover_hint(&localization, true, false, None, &CoverDraft::External("x.png".into())),
        "cover.external_hint"
    );
    assert_eq!(cover_hint(&localization, false, false, None, &CoverDraft::Embedded(vec![])), "cover.embedded_hint");
    assert_eq!(cover_hint(&localization, false, false, None, &CoverDraft::Unavailable), "cover.unavailable_hint");
}

#[test]
fn the_summary_names_the_file_or_counts_the_selection() {
    let localization = Localization::init(
        Language::En,
        Some(r#"{"app.selected_files": "{count} files selected", "app.no_file_selected": "No file"}"#.to_string()),
    );
    assert_eq!(selection_summary(&localization, 0, Some("a.flac")), "No file");
    assert_eq!(selection_summary(&localization, 1, Some("album/a.flac")), "album/a.flac");
    assert_eq!(selection_summary(&localization, 1, None), "No file");
    assert_eq!(selection_summary(&localization, 12, None), "12 files selected");
}

#[test]
fn clicks_select_toggle_and_extend() {
    let rows = rows();
    let none: Vec<String> = Vec::new();
    let plain = next_selection(&rows, &strings(&["music/other.flac"]), None, "music/album/a.flac", false, false);
    assert_eq!(set(&plain), set(&strings(&["music/album/a.flac"])));

    let added = next_selection(&rows, &plain, Some("music/album/a.flac"), "music/album/c.flac", false, true);
    assert_eq!(set(&added), set(&strings(&["music/album/a.flac", "music/album/c.flac"])));
    let removed = next_selection(&rows, &added, Some("music/album/c.flac"), "music/album/c.flac", false, true);
    assert_eq!(set(&removed), set(&plain));

    let range = next_selection(&rows, &strings(&["music/other.flac"]), Some("music/album/a.flac"), "music/album/c.flac", true, false);
    assert_eq!(set(&range), set(&strings(&["music/album/a.flac", "music/album/b.flac", "music/album/c.flac"])));
    let extended = next_selection(&rows, &strings(&["music/other.flac"]), Some("music/album/c.flac"), "music/album/b.flac", true, true);
    assert_eq!(set(&extended), set(&strings(&["music/other.flac", "music/album/b.flac", "music/album/c.flac"])));
    let from_nothing = next_selection(&rows, &none, None, "music/album/b.flac", true, false);
    assert_eq!(from_nothing, strings(&["music/album/b.flac"]));
}

#[test]
fn deselecting_the_focused_file_moves_the_focus() {
    let rows = rows();
    let selected = strings(&["music/other.flac", "music/album/c.flac"]);
    assert_eq!(
        focus_after_selection(&rows, &selected, "music/album/c.flac", None),
        FocusChange::Focus("music/album/c.flac".into())
    );
    assert_eq!(
        focus_after_selection(&rows, &selected, "music/album/a.flac", Some("music/album/a.flac")),
        FocusChange::Focus("music/album/c.flac".into())
    );
    assert_eq!(focus_after_selection(&rows, &selected, "music/album/a.flac", Some("music/album/b.flac")), FocusChange::Keep);
    assert_eq!(focus_after_selection(&rows, &[], "music/album/a.flac", Some("music/album/a.flac")), FocusChange::Clear);
}

#[test]
fn directories_expand_and_collapse() {
    let mut expanded = strings(&["music", "music/album"]);
    toggle_expanded(&mut expanded, "music/album");
    assert_eq!(expanded, strings(&["music"]));
    toggle_expanded(&mut expanded, "music/album");
    assert_eq!(expanded, strings(&["music", "music/album"]));
    assert_eq!(path_position(&expanded, "music/album"), Some(1));
    assert_eq!(path_position(&expanded, "music/none"), None);
}

#[test]
fn descendants_are_the_deeper_rows_that_follow() {
    let rows = rows();
    assert_eq!(descendant_count(&rows, 0), 3);
    assert_eq!(descendant_count(&rows, 1), 0);
    assert_eq!(descendant_count(&rows, 4), 0);
}

#[test]
fn rows_are_marked_by_the_selection() {
    let rows = rows();
    let selected = strings(&["music/album", "music/album/b.flac"]);
    assert_eq!(selected_rows(&rows, &selected), vec![false, false, true, false, false]);
    let paths: Vec<String> = rows.iter().map(|row| row.path.clone()).collect();
    let changes = selection_changes(&paths, &strings(&["music/album/a.flac", "music/album/b.flac"]), &strings(&["music/album/b.flac", "music/other.flac"]));
    assert_eq!(changes, vec![(1, false), (4, true)]);
}

#[test]
fn a_scan_expands_the_albums_and_the_root() {
    let tree = FileTreeNode::directory_with_album_cover(
        "music".to_string(),
        vec![
            FileTreeNode::directory_with_album_cover(
                "music/album".to_string(),
                vec![FileTreeNode::audio("music/album/a.flac".to_string())],
                true,
                None,
            ),
            FileTreeNode::audio("music/loose.flac".to_string()),
        ],
        false,
        None,
    );
    assert_eq!(initial_expanded_paths(&tree, "music"), strings(&["music/album", "music"]));
    assert_eq!(initial_expanded_paths(&tree, "music/album"), strings(&["music/album"]));
}

#[test]
fn requests_wait_for_saves() {
    let idle = SaveActivity {
        pending_save: false,
        save_in_progress: false,
        batch_save_in_progress: false,
        pending_batch: false,
        pending_batch_has_edits: false,
    };
    assert_eq!(idle.directory_gate(), Gate::Proceed);
    assert_eq!(idle.close_step(), CloseStep::Close);
    let scheduled = SaveActivity { pending_save: true, ..idle };
    assert_eq!(scheduled.directory_gate(), Gate::SaveFirst);
    assert_eq!(scheduled.selection_gate(true), Gate::Proceed);
    assert_eq!(scheduled.selection_gate(false), Gate::SaveFirst);
    assert_eq!(scheduled.history_gate(), Gate::SaveFirst);
    assert_eq!(scheduled.close_step(), CloseStep::Ask);
    let saving = SaveActivity { batch_save_in_progress: true, ..idle };
    assert_eq!(saving.directory_gate(), Gate::Blocked("app.saving_before_switch"));
    assert_eq!(saving.selection_gate(true), Gate::Blocked("app.saving_before_select"));
    assert_eq!(saving.history_gate(), Gate::Blocked("app.undo_while_saving"));
    assert_eq!(saving.close_step(), CloseStep::Wait("app.saving_before_close"));
    let batch = SaveActivity { pending_batch: true, ..idle };
    assert_eq!(batch.directory_gate(), Gate::Blocked("app.batch_unsaved"));
    assert_eq!(batch.selection_gate(false), Gate::Blocked("app.batch_unsaved"));
    assert_eq!(batch.history_gate(), Gate::Blocked("app.undo_while_saving"));
    assert_eq!(batch.close_step(), CloseStep::Close);
    assert_eq!(SaveActivity { pending_batch_has_edits: true, ..batch }.close_step(), CloseStep::Ask);
}

#[test]
fn saves_start_only_for_the_focused_file_with_a_valid_draft() {
    let valid = TagDraft { year: "2024".into(), ..Default::default() };
    let invalid = TagDraft { year: "24".into(), ..Default::default() };
    assert_eq!(start_save(false, Some("a.flac"), &valid, Some("a.flac"), true), SaveStart::Start);
    assert_eq!(start_save(true, Some("a.flac"), &valid, Some("a.flac"), true), SaveStart::Unchanged);
    assert_eq!(start_save(false, None, &valid, Some("a.flac"), true), SaveStart::Unchanged);
    assert_eq!(start_save(false, Some("a.flac"), &invalid, Some("a.flac"), true), SaveStart::Invalid);
    assert_eq!(start_save(false, Some("a.flac"), &valid, Some("b.flac"), true), SaveStart::Dropped);
    assert_eq!(start_save(false, Some("a.flac"), &valid, None, true), SaveStart::Dropped);
    assert_eq!(start_save(false, Some("a.flac"), &valid, Some("a.flac"), false), SaveStart::Dropped);
    assert_eq!(after_save(true, true), AfterSave::SaveAgain);
    assert_eq!(after_save(false, true), AfterSave::FinishClose);
    assert_eq!(after_save(false, false), AfterSave::ResumeRequest);
}

#[test]
fn close_dialog_responses_map_to_actions() {
    assert_eq!(close_action_of("discard"), CloseAction::Discard);
    assert_eq!(close_action_of("save"), CloseAction::Save);
    assert_eq!(close_action_of("cancel"), CloseAction::Cancel);
    assert_eq!(close_action_of(""), CloseAction::Cancel);
}

#[test]
fn a_failed_save_is_scheduled_again_and_stops_closing() {
    let mut saves: SaveState<&str> = SaveState::idle();
    assert!(!saves.activity().has_pending_save());
    saves.save_in_progress = true;
    saves.quitting = true;
    saves.save_failed("timer");
    assert_eq!(saves.pending_save, Some("timer"));
    assert!(!saves.save_in_progress && !saves.quitting);
    assert!(saves.activity().has_pending_save());
    saves.batch_save_in_progress = true;
    saves.quitting = true;
    let pending = PendingBatchSave { paths: vec!["a.mp3".to_string()], fields: vec![], cover: Some(CoverDraft::Removed) };
    saves.batch_save_failed(pending);
    assert!(!saves.batch_save_in_progress && !saves.quitting);
    assert!(saves.activity().pending_batch_has_edits);
    assert_eq!(saves.pending_save, Some("timer"));
}

fn apply(shown: &[TreeRow], change: RowsChange) -> Vec<TreeRow> {
    match change {
        RowsChange::Unchanged => shown.to_vec(),
        RowsChange::Replace(rows) => rows,
        RowsChange::Splice { index, removed, inserted, expanded, rows } => {
            let mut out = shown[..index].to_vec();
            let mut row = shown[index].clone();
            row.expanded = expanded;
            out.push(row);
            out.extend_from_slice(&rows[index + 1..index + 1 + inserted]);
            out.extend_from_slice(&shown[index + 1 + removed..]);
            out
        }
    }
}

#[test]
fn clicking_a_directory_changes_only_its_rows() {
    let tree = FileTreeNode::directory_with_album_cover(
        "music".to_string(),
        vec![
            FileTreeNode::directory_with_album_cover(
                "music/a".to_string(),
                vec![FileTreeNode::audio("music/a/1.mp3".to_string()), FileTreeNode::audio("music/a/2.mp3".to_string())],
                false,
                None,
            ),
            FileTreeNode::directory_with_album_cover(
                "music/b".to_string(),
                vec![FileTreeNode::audio("music/b/3.mp3".to_string()), FileTreeNode::audio("music/b/4.mp3".to_string())],
                false,
                None,
            ),
        ],
        false,
        None,
    );
    let mut expanded = strings(&["music/b"]);
    let shown = tree.flatten(&expanded);
    let change = toggle_directory(&tree, &mut expanded, "music/a");
    assert!(matches!(change, RowsChange::Splice { index: 0, removed: 0, inserted: 2, expanded: true, .. }));
    assert_eq!(expanded, strings(&["music/b", "music/a"]));
    let shown = apply(&shown, change);
    assert_eq!(shown, tree.flatten(&expanded));
    let change = toggle_directory(&tree, &mut expanded, "music/b/");
    assert!(matches!(change, RowsChange::Splice { index: 3, removed: 2, inserted: 0, expanded: false, .. }));
    let shown = apply(&shown, change);
    assert_eq!(shown, tree.flatten(&expanded));
    assert!(matches!(toggle_directory(&tree, &mut expanded, "music/c"), RowsChange::Unchanged));
    assert_eq!(expanded, strings(&["music/a"]));
}
