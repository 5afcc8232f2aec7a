use std::sync::Arc;

use sleeve::models::file_tree::{audio_paths_between, position_of, FileTreeNode, TreeRow};

#[test]
fn collapses_single_directory_chains() {
    let root = FileTreeNode::directory_with_album_cover(
        "music".to_string(),
        vec![FileTreeNode::directory_with_album_cover(
            "music/artist".to_string(),
            vec![FileTreeNode::directory_with_album_cover(
                "music/artist/album".to_string(),
                vec![FileTreeNode::audio("music/artist/album/song.mp3".to_string())],
                false,
                None,
            )],
            false,
            None,
        )],
        false,
        None,
    );

    let FileTreeNode::Directory { name, path, .. } = root else {
        panic!("expected directory")
    };
    assert_eq!(name, "music/artist/album");
    assert_eq!(path, "music/artist/album");
}

#[test]
fn updates_the_nearest_album_cover_for_a_saved_file() {
    let first_cover = Arc::new(vec![1, 2, 3]);
    let replacement_cover = Arc::new(vec![4, 5, 6]);
    let song = "music/artist/album/song.mp3".to_string();
    let mut tree = FileTreeNode::directory_with_album_cover(
        "music".to_string(),
        vec![
            FileTreeNode::directory_with_album_cover(
                "music/artist".to_string(),
                vec![
                    FileTreeNode::directory_with_album_cover(
                        "music/artist/album".to_string(),
                        vec![FileTreeNode::audio(song.clone())],
                        true,
                        Some(first_cover),
                    ),
                    FileTreeNode::audio("music/artist/other.mp3".to_string()),
                ],
                false,
                None,
            ),
            FileTreeNode::audio("music/loose.mp3".to_string()),
        ],
        false,
        None,
    );

    let album_path = tree.update_album_cover_for_file(&song, Some(replacement_cover.clone()));

    assert_eq!(album_path, Some("music/artist/album".to_string()));
    let album = tree
        .flatten(&["music/artist".to_string(), "music/artist/album".to_string()])
        .into_iter()
        .find(|row| row.path == "music/artist/album")
        .expect("album row");
    assert_eq!(album.album_cover, Some(replacement_cover));
}

#[test]
fn preserves_album_cover_in_flattened_rows() {
    let cover = vec![1, 2, 3];
    let tree = FileTreeNode::directory_with_album_cover(
        "music".to_string(),
        vec![
            FileTreeNode::directory_with_album_cover(
                "music/album".to_string(),
                vec![FileTreeNode::audio("music/album/song.mp3".to_string())],
                true,
                Some(Arc::new(cover.clone())),
            ),
            FileTreeNode::audio("music/loose-song.mp3".to_string()),
        ],
        false,
        None,
    );

    assert_eq!(tree.flatten(&[])[0].album_cover, Some(Arc::new(cover)));
}

#[test]
fn collects_album_paths_from_the_final_tree() {
    let tree = FileTreeNode::directory_with_album_cover(
        "music".to_string(),
        vec![FileTreeNode::directory_with_album_cover(
            "music/album".to_string(),
            vec![FileTreeNode::audio("music/album/song.mp3".to_string())],
            true,
            None,
        )],
        false,
        None,
    );

    assert_eq!(tree.album_directory_paths(), vec!["music/album".to_string()]);
}

fn row(name: &str, path: &str, depth: usize, is_directory: bool, expanded: bool) -> TreeRow {
    TreeRow {
        name: name.into(),
        path: path.into(),
        depth,
        is_directory,
        is_album: false,
        album_cover: None,
        expanded,
    }
}

#[test]
fn selects_only_visible_audio_paths_in_an_inclusive_range() {
    let rows = vec![
        row("Album", "music/album", 0, true, true),
        row("first.flac", "music/album/first.flac", 1, false, false),
        row("second.flac", "music/album/second.flac", 1, false, false),
        row("other.flac", "music/other.flac", 0, false, false),
    ];

    assert_eq!(
        audio_paths_between(&rows, "music/album/first.flac", "music/other.flac"),
        vec![
            "music/album/first.flac".to_string(),
            "music/album/second.flac".to_string(),
            "music/other.flac".to_string(),
        ]
    );
}

#[test]
fn only_expanded_directories_expose_descendants() {
    let root = FileTreeNode::directory_with_album_cover(
        "music".to_string(),
        vec![
            FileTreeNode::directory_with_album_cover(
                "music/album".to_string(),
                vec![FileTreeNode::audio("music/album/song.mp3".to_string())],
                false,
                None,
            ),
            FileTreeNode::audio("music/loose-song.mp3".to_string()),
        ],
        false,
        None,
    );

    let collapsed_rows = root.flatten(&[]);
    assert_eq!(collapsed_rows.len(), 2);
    assert_eq!(collapsed_rows[0].name, "album");
    assert_eq!(collapsed_rows[0].depth, 0);
    assert_eq!(collapsed_rows[1].name, "loose-song.mp3");
    assert_eq!(root.flatten(&["music/album".to_string()]).len(), 3);
}

#[test]
fn range_selection_works_in_either_direction_and_needs_both_rows() {
    let rows = vec![
        row("Album", "music/album", 0, true, true),
        row("first.flac", "music/album/first.flac", 1, false, false),
        row("second.flac", "music/album/second.flac", 1, false, false),
    ];
    assert_eq!(
        audio_paths_between(&rows, "music/album/second.flac", "music/album"),
        vec!["music/album/first.flac".to_string(), "music/album/second.flac".to_string()]
    );
    assert!(audio_paths_between(&rows, "music/album/first.flac", "missing.flac").is_empty());
    assert_eq!(position_of(&rows, "music/album/second.flac"), Some(2));
    assert_eq!(position_of(&rows, "missing.flac"), None);
}

#[test]
fn a_file_outside_any_album_updates_no_cover() {
    let mut tree = FileTreeNode::directory_with_album_cover(
        "music".to_string(),
        vec![
            FileTreeNode::directory_with_album_cover(
                "music/album".to_string(),
                vec![FileTreeNode::audio("music/album/song.mp3".to_string())],
                true,
                None,
            ),
            FileTreeNode::audio("music/loose.mp3".to_string()),
        ],
        false,
        None,
    );
    assert_eq!(tree.update_album_cover_for_file("music/loose.mp3", Some(Arc::new(vec![9]))), None);
    let rows = tree.flatten(&[]);
    assert_eq!(rows[0].album_cover, None);
}

#[test]
fn audio_node_is_named_after_its_file() {
    let node = FileTreeNode::audio("music/album/song.mp3".to_string());
    assert_eq!(node.path(), "music/album/song.mp3");
    let FileTreeNode::AudioFile { name, .. } = node else {
        panic!("expected audio file")
    };
    assert_eq!(name, "song.mp3");
}

#[test]
fn expanded_paths_match_by_component_not_by_spelling() {
    let tree = FileTreeNode::directory_with_album_cover(
        "music".to_string(),
        vec![
            FileTreeNode::directory_with_album_cover(
                "music/album".to_string(),
                vec![FileTreeNode::audio("music/album/a.mp3".to_string()), FileTreeNode::audio("music/album/b.mp3".to_string())],
                false,
                None,
            ),
            FileTreeNode::audio("music/z.mp3".to_string()),
        ],
        false,
        None,
    );
    for spelling in ["music/album", "music/album/", "music//album", "music/./album"] {
        let rows = tree.flatten(&[spelling.to_string()]);
        assert_eq!(rows.len(), 4, "{spelling}");
        assert!(rows[0].expanded);
        assert_eq!(position_of(&rows, "music/album/b.mp3/"), Some(2));
    }
    assert!(!tree.flatten(&["./music/album".to_string()])[0].expanded);
    assert!(!tree.flatten(&["music/Album".to_string()])[0].expanded);
}
