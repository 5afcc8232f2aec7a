use std::sync::Arc;

use sleeve::models::file_tree::FileTreeNode;
use sleeve::services::directory_scan::{
    album_name_similarity, directory_node, is_album_directory, is_supported_audio, normalize_album_name,
    sort_children, sort_paths, tree_of, Listing,
};

fn score(directory_name: &str, album_name: &str) -> f64 {
    let (numerator, denominator) = album_name_similarity(directory_name, album_name);
    numerator as f64 / denominator as f64
}

fn names(values: &[&str]) -> Vec<String> {
    values.iter().map(|value| value.to_string()).collect()
}

#[test]
fn identifies_formats_supported_by_audiotags() {
    assert!(is_supported_audio("track.MP3"));
    assert!(is_supported_audio("track.flac"));
    assert!(is_supported_audio("track.m4a"));
    assert!(!is_supported_audio("track.ogg"));
    assert!(!is_supported_audio("cover.jpg"));
}

#[test]
fn scores_normalized_album_names() {
    assert_eq!(score("2024 - My Album", "my_album"), 1.0);
    assert!(score("The Complete Collection", "Complete Collection") >= 0.85);
    assert!(score("A", "a") >= 1.0);
    assert_eq!(score("A", "AB"), 0.0);
}

#[test]
fn requires_a_strict_majority_of_similar_album_tags() {
    assert!(is_album_directory("2024 - My Album", 3, &names(&["My Album", "my_album", "My Album"])));
    assert!(!is_album_directory(
        "My Album",
        4,
        &names(&["My Album", "My Album", "Other Album", "Other Album"]),
    ));
    assert!(!is_album_directory("My Album", 3, &names(&["Unrelated", "Unrelated", "Unrelated"])));
}

#[test]
fn normalizing_drops_a_number_prefix_and_punctuation() {
    assert_eq!(normalize_album_name("2024 - My Album").into_iter().collect::<String>(), "myalbum");
    assert_eq!(normalize_album_name("  Best_Of  ").into_iter().collect::<String>(), "bestof");
    assert_eq!(normalize_album_name("Side-B").into_iter().collect::<String>(), "sideb");
}

#[test]
fn similarity_of_unrelated_names_is_their_bigram_overlap() {
    assert_eq!(album_name_similarity("", "Album"), (0, 1));
    assert_eq!(score("abcd", "abxy"), 1.0 / 5.0);
    assert_eq!(score("Greatest Hits", "Love Songs"), 1.0 / 18.0);
    assert_eq!(score("Greatest Hits", "Jazz Rock"), 0.0);
}

#[test]
fn extensions_are_matched_without_regard_to_case_and_only_on_the_file_name() {
    assert!(is_supported_audio("music/Album.flac/track.M4B"));
    assert!(is_supported_audio("music/track.Mp4"));
    assert!(!is_supported_audio("music.mp3/track"));
    assert!(!is_supported_audio("track."));
}

#[test]
fn directories_sort_before_files_and_names_ignore_case() {
    let sorted = sort_children(vec![
        FileTreeNode::audio("music/b.mp3".to_string()),
        FileTreeNode::audio("music/A.mp3".to_string()),
        FileTreeNode::directory_with_album_cover(
            "music/zeta".to_string(),
            vec![FileTreeNode::audio("music/zeta/x.mp3".to_string())],
            false,
            None,
        ),
    ]);
    let paths: Vec<&str> = sorted.iter().map(|node| node.path()).collect();
    assert_eq!(paths, vec!["music/zeta", "music/A.mp3", "music/b.mp3"]);
}

#[test]
fn album_directories_take_the_first_embedded_cover() {
    let node = directory_node(
        "music/My Album".to_string(),
        vec![
            FileTreeNode::audio("music/My Album/2.mp3".to_string()),
            FileTreeNode::audio("music/My Album/1.mp3".to_string()),
        ],
        2,
        &[("My Album".to_string(), None), ("My Album".to_string(), Some(vec![7, 7]))],
    )
    .expect("directory node");
    let FileTreeNode::Directory { is_album, album_cover, children, .. } = node else {
        panic!("expected directory")
    };
    assert!(is_album);
    assert_eq!(album_cover, Some(Arc::new(vec![7, 7])));
    assert_eq!(children[0].path(), "music/My Album/1.mp3");
    assert!(directory_node("music/empty".to_string(), vec![], 0, &[]).is_none());
}

#[test]
fn siblings_sort_in_path_component_order() {
    let directory = |path: &str, song: &str| {
        FileTreeNode::directory_with_album_cover(
            path.to_string(),
            vec![FileTreeNode::audio(format!("{path}/{song}"))],
            false,
            None,
        )
    };
    let children = vec![
        directory("music/Beatles Live", "a.mp3"),
        directory("music/Beatles/Abbey Road", "b.mp3"),
        directory("music/Beatles-Remastered", "c.mp3"),
    ];
    let mut expected: Vec<String> = children.iter().map(|node| node.path().to_string()).collect();
    expected.sort_by(|left, right| std::path::Path::new(left).cmp(std::path::Path::new(right)));
    let sorted = sort_children(children);
    let paths: Vec<String> = sorted.iter().map(|node| node.path().to_string()).collect();
    assert_eq!(paths, expected);
    assert_eq!(paths[0], "music/Beatles/Abbey Road");
}

#[test]
fn files_sort_by_name_without_regard_to_case() {
    let node = directory_node(
        "p".to_string(),
        vec![FileTreeNode::audio("p/B.mp3".to_string()), FileTreeNode::audio("p/a.mp3".to_string())],
        2,
        &[],
    )
    .expect("directory node");
    let FileTreeNode::Directory { children, .. } = node else { panic!("expected directory") };
    let paths: Vec<&str> = children.iter().map(|node| node.path()).collect();
    assert_eq!(paths, vec!["p/a.mp3", "p/B.mp3"]);
    let same_but_case = sort_children(vec![
        FileTreeNode::audio("p/a.mp3".to_string()),
        FileTreeNode::audio("p/A.mp3".to_string()),
    ]);
    let paths: Vec<&str> = same_but_case.iter().map(|node| node.path()).collect();
    assert_eq!(paths, vec!["p/A.mp3", "p/a.mp3"]);
}

fn check_scanned_shape(node: &FileTreeNode) {
    match node {
        FileTreeNode::Directory { children, is_album, album_cover, .. } => {
            assert!(!children.is_empty());
            let first_file = children
                .iter()
                .position(|child| matches!(child, FileTreeNode::AudioFile { .. }))
                .unwrap_or(children.len());
            assert!(children[first_file..]
                .iter()
                .all(|child| matches!(child, FileTreeNode::AudioFile { .. })));
            assert!(*is_album || album_cover.is_none());
            children.iter().for_each(check_scanned_shape);
        }
        FileTreeNode::AudioFile { path, .. } => assert!(is_supported_audio(path)),
    }
}

#[test]
fn a_tree_built_level_by_level_has_the_scanned_shape_everywhere() {
    let inner = directory_node(
        "music/Live/Disc".to_string(),
        vec![FileTreeNode::audio("music/Live/Disc/b.flac".to_string())],
        1,
        &[("Other".to_string(), Some(vec![1]))],
    )
    .expect("inner");
    let root = directory_node(
        "music".to_string(),
        vec![
            FileTreeNode::audio("music/Z.mp3".to_string()),
            inner,
            FileTreeNode::audio("music/a.m4a".to_string()),
        ],
        2,
        &[],
    )
    .expect("root");
    check_scanned_shape(&root);
    let FileTreeNode::Directory { children, .. } = &root else { panic!("expected directory") };
    let paths: Vec<&str> = children.iter().map(|node| node.path()).collect();
    assert_eq!(paths, vec!["music/Live/Disc", "music/a.m4a", "music/Z.mp3"]);
}

#[test]
fn a_listing_becomes_a_tree_of_the_scanned_shape() {
    let file = |path: &str| Listing::File { path: path.to_string() };
    let listing = Listing::Directory {
        path: "music".to_string(),
        entries: vec![
            file("music/notes.txt"),
            file("music/B.mp3"),
            Listing::Directory { path: "music/empty".to_string(), entries: vec![file("music/empty/x.txt")], album_tags: vec![] },
            Listing::Directory {
                path: "music/Album".to_string(),
                entries: vec![file("music/Album/2.flac"), file("music/Album/1.flac")],
                album_tags: vec![("Album".to_string(), Some(vec![5])), ("Album".to_string(), None)],
            },
            file("music/a.m4a"),
        ],
        album_tags: vec![],
    };
    let root = tree_of(&listing).expect("tree");
    check_scanned_shape(&root);
    let FileTreeNode::Directory { children, .. } = &root else { panic!("expected directory") };
    let paths: Vec<&str> = children.iter().map(|node| node.path()).collect();
    assert_eq!(paths, vec!["music/Album", "music/a.m4a", "music/B.mp3"]);
    let FileTreeNode::Directory { is_album, album_cover, .. } = &children[0] else { panic!("expected album") };
    assert!(*is_album);
    assert_eq!(album_cover.as_deref(), Some(&vec![5]));
    let silent = Listing::Directory { path: "quiet".to_string(), entries: vec![file("quiet/a.txt")], album_tags: vec![] };
    assert!(tree_of(&silent).is_none());
    assert!(tree_of(&file("song.MP3")).is_some());
}

#[test]
fn paths_sort_as_std_orders_them_by_component() {
    let paths = vec![
        "music/b-side.mp3".to_string(),
        "music/b/a.mp3".to_string(),
        "music/B.mp3".to_string(),
        "music/a.mp3".to_string(),
        "music/a.mp3".to_string(),
    ];
    let mut expected = paths.clone();
    expected.sort_by(|left, right| std::path::Path::new(left).cmp(std::path::Path::new(right)));
    assert_eq!(sort_paths(paths), expected);
}
