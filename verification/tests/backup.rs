use std::path::Path;
use sleeve::paths::display_name;
use sleeve::services::backup::{backup_destination, backup_root, timestamp_candidate};

#[test]
fn backups_keep_the_path_relative_to_the_music_directory() {
    assert_eq!(
        backup_destination("/music", "/music/Album/track.mp3", "2026-07-18T14-32-08"),
        Some("/music/.sleeve-backups/2026-07-18T14-32-08/Album/track.mp3".to_string())
    );
    assert_eq!(backup_destination("/music", "/other/track.mp3", "t"), None);
    assert_eq!(backup_destination("/music", "/musician/track.mp3", "t"), None);
    assert_eq!(backup_root("/music"), "/music/.sleeve-backups");
}

#[test]
fn taken_timestamps_get_a_two_digit_suffix() {
    assert_eq!(timestamp_candidate("2026-07-18T14-32-08", 0), "2026-07-18T14-32-08");
    assert_eq!(timestamp_candidate("2026-07-18T14-32-08", 1), "2026-07-18T14-32-08-01");
    assert_eq!(timestamp_candidate("2026-07-18T14-32-08", 12), "2026-07-18T14-32-08-12");
    assert_eq!(timestamp_candidate("base", 100), format!("base-{:02}", 100));
}

#[test]
fn paths_are_split_joined_and_named_as_std_does() {

    let samples = [
        "", "/", ".", "..", "./", "a", "a/", "a//b", "a/./b", "a/b/.", "/a/..", "./a", "/music/", "music//x.mp3",
        "a/.hidden", "a/b..c",
    ];
    for path in samples {
        let expected = Path::new(path)
            .file_name()
            .map(|name| name.to_string_lossy().into_owned())
            .unwrap_or_else(|| path.to_string());
        assert_eq!(display_name(path), expected, "{path:?}");
    }
    for root in ["/music", "/music/", "/music//", "music", "", "/"] {
        for source in ["/music/a.mp3", "/music//b/c.mp3", "/musicx/a.mp3", "music/a.mp3", "/a.mp3"] {
            let std_answer = Path::new(source).strip_prefix(root).ok().map(|relative| {
                Path::new(root)
                    .join(".sleeve-backups")
                    .join("t")
                    .join(relative)
                    .to_string_lossy()
                    .into_owned()
            });
            assert_eq!(backup_destination(root, source, "t"), std_answer, "{root:?} {source:?}");
        }
    }
}
