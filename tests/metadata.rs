use timed_playlist::metadata::{collect_tracks, get_extension, is_audio, Metadata, Picture, TagInfo};
use timed_playlist::track::{total_fits, Track};

fn tag(title: Option<&str>, artist: Option<&str>, album: Option<&str>, picture: Option<Picture>) -> TagInfo {
    TagInfo {
        title: title.map(|s| s.to_string()),
        artist: artist.map(|s| s.to_string()),
        album: album.map(|s| s.to_string()),
        picture,
    }
}

#[test]
fn extension_comes_with_its_dot() {
    assert_eq!(get_extension("music/song.mp3"), Some(".mp3".to_string()));
    assert_eq!(get_extension("music/archive.tar.flac"), Some(".flac".to_string()));
    assert_eq!(get_extension("music/README"), None);
    assert_eq!(get_extension("music/.hidden"), None);
    assert_eq!(get_extension("music/trailing."), Some(".".to_string()));
}

#[test]
fn audio_files_are_files_with_a_supported_extension() {
    assert!(is_audio(true, "a/b/song.mp3"));
    assert!(is_audio(true, "song.wav"));
    assert!(is_audio(true, "x/song.ogg"));
    assert!(is_audio(true, "x/song.flac"));
    assert!(!is_audio(false, "x/song.flac"));
    assert!(!is_audio(true, "x/song.FLAC"));
    assert!(!is_audio(true, "x/cover.jpg"));
    assert!(!is_audio(true, "x/mp3"));
    assert!(!is_audio(true, "x/.mp3"));
}

#[test]
fn untagged_file_is_named_after_its_file() {
    let m = Metadata::from_parts("dir/My Song.mp3".to_string(), None, None);
    assert_eq!(m.title, "My Song");
    assert_eq!(m.artist, "Unknown");
    assert_eq!(m.album, "Unknown");
    assert_eq!(m.picture, None);
    assert_eq!(m.mimetype, "Unknown");
    assert_eq!(m.duration, 0);
}

#[test]
fn file_without_extension_keeps_its_whole_name() {
    let m = Metadata::from_parts("dir/noext".to_string(), None, Some(12));
    assert_eq!(m.title, "noext");
    assert_eq!(m.duration, 12);
}

#[test]
fn path_without_file_name_has_unknown_title() {
    let m = Metadata::from_parts("dir/..".to_string(), None, None);
    assert_eq!(m.title, "Unknown");
}

#[test]
fn tag_fields_take_precedence() {
    let picture = Picture { data: vec![1, 2, 3], mimetype: Some("image/png".to_string()) };
    let m = Metadata::from_parts(
        "dir/file.ogg".to_string(),
        Some(tag(Some("Title"), Some("Artist"), Some("Album"), Some(picture))),
        Some(215),
    );
    assert_eq!(m.title, "Title");
    assert_eq!(m.artist, "Artist");
    assert_eq!(m.album, "Album");
    assert_eq!(m.picture, Some(vec![1, 2, 3]));
    assert_eq!(m.mimetype, "image/png");
    assert_eq!(m.duration, 215);
}

#[test]
fn partial_tag_falls_back_field_by_field() {
    let picture = Picture { data: vec![9], mimetype: None };
    let m = Metadata::from_parts("a/b/Track 01.flac".to_string(), Some(tag(None, Some("X"), None, Some(picture))), None);
    assert_eq!(m.title, "Track 01");
    assert_eq!(m.artist, "X");
    assert_eq!(m.album, "Unknown");
    assert_eq!(m.picture, Some(vec![9]));
    assert_eq!(m.mimetype, "Unknown");
}

#[test]
fn unreadable_files_are_left_out_of_the_catalog() {
    let scanned = vec![
        ("a.mp3".to_string(), Some(1_000)),
        ("broken.mp3".to_string(), None),
        ("c.ogg".to_string(), Some(3_000)),
    ];
    let tracks = collect_tracks(scanned);
    assert_eq!(tracks.len(), 2);
    assert_eq!(tracks[0].path, "a.mp3");
    assert_eq!(tracks[0].duration_ms, 1_000);
    assert_eq!(tracks[1].path, "c.ogg");
    assert_eq!(tracks[1].duration_ms, 3_000);
    assert!(collect_tracks(Vec::new()).is_empty());
}

#[test]
fn catalog_total_must_fit() {
    assert!(total_fits(&Vec::new()));
    assert!(total_fits(&vec![Track::new("a".to_string(), u64::MAX - 1), Track::new("b".to_string(), 1)]));
    assert!(!total_fits(&vec![Track::new("a".to_string(), u64::MAX), Track::new("b".to_string(), 1)]));
    assert!(!total_fits(&vec![
        Track::new("a".to_string(), u64::MAX / 2 + 1),
        Track::new("b".to_string(), u64::MAX / 2 + 1),
        Track::new("c".to_string(), 0),
    ]));
}
