use tui_music::library::{
    assemble_playlists, default_music_dir, extension_of_file_name, is_audio,
    is_audio_extension_lower, playlist_folders, playlist_name, stem_of_file_name, Folder, Track,
};

#[test]
fn detects_audio_extensions() {
    assert!(is_audio("foo.mp3"));
    assert!(is_audio("BAR.FLAC"));
    assert!(!is_audio("notes.txt"));
    assert!(!is_audio("noext"));
}

#[test]
fn audio_extension_rules() {
    assert!(is_audio("/music/Album/song.Opus"));
    assert!(is_audio("a.b.aif"));
    assert!(!is_audio("/music/.mp3"));
    assert!(!is_audio("/music/song.mp3.bak"));
    assert!(!is_audio(""));
}

#[test]
fn names_playlists() {
    assert_eq!(playlist_name("日语歌单"), "日语");
    assert_eq!(playlist_name("  摇滚 歌单"), "摇滚");
    assert_eq!(playlist_name("歌单"), "歌单");
    assert_eq!(playlist_name("我的歌单合集"), "我的歌单合集");
    assert_eq!(playlist_name("Jazz"), "Jazz");
}

#[test]
fn default_dir_is_music_under_home() {
    assert_eq!(default_music_dir(Some("/home/u".to_string())), "/home/u/Music");
    assert_eq!(default_music_dir(None), ".");
}

fn track(path: &str, title: &str) -> Track {
    Track { path: path.to_string(), title: title.to_string(), artist: String::new(), duration_ms: 0 }
}

#[test]
fn track_names_fall_back_to_path() {
    let t = track("/music/Album/song.flac", "");
    assert_eq!(t.display_name(), "song");
    assert_eq!(t.subtitle(), "Album");
    let t = Track {
        path: "/music/Album/song.flac".to_string(),
        title: "Title".to_string(),
        artist: "Artist".to_string(),
        duration_ms: 1000,
    };
    assert_eq!(t.display_name(), "Title");
    assert_eq!(t.subtitle(), "Artist");
    let t = track("", "");
    assert_eq!(t.display_name(), "?");
    assert_eq!(t.subtitle(), "");
    let t = track("/music/.hidden", "");
    assert_eq!(t.display_name(), ".hidden");
}

fn folder(name: &str, path: &str) -> Folder {
    Folder { name: name.to_string(), path: path.to_string() }
}

#[test]
fn selects_and_orders_playlist_folders() {
    let dirs = playlist_folders(vec![
        folder("b歌单", "/m/b歌单"),
        folder("other", "/m/other"),
        folder("a 歌单", "/m/a 歌单"),
    ]);
    let names: Vec<&str> = dirs.iter().map(|f| f.name.as_str()).collect();
    assert_eq!(names, vec!["a", "b"]);
    assert_eq!(dirs[0].path, "/m/a 歌单");
}

#[test]
fn assembles_shelf_and_playlists() {
    let dirs = vec![folder("a", "/m/a歌单"), folder("e", "/m/e歌单")];
    let tracks = vec![
        track("/m/a歌单/x.mp3", ""),
        track("/m/y.mp3", "zeta"),
        track("/m/sub/Alpha.mp3", ""),
        track("/m/a歌单/deep/w.mp3", ""),
    ];
    let pls = assemble_playlists(dirs, tracks);
    assert_eq!(pls.len(), 2);
    assert_eq!(pls[0].name, "歌曲架");
    let shelf: Vec<String> = pls[0].tracks.iter().map(|t| t.display_name()).collect();
    assert_eq!(shelf, vec!["Alpha", "zeta"]);
    assert_eq!(pls[1].name, "a");
    let a: Vec<String> = pls[1].tracks.iter().map(|t| t.display_name()).collect();
    assert_eq!(a, vec!["w", "x"]);
}

#[test]
fn empty_scan_has_no_playlists() {
    let pls = assemble_playlists(vec![folder("a", "/m/a歌单")], vec![]);
    assert!(pls.is_empty());
}

#[test]
fn shelf_stays_first_even_when_empty() {
    let pls = assemble_playlists(vec![folder("a", "/m/a歌单")], vec![track("/m/a歌单/x.mp3", "")]);
    assert_eq!(pls.len(), 2);
    assert_eq!(pls[0].name, "歌曲架");
    assert!(pls[0].tracks.is_empty());
    assert_eq!(pls[1].tracks.len(), 1);
}

#[test]
fn file_name_rules() {
    assert_eq!(stem_of_file_name("song.flac"), "song");
    assert_eq!(stem_of_file_name("a.b.c"), "a.b");
    assert_eq!(stem_of_file_name(".hidden"), ".hidden");
    assert_eq!(stem_of_file_name("noext"), "noext");
    assert_eq!(extension_of_file_name("song.flac").as_deref(), Some("flac"));
    assert_eq!(extension_of_file_name("foo.").as_deref(), Some(""));
    assert_eq!(extension_of_file_name(".hidden"), None);
    assert_eq!(extension_of_file_name("noext"), None);
    assert!(is_audio_extension_lower("alac"));
    assert!(!is_audio_extension_lower("MP3"));
    assert!(!is_audio_extension_lower("txt"));
}
