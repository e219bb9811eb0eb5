use rusted_player::library::{MetadataError, PlaylistService, PlaylistStats, ScanError, ScannedFile, TrackMetadata, TrackTags};
use rusted_player::text::normalize_genre;

fn tags(artist: Option<&str>, album: Option<&str>, genre: Option<&str>, year: Option<u32>, duration: Option<u64>) -> TrackTags {
    TrackTags {
        album: album.map(|s| s.to_string()),
        artist: artist.map(|s| s.to_string()),
        genre: genre.map(|s| s.to_string()),
        year,
        duration,
    }
}

fn file(path: &str, t: TrackTags) -> ScannedFile {
    ScannedFile { path: path.to_string(), tags: Ok(t) }
}

fn genre_file(path: &str, genre: &str) -> ScannedFile {
    file(path, tags(None, None, Some(genre), None, None))
}

fn scanned(files: Vec<ScannedFile>) -> PlaylistService {
    let mut s = PlaylistService::new();
    assert_eq!(s.scan_directory(Ok(files)), Ok(()));
    s
}

#[test]
fn rock_and_untagged_give_one_genre_and_two_tracks() {
    let s = scanned(vec![
        genre_file("/music/a.mp3", "Rock"),
        file("/music/b.mp3", tags(None, None, None, None, None)),
    ]);
    assert_eq!(s.get_genres(), vec!["Rock".to_string()]);
    assert_eq!(s.get_stats().total_tracks, 2);
}

#[test]
fn near_genre_spellings_share_a_group() {
    let s = scanned(vec![genre_file("/m/1.mp3", "Hip-Hop"), genre_file("/m/2.mp3", "hiphop"), genre_file("/m/3.mp3", "Hip Hop")]);
    assert_eq!(s.get_genres(), vec!["Hip-Hop".to_string()]);
    assert_eq!(
        s.get_playlist_by_genre("Hip-Hop"),
        vec!["/m/1.mp3".to_string(), "/m/2.mp3".to_string(), "/m/3.mp3".to_string()]
    );
}

#[test]
fn distant_genres_stay_apart() {
    let s = scanned(vec![genre_file("/m/1.mp3", "Rock"), genre_file("/m/2.mp3", "Jazz")]);
    assert_eq!(s.get_genres(), vec!["Jazz".to_string(), "Rock".to_string()]);
    assert_eq!(s.get_stats().total_genres, 2);
    assert_eq!(s.get_playlist_by_genre("Jazz"), vec!["/m/2.mp3".to_string()]);
}

#[test]
fn genre_within_two_edits_merges() {
    let s = scanned(vec![genre_file("/m/1.mp3", "Rock"), genre_file("/m/2.mp3", "Rocks"), genre_file("/m/3.mp3", "Metal")]);
    assert_eq!(s.get_genres(), vec!["Metal".to_string(), "Rock".to_string()]);
    assert_eq!(s.get_playlist_by_genre("rock").len(), 2);
}

#[test]
fn genre_query_is_normalized() {
    let s = scanned(vec![genre_file("/m/1.mp3", "Drum & Bass")]);
    assert_eq!(s.get_playlist_by_genre("drum and bass"), Vec::<String>::new());
    assert_eq!(s.get_playlist_by_genre("DRUM-BASS"), vec!["/m/1.mp3".to_string()]);
    assert_eq!(s.get_playlist_by_genre("Classical"), Vec::<String>::new());
}

#[test]
fn genres_are_sorted() {
    let s = scanned(vec![genre_file("/m/1.mp3", "Pop"), genre_file("/m/2.mp3", "Ambient"), genre_file("/m/3.mp3", "Electronic")]);
    assert_eq!(s.get_genres(), vec!["Ambient".to_string(), "Electronic".to_string(), "Pop".to_string()]);
}

#[test]
fn normalize_genre_lowercases_and_keeps_alphanumerics() {
    assert_eq!(normalize_genre("Hip-Hop"), "hiphop");
    assert_eq!(normalize_genre("R&B 2000"), "rb2000");
    assert_eq!(normalize_genre(""), "");
}

#[test]
fn top_artists_are_at_most_five_by_descending_count() {
    let mut files = Vec::new();
    let counts = [("A", 1), ("B", 3), ("C", 2), ("D", 3), ("E", 1), ("F", 4), ("G", 2)];
    let mut n = 0;
    for (artist, c) in counts.iter() {
        for _ in 0..*c {
            n += 1;
            files.push(file(&format!("/m/{}.mp3", n), tags(Some(artist), None, None, None, None)));
        }
    }
    let s = scanned(files);
    let top = s.get_top_artists();
    assert_eq!(
        top,
        vec![
            ("F".to_string(), 4),
            ("B".to_string(), 3),
            ("D".to_string(), 3),
            ("C".to_string(), 2),
            ("G".to_string(), 2),
        ]
    );
}

#[test]
fn top_artists_of_a_small_library() {
    let s = scanned(vec![file("/m/1.mp3", tags(Some("X"), None, None, None, None))]);
    assert_eq!(s.get_top_artists(), vec![("X".to_string(), 1)]);
    assert_eq!(PlaylistService::new().get_top_artists(), Vec::<(String, u64)>::new());
}

#[test]
fn total_duration_sums_known_durations() {
    let s = scanned(vec![
        file("/m/1.mp3", tags(None, None, None, None, Some(180_000))),
        file("/m/2.mp3", tags(None, None, None, None, None)),
        file("/m/3.flac", tags(None, None, None, None, Some(61_500))),
    ]);
    assert_eq!(s.get_stats().total_duration, 241_500);
}

#[test]
fn no_durations_total_zero() {
    let s = scanned(vec![
        file("/m/1.mp3", tags(None, None, None, None, None)),
        ScannedFile { path: "/m/2.ogg".to_string(), tags: Err(MetadataError::Unreadable) },
    ]);
    assert_eq!(s.get_stats().total_duration, 0);
    assert_eq!(s.get_stats().total_tracks, 2);
}

#[test]
fn stats_count_genres_and_albums() {
    let s = scanned(vec![
        file("/m/1.mp3", tags(Some("A"), Some("One"), Some("Rock"), None, None)),
        file("/m/2.mp3", tags(Some("A"), Some("One"), Some("Jazz"), None, None)),
        file("/m/3.mp3", tags(Some("B"), Some("Two"), None, None, None)),
    ]);
    let st = s.get_stats();
    assert_eq!(st.total_tracks, 3);
    assert_eq!(st.total_genres, 2);
    assert_eq!(st.total_albums, 2);
}

#[test]
fn tracks_by_decade_counts_each_decade() {
    let s = scanned(vec![
        file("/m/1.mp3", tags(None, None, None, Some(1994), None)),
        file("/m/2.mp3", tags(None, None, None, Some(2001), None)),
        file("/m/3.mp3", tags(None, None, None, Some(1990), None)),
        file("/m/4.mp3", tags(None, None, None, None, None)),
        file("/m/5.mp3", tags(None, None, None, Some(1999), None)),
    ]);
    let mut d = s.get_tracks_by_decade();
    d.sort();
    assert_eq!(d, vec![("1990s".to_string(), 3), ("2000s".to_string(), 1)]);
}

#[test]
fn tracks_without_year_count_nowhere() {
    let s = scanned(vec![file("/m/1.mp3", tags(None, None, None, None, None))]);
    assert!(s.get_tracks_by_decade().is_empty());
}

#[test]
fn audio_files_are_recognized_by_extension() {
    assert!(PlaylistService::is_audio_file("/music/a.mp3"));
    assert!(PlaylistService::is_audio_file("/music/B.MP3"));
    assert!(PlaylistService::is_audio_file("C:\\Music\\song.Flac"));
    assert!(PlaylistService::is_audio_file("x.wma"));
    assert!(PlaylistService::is_audio_file("x.m4a"));
    assert!(PlaylistService::is_audio_file("x.aac"));
    assert!(PlaylistService::is_audio_file("x.ogg"));
    assert!(PlaylistService::is_audio_file("x.wav"));
    assert!(!PlaylistService::is_audio_file("/music/cover.jpg"));
    assert!(!PlaylistService::is_audio_file("/music/.mp3"));
    assert!(!PlaylistService::is_audio_file("/music.mp3/readme"));
    assert!(!PlaylistService::is_audio_file("/music/mp3"));
    assert!(!PlaylistService::is_audio_file(""));
}

#[test]
fn scan_keeps_only_audio_files_in_walk_order() {
    let s = scanned(vec![
        genre_file("/m/b.mp3", "Rock"),
        genre_file("/m/notes.txt", "Jazz"),
        ScannedFile { path: "/m/a.wav".to_string(), tags: Err(MetadataError::Unreadable) },
    ]);
    assert_eq!(s.get_stats().total_tracks, 2);
    assert_eq!(s.get_genres(), vec!["Rock".to_string()]);
    let t = s.get_track_info("/m/a.wav").unwrap();
    assert_eq!(t.genre, None);
    assert_eq!(t.duration, None);
    assert!(s.get_track_info("/m/notes.txt").is_none());
}

#[test]
fn unavailable_root_leaves_index_unchanged() {
    let mut s = scanned(vec![genre_file("/m/1.mp3", "Rock")]);
    assert_eq!(s.scan_directory(Err(ScanError::RootUnavailable)), Err(ScanError::RootUnavailable));
    assert_eq!(s.get_stats().total_tracks, 1);
    assert_eq!(s.get_genres(), vec!["Rock".to_string()]);
}

#[test]
fn rescan_replaces_everything() {
    let mut s = scanned(vec![genre_file("/m/1.mp3", "Rock")]);
    assert_eq!(s.scan_directory(Ok(vec![genre_file("/n/2.mp3", "Jazz")])), Ok(()));
    assert_eq!(s.get_genres(), vec!["Jazz".to_string()]);
    assert_eq!(s.get_stats().total_tracks, 1);
}

#[test]
fn empty_tag_fields_count_as_missing() {
    let t = TrackMetadata::from_scan(file("/m/1.mp3", tags(Some(""), Some("Album"), Some(""), Some(2020), Some(5))));
    assert_eq!(t.artist, None);
    assert_eq!(t.album, Some("Album".to_string()));
    assert_eq!(t.genre, None);
    assert_eq!(t.year, Some(2020));
    assert_eq!(t.duration, Some(5));
    let s = scanned(vec![file("/m/1.mp3", tags(None, None, Some(""), None, None))]);
    assert!(s.get_genres().is_empty());
}

#[test]
fn track_info_finds_by_path() {
    let s = scanned(vec![file("/m/1.mp3", tags(Some("A"), None, None, Some(1977), None))]);
    let t = s.get_track_info("/m/1.mp3").unwrap();
    assert_eq!(t.artist, Some("A".to_string()));
    assert_eq!(t.year, Some(1977));
    assert!(s.get_track_info("/m/2.mp3").is_none());
}

#[test]
fn format_duration_with_hours() {
    let st = PlaylistStats { total_tracks: 0, total_genres: 0, total_albums: 0, total_duration: 3_723_000 };
    assert_eq!(st.format_duration(), "1h 2m 3s");
}

#[test]
fn format_duration_under_an_hour() {
    let st = PlaylistStats { total_tracks: 0, total_genres: 0, total_albums: 0, total_duration: 125_999 };
    assert_eq!(st.format_duration(), "2m 5s");
    let zero = PlaylistStats { total_tracks: 0, total_genres: 0, total_albums: 0, total_duration: 0 };
    assert_eq!(zero.format_duration(), "0m 0s");
}
