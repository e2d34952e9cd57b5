use nova_library::error::ServiceError;
use nova_library::identity::stable_id_of;
use nova_library::models::{ArtworkSource, PlaybackSource, Track};
use nova_library::scanner::{
    CoverCandidate, FileScanner, MediaTag, ProbeOutcome, ProbedMedia, StandardTagKey, Visual,
};

fn std_tag(key: StandardTagKey, value: &str) -> MediaTag {
    MediaTag { std_key: Some(key), key: String::new(), value: value.to_string() }
}

fn raw_tag(key: &str, value: &str) -> MediaTag {
    MediaTag { std_key: None, key: key.to_string(), value: value.to_string() }
}

fn media(tags: Vec<MediaTag>) -> ProbedMedia {
    ProbedMedia {
        file_size: 1234,
        tags,
        n_frames: None,
        sample_rate: None,
        visuals: Vec::new(),
        covers: Vec::new(),
    }
}

fn track_of(path: &str, media: ProbedMedia) -> Track {
    match FileScanner::process_file(path, &ProbeOutcome::Probed(media)) {
        Ok(track) => track,
        Err(e) => panic!("no track: {}", e.to_string()),
    }
}

#[test]
fn music_extensions_are_recognised_whatever_their_case() {
    assert!(FileScanner::is_music_file_public("/music/a/song.mp3"));
    assert!(FileScanner::is_music_file_public("/music/a/song.FLAC"));
    assert!(FileScanner::is_music_file_public("song.M4a"));
    assert!(FileScanner::is_music_file_public("song.ogg"));
    assert!(FileScanner::is_music_file_public("song.wav"));
    assert!(FileScanner::is_music_file("/music/a/song.tar.Mp3"));
    assert!(!FileScanner::is_music_file_public("/music/a/cover.jpg"));
    assert!(!FileScanner::is_music_file_public("/music/a/mp3"));
    assert!(!FileScanner::is_music_file_public("/music/a/.mp3"));
    assert!(!FileScanner::is_music_file_public("/music/a.mp3/notes"));
    assert!(!FileScanner::is_music_file_public(""));
    assert!(!FileScanner::is_music_file("song.mp3x"));
}

#[test]
fn audio_extensions_are_the_five_supported_ones() {
    for ext in ["mp3", "flac", "m4a", "ogg", "wav"] {
        assert!(FileScanner::is_audio_extension(ext));
    }
    for ext in ["MP3", "aac", "", "mp", "wave", "mp3 "] {
        assert!(!FileScanner::is_audio_extension(ext));
    }
}

#[test]
fn a_scan_keeps_the_music_files_in_their_order() {
    let entries = vec![
        "/m".to_string(),
        "/m/b.flac".to_string(),
        "/m/cover.png".to_string(),
        "/m/a.MP3".to_string(),
        "/m/sub/c.wav".to_string(),
        "/m/notes.txt".to_string(),
    ];
    let files = FileScanner::scan_directory(&entries);
    assert!(matches!(files, Ok(_)));
    assert_eq!(
        files.unwrap_or_default(),
        vec!["/m/b.flac".to_string(), "/m/a.MP3".to_string(), "/m/sub/c.wav".to_string()]
    );
    assert_eq!(FileScanner::scan_directory(&Vec::new()).unwrap_or_default(), Vec::<String>::new());
}

#[test]
fn a_missing_file_is_not_found() {
    let r = FileScanner::process_file("/m/a.mp3", &ProbeOutcome::Missing);
    assert!(matches!(r, Err(ServiceError::NotFound(ref m)) if m == "/m/a.mp3"));
}

#[test]
fn an_unreadable_file_is_reported_as_unreadable() {
    let r = FileScanner::process_file("/m/a.mp3", &ProbeOutcome::Unreadable("denied".to_string()));
    assert!(matches!(r, Err(ServiceError::Unreadable(ref m)) if m == "denied"));
}

#[test]
fn an_unsupported_file_is_reported_as_unsupported() {
    let r = FileScanner::process_file("/m/a.mp3", &ProbeOutcome::Unsupported("no codec".to_string()));
    assert!(matches!(r, Err(ServiceError::UnsupportedFormat(ref m)) if m == "no codec"));
}

#[test]
fn a_file_without_tags_falls_back_to_its_name_and_the_placeholders() {
    let t = track_of("/music/My Song.MP3", media(Vec::new()));
    assert_eq!(t.id, stable_id_of("/music/My Song.MP3"));
    assert_eq!(t.title, "My Song");
    assert_eq!(t.artist, "Unknown Artist");
    assert_eq!(t.album, "Unknown Album");
    assert_eq!(t.duration, 0);
    assert_eq!(t.track_number, None);
    assert_eq!(t.disc_number, None);
    assert_eq!(t.release_year, None);
    assert_eq!(t.genre, None);
    assert_eq!(t.artwork.thumbnail, None);
    assert!(matches!(t.artwork.full_art, ArtworkSource::Absent));
    match t.source {
        PlaybackSource::Local { file_format, file_size, path } => {
            assert_eq!(file_format, "mp3");
            assert_eq!(file_size, 1234);
            assert_eq!(path, "/music/My Song.MP3");
        },
        _ => panic!("not a local source"),
    }
}

#[test]
fn a_path_without_extension_has_the_format_unknown() {
    let t = track_of("/music/song", media(Vec::new()));
    assert_eq!(t.title, "song");
    assert!(matches!(t.source, PlaybackSource::Local { ref file_format, .. } if file_format == "unknown"));
}

#[test]
fn a_path_without_a_file_name_has_the_title_unknown() {
    let t = track_of("/music/..", media(Vec::new()));
    assert_eq!(t.title, "Unknown");
}

#[test]
fn the_identifier_is_the_digest_of_the_path() {
    let t = track_of("hello world", media(Vec::new()));
    assert_eq!(t.id, "2aae6c35c94fcfb415dbe95f408b9ce91ee846ed");
    let again = track_of("hello world", media(vec![std_tag(StandardTagKey::TrackTitle, "T")]));
    assert_eq!(again.id, t.id);
}

#[test]
fn standard_tags_set_their_fields() {
    let t = track_of(
        "/m/a.flac",
        media(vec![
            std_tag(StandardTagKey::TrackTitle, "Song A"),
            std_tag(StandardTagKey::Artist, "Band X"),
            std_tag(StandardTagKey::Album, "LP 1"),
            std_tag(StandardTagKey::TrackNumber, "7"),
            std_tag(StandardTagKey::DiscNumber, "2"),
            std_tag(StandardTagKey::Date, "2001-05-17"),
            std_tag(StandardTagKey::Genre, "Rock"),
        ]),
    );
    assert_eq!(t.title, "Song A");
    assert_eq!(t.artist, "Band X");
    assert_eq!(t.album, "LP 1");
    assert_eq!(t.track_number, Some(7));
    assert_eq!(t.disc_number, Some(2));
    assert_eq!(t.release_year, Some(2001));
    assert_eq!(t.genre, Some("Rock".to_string()));
}

#[test]
fn raw_tags_fill_only_fields_that_still_hold_their_default() {
    let t = track_of(
        "/m/a.flac",
        media(vec![
            raw_tag("title", "Raw Title"),
            raw_tag("Title", "Second Raw Title"),
            raw_tag("ARTIST", "Raw Artist"),
            raw_tag("artist", "Second Raw Artist"),
            raw_tag("album", "Raw Album"),
            raw_tag("TrackNumber", "3"),
            raw_tag("tracknumber", "4"),
            raw_tag("discnumber", "1"),
            raw_tag("date", "1987"),
            raw_tag("DATE", "1988"),
            raw_tag("genre", "Jazz"),
            raw_tag("GENRE", "Pop"),
            raw_tag("comment", "ignored"),
        ]),
    );
    assert_eq!(t.title, "Raw Title");
    assert_eq!(t.artist, "Raw Artist");
    assert_eq!(t.album, "Raw Album");
    assert_eq!(t.track_number, Some(3));
    assert_eq!(t.disc_number, Some(1));
    assert_eq!(t.release_year, Some(1987));
    assert_eq!(t.genre, Some("Jazz".to_string()));
}

#[test]
fn a_standard_tag_wins_over_raw_tags_around_it() {
    let t = track_of(
        "/m/a.flac",
        media(vec![
            raw_tag("ARTIST", "Raw Artist"),
            std_tag(StandardTagKey::Artist, "Std Artist"),
            raw_tag("ARTIST", "Late Raw Artist"),
            std_tag(StandardTagKey::Other, "x"),
        ]),
    );
    assert_eq!(t.artist, "Std Artist");
}

#[test]
fn a_tag_with_another_standard_key_is_matched_by_its_raw_name() {
    let tag = MediaTag {
        std_key: Some(StandardTagKey::Other),
        key: "Album".to_string(),
        value: "By Raw Name".to_string(),
    };
    let t = track_of("/m/a.flac", media(vec![tag]));
    assert_eq!(t.album, "By Raw Name");
}

#[test]
fn numbers_that_do_not_parse_leave_nothing() {
    let t = track_of(
        "/m/a.flac",
        media(vec![
            std_tag(StandardTagKey::TrackNumber, "3/12"),
            std_tag(StandardTagKey::DiscNumber, ""),
            std_tag(StandardTagKey::Date, "May 2001"),
        ]),
    );
    assert_eq!(t.track_number, None);
    assert_eq!(t.disc_number, None);
    assert_eq!(t.release_year, None);
}

#[test]
fn one_tag_is_applied_as_the_rule_says() {
    let fields = FileScanner::initial_fields("stem");
    let fields = FileScanner::apply_tag(fields, None, "TITLE", "T1", "stem");
    assert_eq!(fields.title, "T1");
    let fields = FileScanner::apply_tag(fields, None, "TITLE", "T2", "stem");
    assert_eq!(fields.title, "T1");
    let fields = FileScanner::apply_tag(fields, Some(StandardTagKey::TrackTitle), "", "T3", "stem");
    assert_eq!(fields.title, "T3");
    let fields = FileScanner::apply_tag(fields, None, "title", "T4", "stem");
    assert_eq!(fields.title, "T3");
    let fields = FileScanner::apply_tag(fields, None, "ARTIST", "A1", "stem");
    assert_eq!(fields.artist, "A1");
    assert_eq!(fields.album, "Unknown Album");
}

#[test]
fn the_duration_is_frames_over_rate_in_whole_seconds() {
    assert_eq!(FileScanner::duration_of(Some(441000), Some(44100)), 10);
    assert_eq!(FileScanner::duration_of(Some(441001), Some(44100)), 10);
    assert_eq!(FileScanner::duration_of(Some(44099), Some(44100)), 0);
    assert_eq!(FileScanner::duration_of(Some(0), Some(44100)), 0);
    assert_eq!(FileScanner::duration_of(None, Some(44100)), 0);
    assert_eq!(FileScanner::duration_of(Some(441000), None), 0);
    assert_eq!(FileScanner::duration_of(None, None), 0);
    assert_eq!(FileScanner::duration_of(Some(5), Some(0)), u32::MAX);
    assert_eq!(FileScanner::duration_of(Some(0), Some(0)), 0);
    assert_eq!(FileScanner::duration_of(Some(u64::MAX), Some(1)), u32::MAX);
    assert_eq!(FileScanner::duration_of(Some(4294967295), Some(1)), u32::MAX);
    assert_eq!(FileScanner::duration_of(Some(4294967294), Some(1)), 4294967294);
}

#[test]
fn the_duration_agrees_with_the_quotient_of_floats() {
    for (frames, rate) in [(441000u64, 44100u32), (1, 3), (96000 * 17 + 5, 96000), (7, 0), (0, 0)] {
        let expected = (frames as f64 / rate as f64) as u32;
        assert_eq!(FileScanner::duration_of(Some(frames), Some(rate)), expected);
    }
}

#[test]
fn an_embedded_image_becomes_the_thumbnail() {
    let visuals = vec![
        Visual { media_type: "application/pdf".to_string(), data: vec![9] },
        Visual { media_type: "image/png".to_string(), data: vec![1, 2, 3] },
        Visual { media_type: "image/jpeg".to_string(), data: vec![4] },
    ];
    let covers = vec![CoverCandidate { path: "/m/cover.jpg".to_string(), exists: true }];
    let art = FileScanner::resolve_artwork(&visuals, &covers);
    assert_eq!(art.thumbnail, Some(vec![1, 2, 3]));
    assert!(matches!(art.full_art, ArtworkSource::Absent));
}

#[test]
fn without_an_embedded_image_the_first_existing_cover_is_taken() {
    let visuals = vec![Visual { media_type: "text/plain".to_string(), data: vec![9] }];
    let covers = vec![
        CoverCandidate { path: "/m/cover.jpg".to_string(), exists: false },
        CoverCandidate { path: "/m/folder.png".to_string(), exists: true },
        CoverCandidate { path: "/m/front.png".to_string(), exists: true },
    ];
    let art = FileScanner::resolve_artwork(&visuals, &covers);
    assert_eq!(art.thumbnail, None);
    assert!(matches!(art.full_art, ArtworkSource::Local { ref path } if path == "/m/folder.png"));
}

#[test]
fn without_image_or_cover_there_is_no_artwork() {
    let covers = vec![CoverCandidate { path: "/m/cover.jpg".to_string(), exists: false }];
    let art = FileScanner::resolve_artwork(&Vec::new(), &covers);
    assert_eq!(art.thumbnail, None);
    assert!(matches!(art.full_art, ArtworkSource::Absent));
    let none = FileScanner::resolve_artwork(&Vec::new(), &Vec::new());
    assert!(matches!(none.full_art, ArtworkSource::Absent));
}

#[test]
fn the_cover_names_come_in_their_order_of_preference() {
    assert_eq!(
        FileScanner::cover_filenames(),
        vec![
            "cover.jpg", "cover.jpeg", "cover.png", "folder.jpg", "folder.jpeg", "folder.png",
            "album.jpg", "album.jpeg", "album.png", "front.jpg", "front.jpeg", "front.png",
        ]
    );
}

#[test]
fn a_probed_file_becomes_a_whole_track() {
    let m = ProbedMedia {
        file_size: 77,
        tags: vec![std_tag(StandardTagKey::TrackTitle, "Song A"), raw_tag("artist", "Band X")],
        n_frames: Some(96000 * 3),
        sample_rate: Some(48000),
        visuals: vec![Visual { media_type: "image/jpeg".to_string(), data: vec![7, 7] }],
        covers: Vec::new(),
    };
    let t = FileScanner::build_track("/m/dir/song.Ogg", &m);
    assert_eq!(t.id, stable_id_of("/m/dir/song.Ogg"));
    assert_eq!(t.title, "Song A");
    assert_eq!(t.artist, "Band X");
    assert_eq!(t.duration, 6);
    assert_eq!(t.artwork.thumbnail, Some(vec![7, 7]));
    assert!(matches!(t.source, PlaybackSource::Local { ref file_format, file_size: 77, .. } if file_format == "ogg"));
}
