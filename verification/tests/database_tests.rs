use nova_library::database::{store_artwork, store_track, track_carries_artwork, track_is_at, Database};
use nova_library::identity::{album_id_of, stable_id_of};
use nova_library::models::{Album, Artist, Artwork, ArtworkSource, PlaybackSource, Track};

fn no_art() -> Artwork {
    Artwork { thumbnail: None, full_art: ArtworkSource::Absent }
}

fn thumb(bytes: Vec<u8>) -> Artwork {
    Artwork { thumbnail: Some(bytes), full_art: ArtworkSource::Absent }
}

fn track(path: &str, title: &str, artist: &str, album: &str) -> Track {
    Track {
        id: stable_id_of(path),
        title: title.to_string(),
        artist: artist.to_string(),
        album: album.to_string(),
        duration: 100,
        track_number: None,
        disc_number: None,
        release_year: Some(2001),
        genre: None,
        artwork: no_art(),
        source: PlaybackSource::Local {
            file_format: "mp3".to_string(),
            file_size: 10,
            path: path.to_string(),
        },
    }
}

fn db() -> Database {
    match Database::new() {
        Ok(db) => db,
        Err(e) => panic!("no store: {}", e.to_string()),
    }
}

fn titles(db: &Database) -> Vec<String> {
    db.get_all_tracks().unwrap_or_default().iter().map(|t| t.title.clone()).collect()
}

fn album_keys(db: &Database) -> Vec<(String, String)> {
    db.get_all_albums().unwrap_or_default().iter().map(|a| (a.title.clone(), a.artist.clone())).collect()
}

fn artist_names(db: &Database) -> Vec<String> {
    db.get_all_artists().unwrap_or_default().iter().map(|a| a.name.clone()).collect()
}

#[test]
fn a_new_store_is_empty() {
    let db = db();
    assert!(titles(&db).is_empty());
    assert!(album_keys(&db).is_empty());
    assert!(artist_names(&db).is_empty());
    assert!(db.stored_paths().is_empty());
}

#[test]
fn storing_the_same_track_twice_leaves_one_row() {
    let mut db = db();
    let t = track("/m/a.mp3", "Song A", "Band X", "LP 1");
    assert!(db.insert_track(&t).is_ok());
    assert!(db.insert_track(&t).is_ok());
    let all = db.get_all_tracks().unwrap_or_default();
    assert_eq!(all.len(), 1);
    assert_eq!(all[0].id, stable_id_of("/m/a.mp3"));
    assert_eq!(album_keys(&db), vec![("LP 1".to_string(), "Band X".to_string())]);
    assert_eq!(artist_names(&db), vec!["Band X".to_string()]);
}

#[test]
fn storing_a_track_again_replaces_it_in_place() {
    let mut db = db();
    let _ = db.insert_track(&track("/m/a.mp3", "A", "Band X", "LP 1"));
    let _ = db.insert_track(&track("/m/b.mp3", "B", "Band X", "LP 1"));
    let _ = db.insert_track(&track("/m/a.mp3", "A retagged", "Band X", "LP 1"));
    assert_eq!(titles(&db), vec!["A retagged".to_string(), "B".to_string()]);
}

#[test]
fn storing_a_track_creates_its_artist_and_album_with_derived_identifiers() {
    let mut db = db();
    let _ = db.insert_track(&track("/m/a.mp3", "A", "Band X", "LP 1"));
    let albums = db.get_all_albums().unwrap_or_default();
    assert_eq!(albums.len(), 1);
    assert_eq!(albums[0].id, album_id_of("LP 1", "Band X"));
    assert_eq!(albums[0].year, Some(2001));
    assert_eq!(albums[0].art_url, None);
    assert!(albums[0].tracks.is_empty());
    let artists = db.get_all_artists().unwrap_or_default();
    assert_eq!(artists[0].id, stable_id_of("Band X"));
    assert!(artists[0].albums.is_empty());
}

#[test]
fn storing_a_track_never_overwrites_an_existing_album_or_artist() {
    let mut db = db();
    let album = Album {
        id: "my-id".to_string(),
        title: "LP 1".to_string(),
        artist: "Band X".to_string(),
        year: Some(1970),
        art_url: Some("http://x".to_string()),
        tracks: vec!["t".to_string()],
        artwork: Some(thumb(vec![5])),
    };
    assert!(db.insert_album(&album).is_ok());
    let _ = db.insert_track(&track("/m/a.mp3", "A", "Band X", "LP 1"));
    let albums = db.get_all_albums().unwrap_or_default();
    assert_eq!(albums.len(), 1);
    assert_eq!(albums[0].id, "my-id");
    assert_eq!(albums[0].year, Some(1970));
    assert_eq!(albums[0].art_url, None);
    assert!(albums[0].tracks.is_empty());
    assert_eq!(albums[0].artwork.as_ref().and_then(|a| a.thumbnail.clone()), Some(vec![5]));
}

#[test]
fn deleting_the_last_member_removes_album_and_artist() {
    let mut db = db();
    let _ = db.insert_track(&track("/m/a.mp3", "A", "Band X", "LP 1"));
    assert!(db.remove_track_by_path("/m/a.mp3").is_ok());
    assert!(titles(&db).is_empty());
    assert!(album_keys(&db).is_empty());
    assert!(artist_names(&db).is_empty());
}

#[test]
fn deleting_one_of_two_members_leaves_the_album_intact() {
    let mut db = db();
    let _ = db.insert_track(&track("/m/a.mp3", "A", "Band X", "LP 1"));
    let _ = db.insert_track(&track("/m/b.mp3", "B", "Band X", "LP 1"));
    let _ = db.remove_track_by_path("/m/a.mp3");
    assert_eq!(titles(&db), vec!["B".to_string()]);
    assert_eq!(album_keys(&db), vec![("LP 1".to_string(), "Band X".to_string())]);
    assert_eq!(artist_names(&db), vec!["Band X".to_string()]);
}

#[test]
fn deleting_a_track_keeps_an_artist_with_tracks_on_another_album() {
    let mut db = db();
    let _ = db.insert_track(&track("/m/a.mp3", "A", "Band X", "LP 1"));
    let _ = db.insert_track(&track("/m/b.mp3", "B", "Band X", "LP 2"));
    let _ = db.insert_track(&track("/m/c.mp3", "C", "Band Y", "LP 1"));
    let _ = db.remove_track_by_path("/m/a.mp3");
    assert_eq!(
        album_keys(&db),
        vec![("LP 2".to_string(), "Band X".to_string()), ("LP 1".to_string(), "Band Y".to_string())]
    );
    assert_eq!(artist_names(&db), vec!["Band X".to_string(), "Band Y".to_string()]);
}

#[test]
fn deleting_a_path_without_a_row_changes_nothing() {
    let mut db = db();
    let _ = db.insert_track(&track("/m/a.mp3", "A", "Band X", "LP 1"));
    assert!(db.remove_track_by_path("/m/zzz.mp3").is_ok());
    assert!(db.remove_track_by_path("").is_ok());
    assert_eq!(titles(&db), vec!["A".to_string()]);
    assert_eq!(album_keys(&db).len(), 1);
    assert_eq!(artist_names(&db).len(), 1);
}

#[test]
fn an_album_that_no_track_referenced_survives_a_deletion() {
    let mut db = db();
    let lonely = Album {
        id: "x".to_string(),
        title: "Lonely".to_string(),
        artist: "Nobody".to_string(),
        year: None,
        art_url: None,
        tracks: Vec::new(),
        artwork: None,
    };
    let _ = db.insert_album(&lonely);
    let _ = db.insert_track(&track("/m/a.mp3", "A", "Band X", "LP 1"));
    let _ = db.remove_track_by_path("/m/a.mp3");
    assert_eq!(album_keys(&db), vec![("Lonely".to_string(), "Nobody".to_string())]);
}

#[test]
fn placeholder_rows_are_hidden_but_their_tracks_are_listed() {
    let mut db = db();
    let _ = db.insert_track(&track("/m/u.mp3", "u", "Unknown Artist", "Unknown Album"));
    let _ = db.insert_track(&track("/m/a.mp3", "A", "Band X", "LP 1"));
    assert_eq!(titles(&db), vec!["u".to_string(), "A".to_string()]);
    assert_eq!(album_keys(&db), vec![("LP 1".to_string(), "Band X".to_string())]);
    assert_eq!(artist_names(&db), vec!["Band X".to_string()]);
    let found_albums = db.search_albums("unknown", 10, 0).unwrap_or_default();
    assert!(found_albums.is_empty());
    let found_artists = db.search_artists("unknown", 10, 0).unwrap_or_default();
    assert!(found_artists.is_empty());
    assert_eq!(db.search_albums("", 10, 0).unwrap_or_default().len(), 1);
    assert_eq!(db.search_artists("", 10, 0).unwrap_or_default().len(), 1);
    let found_tracks = db.search_tracks("unknown", 10, 0).unwrap_or_default();
    assert_eq!(found_tracks.len(), 1);
    assert_eq!(found_tracks[0].title, "u");
}

#[test]
fn a_half_resolved_track_hides_only_its_placeholder_rows() {
    let mut db = db();
    let _ = db.insert_track(&track("/m/u.mp3", "u", "Band X", "Unknown Album"));
    assert!(album_keys(&db).is_empty());
    assert_eq!(artist_names(&db), vec!["Band X".to_string()]);
}

#[test]
fn track_search_matches_title_artist_and_album_without_regard_to_ascii_case() {
    let mut db = db();
    let _ = db.insert_track(&track("/m/1.mp3", "Blue Moon", "Ella", "Standards"));
    let _ = db.insert_track(&track("/m/2.mp3", "Other", "The BLUES Band", "Live"));
    let _ = db.insert_track(&track("/m/3.mp3", "Third", "Someone", "Kind of Blue"));
    let _ = db.insert_track(&track("/m/4.mp3", "Red", "Someone", "Colours"));
    let found = db.search_tracks("bLuE", 10, 0).unwrap_or_default();
    let names: Vec<String> = found.iter().map(|t| t.title.clone()).collect();
    assert_eq!(names, vec!["Blue Moon".to_string(), "Other".to_string(), "Third".to_string()]);
    assert!(db.search_tracks("green", 10, 0).unwrap_or_default().is_empty());
    assert_eq!(db.search_tracks("", 10, 0).unwrap_or_default().len(), 4);
}

#[test]
fn search_treats_the_query_literally() {
    let mut db = db();
    let _ = db.insert_track(&track("/m/1.mp3", "100% Pure", "A", "B"));
    let _ = db.insert_track(&track("/m/2.mp3", "Plain", "A", "B"));
    let found = db.search_tracks("%", 10, 0).unwrap_or_default();
    assert_eq!(found.len(), 1);
    assert_eq!(found[0].title, "100% Pure");
    assert!(db.search_tracks("_", 10, 0).unwrap_or_default().is_empty());
}

#[test]
fn search_folds_ascii_letters_only() {
    let mut db = db();
    let _ = db.insert_track(&track("/m/1.mp3", "ÉTÉ", "A", "B"));
    assert!(db.search_tracks("été", 10, 0).unwrap_or_default().is_empty());
    assert_eq!(db.search_tracks("ÉTÉ", 10, 0).unwrap_or_default().len(), 1);
}

#[test]
fn store_search_pages_are_contiguous() {
    let mut db = db();
    for i in 0..12 {
        let _ = db.insert_track(&track(&format!("/m/{}.mp3", i), &format!("a{}", i), "x", "y"));
    }
    let first: Vec<String> =
        db.search_tracks("a", 5, 0).unwrap_or_default().iter().map(|t| t.title.clone()).collect();
    let second: Vec<String> =
        db.search_tracks("a", 5, 5).unwrap_or_default().iter().map(|t| t.title.clone()).collect();
    let third: Vec<String> =
        db.search_tracks("a", 5, 10).unwrap_or_default().iter().map(|t| t.title.clone()).collect();
    assert_eq!(first, vec!["a0", "a1", "a2", "a3", "a4"]);
    assert_eq!(second, vec!["a5", "a6", "a7", "a8", "a9"]);
    assert_eq!(third, vec!["a10", "a11"]);
    assert!(db.search_tracks("a", 5, 12).unwrap_or_default().is_empty());
    assert!(db.search_tracks("a", 0, 0).unwrap_or_default().is_empty());
}

#[test]
fn album_search_matches_title_or_artist() {
    let mut db = db();
    let _ = db.insert_track(&track("/m/1.mp3", "t", "Ella", "Standards"));
    let _ = db.insert_track(&track("/m/2.mp3", "t", "Standard Band", "Live"));
    let _ = db.insert_track(&track("/m/3.mp3", "t", "Other", "Else"));
    let found: Vec<String> =
        db.search_albums("STANDARD", 10, 0).unwrap_or_default().iter().map(|a| a.title.clone()).collect();
    assert_eq!(found, vec!["Standards".to_string(), "Live".to_string()]);
    let paged: Vec<String> =
        db.search_albums("STANDARD", 1, 1).unwrap_or_default().iter().map(|a| a.title.clone()).collect();
    assert_eq!(paged, vec!["Live".to_string()]);
    let artists: Vec<String> =
        db.search_artists("ell", 10, 0).unwrap_or_default().iter().map(|a| a.name.clone()).collect();
    assert_eq!(artists, vec!["Ella".to_string()]);
}

#[test]
fn a_batch_stores_all_its_tracks() {
    let mut db = db();
    let batch = vec![
        track("/m/a.mp3", "A", "Band X", "LP 1"),
        track("/m/b.mp3", "B", "Band X", "LP 1"),
        track("/m/a.mp3", "A again", "Band X", "LP 1"),
        track("/m/c.mp3", "C", "Band Y", "LP 9"),
    ];
    assert!(db.batch_insert_tracks(&batch).is_ok());
    assert_eq!(titles(&db), vec!["A again".to_string(), "B".to_string(), "C".to_string()]);
    assert_eq!(album_keys(&db).len(), 2);
    assert!(db.batch_insert_tracks(&Vec::new()).is_ok());
    assert_eq!(titles(&db).len(), 3);
}

#[test]
fn a_batch_equals_storing_one_by_one() {
    let batch = vec![
        track("/m/a.mp3", "A", "Band X", "LP 1"),
        track("/m/b.mp3", "B", "Band Y", "LP 2"),
    ];
    let mut one = db();
    let _ = one.batch_insert_tracks(&batch);
    let mut two = db();
    for t in &batch {
        let _ = two.insert_track(t);
    }
    assert_eq!(titles(&one), titles(&two));
    assert_eq!(album_keys(&one), album_keys(&two));
    assert_eq!(artist_names(&one), artist_names(&two));
}

#[test]
fn the_sweep_removes_the_tracks_whose_files_are_missing() {
    let mut db = db();
    let _ = db.insert_track(&track("/m/a.mp3", "A", "Band X", "LP 1"));
    let _ = db.insert_track(&track("/m/b.mp3", "B", "Band Y", "LP 2"));
    let _ = db.insert_track(&track("/m/c.mp3", "C", "Band Y", "LP 2"));
    assert_eq!(
        db.stored_paths(),
        vec!["/m/a.mp3".to_string(), "/m/b.mp3".to_string(), "/m/c.mp3".to_string()]
    );
    let missing = vec!["/m/a.mp3".to_string(), "/m/c.mp3".to_string(), "/m/nope.mp3".to_string()];
    assert!(db.cleanup_database(&missing).is_ok());
    assert_eq!(titles(&db), vec!["B".to_string()]);
    assert_eq!(album_keys(&db), vec![("LP 2".to_string(), "Band Y".to_string())]);
    assert_eq!(artist_names(&db), vec!["Band Y".to_string()]);
    assert!(db.cleanup_database(&Vec::new()).is_ok());
    assert_eq!(titles(&db).len(), 1);
}

#[test]
fn artwork_is_stored_without_remote_or_embedded_sources() {
    let remote = Artwork {
        thumbnail: Some(vec![1]),
        full_art: ArtworkSource::Remote { url: "http://x".to_string(), cache_key: None },
    };
    let kept = store_artwork(&remote);
    assert_eq!(kept.thumbnail, Some(vec![1]));
    assert!(matches!(kept.full_art, ArtworkSource::Absent));
    let embedded = Artwork {
        thumbnail: None,
        full_art: ArtworkSource::Embedded { format: "image/png".to_string(), data: vec![1] },
    };
    assert!(matches!(store_artwork(&embedded).full_art, ArtworkSource::Absent));
    let local = Artwork { thumbnail: None, full_art: ArtworkSource::Local { path: "/c.jpg".to_string() } };
    assert!(matches!(store_artwork(&local).full_art, ArtworkSource::Local { ref path } if path == "/c.jpg"));
    let empty = Artwork { thumbnail: None, full_art: ArtworkSource::Local { path: String::new() } };
    assert!(matches!(store_artwork(&empty).full_art, ArtworkSource::Absent));
}

#[test]
fn a_track_of_a_remote_source_is_stored_as_a_local_file_without_path() {
    let mut t = track("/m/a.mp3", "A", "Band X", "LP 1");
    t.source = PlaybackSource::Spotify { track_id: "id".to_string(), url: "u".to_string() };
    let kept = store_track(&t);
    assert!(matches!(
        kept.source,
        PlaybackSource::Local { ref file_format, file_size: 0, ref path } if file_format.is_empty() && path.is_empty()
    ));
    assert!(track_is_at(&t, &String::new()));
    assert!(!track_is_at(&t, &"/m/a.mp3".to_string()));
    assert!(track_is_at(&track("/m/a.mp3", "A", "B", "C"), &"/m/a.mp3".to_string()));
}

#[test]
fn an_album_borrows_the_artwork_of_its_member_with_the_lowest_number() {
    let mut db = db();
    let mut a = track("/m/a.mp3", "A", "Band X", "LP 1");
    a.track_number = Some(3);
    a.artwork = thumb(vec![3]);
    let mut b = track("/m/b.mp3", "B", "Band X", "LP 1");
    b.track_number = Some(1);
    let mut c = track("/m/c.mp3", "C", "Band X", "LP 1");
    c.track_number = Some(2);
    c.artwork = thumb(vec![2]);
    let mut d = track("/m/d.mp3", "D", "Band X", "LP 1");
    d.track_number = Some(2);
    d.artwork = thumb(vec![22]);
    let mut e = track("/m/e.mp3", "E", "Band Z", "LP 1");
    e.track_number = Some(0);
    e.artwork = thumb(vec![0]);
    let _ = db.batch_insert_tracks(&vec![a, b, c, d, e]);
    let albums = db.get_all_albums().unwrap_or_default();
    assert_eq!(albums[0].artist, "Band X");
    assert_eq!(albums[0].artwork.as_ref().and_then(|x| x.thumbnail.clone()), Some(vec![2]));
    assert!(track_carries_artwork(&track_with(thumb(vec![1]))));
    assert!(!track_carries_artwork(&track_with(no_art())));
}

fn track_with(artwork: Artwork) -> Track {
    let mut t = track("/m/x.mp3", "X", "A", "B");
    t.artwork = artwork;
    t
}

#[test]
fn a_member_without_number_lends_its_artwork_first() {
    let mut db = db();
    let mut a = track("/m/a.mp3", "A", "Band X", "LP 1");
    a.track_number = Some(0);
    a.artwork = thumb(vec![1]);
    let mut b = track("/m/b.mp3", "B", "Band X", "LP 1");
    b.artwork = thumb(vec![2]);
    let _ = db.batch_insert_tracks(&vec![a, b]);
    let albums = db.get_all_albums().unwrap_or_default();
    assert_eq!(albums[0].artwork.as_ref().and_then(|x| x.thumbnail.clone()), Some(vec![2]));
}

#[test]
fn an_artist_borrows_the_artwork_of_its_first_track_with_artwork() {
    let mut db = db();
    let a = track("/m/a.mp3", "A", "Band X", "LP 1");
    let mut b = track("/m/b.mp3", "B", "Band X", "LP 2");
    b.artwork = Artwork { thumbnail: None, full_art: ArtworkSource::Local { path: "/m/cover.jpg".to_string() } };
    let mut c = track("/m/c.mp3", "C", "Band X", "LP 3");
    c.artwork = thumb(vec![9]);
    let _ = db.batch_insert_tracks(&vec![a, b, c]);
    let artists = db.get_all_artists().unwrap_or_default();
    assert_eq!(artists.len(), 1);
    let art = artists[0].artwork.as_ref();
    assert!(matches!(art.map(|x| &x.full_art), Some(ArtworkSource::Local { path }) if path == "/m/cover.jpg"));
}

#[test]
fn rows_without_any_artwork_to_borrow_show_none() {
    let mut db = db();
    let _ = db.insert_track(&track("/m/a.mp3", "A", "Band X", "LP 1"));
    assert!(db.get_all_albums().unwrap_or_default()[0].artwork.is_none());
    assert!(db.get_all_artists().unwrap_or_default()[0].artwork.is_none());
}

#[test]
fn own_artwork_wins_over_borrowed_artwork() {
    let mut db = db();
    let mut a = track("/m/a.mp3", "A", "Band X", "LP 1");
    a.artwork = thumb(vec![1]);
    let _ = db.insert_track(&a);
    assert!(db.update_artist_artwork("Band X", &thumb(vec![7])).is_ok());
    let artists = db.get_all_artists().unwrap_or_default();
    assert_eq!(artists[0].artwork.as_ref().and_then(|x| x.thumbnail.clone()), Some(vec![7]));
    assert!(db.update_artist_artwork("Nobody", &thumb(vec![8])).is_ok());
    assert_eq!(artist_names(&db), vec!["Band X".to_string()]);
}

#[test]
fn album_artwork_reaches_the_album_and_all_its_tracks() {
    let mut db = db();
    let _ = db.insert_track(&track("/m/a.mp3", "A", "Band X", "LP 1"));
    let _ = db.insert_track(&track("/m/b.mp3", "B", "Band X", "LP 1"));
    let _ = db.insert_track(&track("/m/c.mp3", "C", "Band X", "LP 2"));
    assert!(db.update_album_artwork("LP 1", "Band X", &thumb(vec![4, 2])).is_ok());
    let tracks = db.get_all_tracks().unwrap_or_default();
    assert_eq!(tracks[0].artwork.thumbnail, Some(vec![4, 2]));
    assert_eq!(tracks[1].artwork.thumbnail, Some(vec![4, 2]));
    assert_eq!(tracks[2].artwork.thumbnail, None);
    let albums = db.get_all_albums().unwrap_or_default();
    assert_eq!(albums[0].artwork.as_ref().and_then(|x| x.thumbnail.clone()), Some(vec![4, 2]));
    assert!(albums[1].artwork.is_none());
}

#[test]
fn inserting_an_artist_replaces_the_artist_of_that_name() {
    let mut db = db();
    let first = Artist { id: "1".to_string(), name: "Band X".to_string(), albums: vec!["a".to_string()], artwork: None };
    let second = Artist { id: "2".to_string(), name: "Band X".to_string(), albums: Vec::new(), artwork: Some(thumb(vec![1])) };
    let third = Artist { id: "3".to_string(), name: "band x".to_string(), albums: Vec::new(), artwork: None };
    assert!(db.insert_artist(&first).is_ok());
    assert!(db.insert_artist(&second).is_ok());
    assert!(db.insert_artist(&third).is_ok());
    let artists = db.get_all_artists().unwrap_or_default();
    assert_eq!(artists.len(), 2);
    assert_eq!(artists[0].id, "2");
    assert!(artists[0].albums.is_empty());
    assert_eq!(artists[1].name, "band x");
}

#[test]
fn tracks_lend_their_artwork_to_albums_and_artists() {
    let mut db = db();
    let mut a = track("/m/a.mp3", "A", "Band X", "LP 1");
    a.artwork = thumb(vec![1]);
    let mut b = track("/m/b.mp3", "B", "Band X", "LP 1");
    b.artwork = thumb(vec![2]);
    let c = track("/m/c.mp3", "C", "Band Y", "LP 2");
    let _ = db.batch_insert_tracks(&vec![a, b, c]);
    assert!(db.initialize_artwork().is_ok());
    let albums = db.get_all_albums().unwrap_or_default();
    assert_eq!(albums.len(), 2);
    assert_eq!(albums[0].artwork.as_ref().and_then(|x| x.thumbnail.clone()), Some(vec![2]));
    assert_eq!(albums[0].year, None);
    assert_eq!(albums[1].year, Some(2001));
    assert!(albums[1].artwork.is_none());
    let artists = db.get_all_artists().unwrap_or_default();
    assert_eq!(artists[0].artwork.as_ref().and_then(|x| x.thumbnail.clone()), Some(vec![2]));
    let _ = db.remove_track_by_path("/m/b.mp3");
    let kept = db.get_all_albums().unwrap_or_default();
    assert_eq!(kept[0].artwork.as_ref().and_then(|x| x.thumbnail.clone()), Some(vec![2]));
}

#[test]
fn every_stored_track_has_its_artist_and_album_listed() {
    let mut db = db();
    let _ = db.batch_insert_tracks(&vec![
        track("/m/a.mp3", "A", "Band X", "LP 1"),
        track("/m/b.mp3", "B", "Band Y", "LP 2"),
        track("/m/c.mp3", "C", "Band X", "LP 3"),
    ]);
    let _ = db.insert_track(&track("/m/a.mp3", "A", "Band Z", "LP 9"));
    let _ = db.remove_track_by_path("/m/b.mp3");
    let _ = db.update_album_artwork("LP 3", "Band X", &thumb(vec![1]));
    let _ = db.initialize_artwork();
    let artists = artist_names(&db);
    let albums = album_keys(&db);
    for t in db.get_all_tracks().unwrap_or_default() {
        assert!(artists.contains(&t.artist));
        assert!(albums.contains(&(t.album.clone(), t.artist.clone())));
    }
    assert_eq!(artists, vec!["Band X".to_string(), "Band Z".to_string()]);
}

#[test]
fn deleting_a_track_that_was_just_stored_restores_the_store() {
    let mut db = db();
    let _ = db.insert_track(&track("/m/a.mp3", "A", "Band X", "LP 1"));
    let before = (titles(&db), album_keys(&db), artist_names(&db));
    let _ = db.insert_track(&track("/m/new.mp3", "New", "Band N", "LP N"));
    let _ = db.remove_track_by_path("/m/new.mp3");
    assert_eq!((titles(&db), album_keys(&db), artist_names(&db)), before);
    let _ = db.insert_track(&track("/m/new2.mp3", "New", "Band X", "LP 1"));
    let _ = db.remove_track_by_path("/m/new2.mp3");
    assert_eq!((titles(&db), album_keys(&db), artist_names(&db)), before);
}
