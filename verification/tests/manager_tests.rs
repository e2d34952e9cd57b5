use nova_library::manager::{
    add_named_tracks, join_results, merge_albums, merge_artists, sort_positions, ServiceManager, SortKey,
};
use nova_library::text::comes_before;
use nova_library::models::{Album, Artist, PlayableItem, SearchResults, SearchWeights};
use nova_library::provider::LocalMusicProvider;
use nova_library::scanner::{MediaTag, ProbeOutcome, ProbedMedia, ScannedFile, StandardTagKey};

fn cs(text: &str) -> Vec<char> {
    text.chars().collect()
}

fn artist(id: &str, name: &str) -> Artist {
    Artist { id: id.to_string(), name: name.to_string(), albums: Vec::new(), artwork: None }
}

fn album(id: &str, title: &str, artist: &str) -> Album {
    Album {
        id: id.to_string(),
        title: title.to_string(),
        artist: artist.to_string(),
        year: None,
        art_url: None,
        tracks: Vec::new(),
        artwork: None,
    }
}

fn scanned(path: &str, title: &str, artist: &str, album: &str) -> ScannedFile {
    let tag = |key: StandardTagKey, value: &str| MediaTag {
        std_key: Some(key),
        key: String::new(),
        value: value.to_string(),
    };
    ScannedFile {
        path: path.to_string(),
        outcome: ProbeOutcome::Probed(ProbedMedia {
            file_size: 1,
            tags: vec![
                tag(StandardTagKey::TrackTitle, title),
                tag(StandardTagKey::Artist, artist),
                tag(StandardTagKey::Album, album),
            ],
            n_frames: None,
            sample_rate: None,
            visuals: Vec::new(),
            covers: Vec::new(),
        }),
    }
}

fn provider(files: Vec<ScannedFile>) -> LocalMusicProvider {
    let mut p = match LocalMusicProvider::new("/music") {
        Ok(p) => p,
        Err(e) => panic!("no provider: {}", e.to_string()),
    };
    p.process_files_batch(&files);
    p
}

#[test]
fn texts_are_ordered_as_strings_are() {
    let samples = ["", "a", "ab", "abc", "abd", "b", "B", "é", "z", "aa", "a b"];
    for a in samples {
        for b in samples {
            assert_eq!(comes_before(&cs(a), &cs(b)), a < b);
        }
    }
}

#[test]
fn keys_are_sorted_stably() {
    let key = |major: &str, minor: &str| SortKey { major: cs(major), minor: cs(minor) };
    let keys = vec![key("b", "2"), key("a", "2"), key("b", "1"), key("a", "2"), key("a", "1"), key("", "z")];
    assert_eq!(sort_positions(&keys), vec![5, 4, 1, 3, 2, 0]);
    assert_eq!(sort_positions(&Vec::new()), Vec::<usize>::new());
}

#[test]
fn merged_artists_are_sorted_by_lowercase_name_without_repeats() {
    let artists = vec![
        artist("1", "zed"),
        artist("2", "Band"),
        artist("3", "alpha"),
        artist("4", "Band"),
        artist("5", "band"),
        artist("6", "Band"),
    ];
    let merged = merge_artists(&artists);
    let got: Vec<(String, String)> = merged.iter().map(|a| (a.id.clone(), a.name.clone())).collect();
    let mut expected = artists.clone();
    expected.sort_by(|a, b| a.name.to_lowercase().cmp(&b.name.to_lowercase()));
    expected.dedup_by(|a, b| a.name == b.name);
    let want: Vec<(String, String)> = expected.iter().map(|a| (a.id.clone(), a.name.clone())).collect();
    assert_eq!(got, want);
    assert_eq!(
        got,
        vec![
            ("3".to_string(), "alpha".to_string()),
            ("2".to_string(), "Band".to_string()),
            ("5".to_string(), "band".to_string()),
            ("6".to_string(), "Band".to_string()),
            ("1".to_string(), "zed".to_string()),
        ]
    );
    assert!(merge_artists(&Vec::new()).is_empty());
}

#[test]
fn merged_albums_are_sorted_by_artist_and_title_without_repeats() {
    let albums = vec![
        album("1", "Zeta", "band"),
        album("2", "Alpha", "Zed"),
        album("3", "alpha", "Band"),
        album("4", "Zeta", "band"),
        album("5", "Beta", "BAND"),
    ];
    let merged = merge_albums(&albums);
    let got: Vec<String> = merged.iter().map(|a| a.id.clone()).collect();
    let mut expected = albums.clone();
    expected.sort_by(|a, b| {
        (a.artist.to_lowercase(), a.title.to_lowercase()).cmp(&(b.artist.to_lowercase(), b.title.to_lowercase()))
    });
    expected.dedup_by(|a, b| a.title == b.title && a.artist == b.artist);
    let want: Vec<String> = expected.iter().map(|a| a.id.clone()).collect();
    assert_eq!(got, want);
    assert_eq!(got, vec!["3", "5", "1", "2"]);
}

#[test]
fn a_manager_without_providers_returns_nothing() {
    let m = ServiceManager::new();
    assert!(matches!(m.get_all_tracks(0), Ok(ref v) if v.is_empty()));
    assert!(matches!(m.get_all_artists(), Ok(ref v) if v.is_empty()));
    assert!(matches!(m.get_all_albums(), Ok(ref v) if v.is_empty()));
    assert!(matches!(m.search_all("a", None, 10, 0, 0), Ok(ref f) if f.tracks.is_empty()));
}

#[test]
fn the_manager_gathers_what_its_providers_hold() {
    let mut m = ServiceManager::new();
    m.register_provider("home", provider(vec![
        scanned("/h/1.mp3", "One", "Zed", "Last"),
        scanned("/h/2.mp3", "Two", "Band", "First"),
    ]));
    m.register_provider("usb", provider(vec![
        scanned("/u/1.mp3", "Three", "Band", "First"),
        scanned("/u/2.mp3", "Four", "alpha", "Mid"),
    ]));
    let tracks = m.get_all_tracks(99).unwrap_or_default();
    let got: Vec<(String, String, i64)> =
        tracks.iter().map(|i| (i.track.title.clone(), i.provider.clone(), i.added_at)).collect();
    assert_eq!(
        got,
        vec![
            ("One".to_string(), "home".to_string(), 99),
            ("Two".to_string(), "home".to_string(), 99),
            ("Three".to_string(), "usb".to_string(), 99),
            ("Four".to_string(), "usb".to_string(), 99),
        ]
    );
    let artists: Vec<String> = m.get_all_artists().unwrap_or_default().iter().map(|a| a.name.clone()).collect();
    assert_eq!(artists, vec!["alpha", "Band", "Zed"]);
    let albums: Vec<String> = m.get_all_albums().unwrap_or_default().iter().map(|a| a.title.clone()).collect();
    assert_eq!(albums, vec!["Mid", "First", "Last"]);
}

#[test]
fn registering_a_name_again_replaces_the_provider() {
    let mut m = ServiceManager::new();
    m.register_provider("home", provider(vec![scanned("/h/1.mp3", "Old", "Band", "LP")]));
    m.register_provider("usb", provider(vec![scanned("/u/1.mp3", "Usb", "Band", "LP")]));
    m.register_provider("home", provider(vec![scanned("/h/2.mp3", "New", "Band", "LP")]));
    let titles: Vec<String> =
        m.get_all_tracks(0).unwrap_or_default().iter().map(|i| i.track.title.clone()).collect();
    assert_eq!(titles, vec!["New", "Usb"]);
}

#[test]
fn the_manager_joins_the_search_results_of_its_providers() {
    let mut m = ServiceManager::new();
    m.register_provider("home", provider(vec![
        scanned("/h/1.mp3", "x band", "Band", "LP"),
        scanned("/h/2.mp3", "band", "Band", "LP"),
    ]));
    m.register_provider("usb", provider(vec![scanned("/u/1.mp3", "Bandit", "Other", "LP 2")]));
    let found = m.search_all("band", None, 10, 0, 7);
    let found = match found {
        Ok(f) => f,
        Err(e) => panic!("search failed: {}", e.to_string()),
    };
    let titles: Vec<String> = found.tracks.iter().map(|i| i.track.title.clone()).collect();
    assert_eq!(titles, vec!["band", "x band", "Bandit"]);
    assert!(found.tracks.iter().all(|i| i.provider == "local" && i.added_at == 7));
    let artists: Vec<String> = found.artists.iter().map(|a| a.name.clone()).collect();
    assert_eq!(artists, vec!["Band"]);
    let albums: Vec<String> = found.albums.iter().map(|a| a.title.clone()).collect();
    assert_eq!(albums, vec!["LP"]);
    let weighted = m.search_all("band", Some(SearchWeights { track_weight: 1, album_weight: 1, artist_weight: 1 }), 1, 0, 0);
    assert!(matches!(weighted, Ok(ref f) if f.tracks.len() == 2 && f.albums.len() == 1));
}

#[test]
fn tracks_are_added_under_the_name_of_their_provider() {
    let first = provider(vec![scanned("/h/1.mp3", "One", "Zed", "Last")]).get_tracks().unwrap_or_default();
    let second = provider(vec![
        scanned("/u/1.mp3", "Two", "Band", "First"),
        scanned("/u/2.mp3", "Three", "Band", "First"),
    ])
    .get_tracks()
    .unwrap_or_default();
    let mut items: Vec<PlayableItem> = Vec::new();
    add_named_tracks(&mut items, "home", &first, 5);
    add_named_tracks(&mut items, "usb", &second, 6);
    add_named_tracks(&mut items, "empty", &Vec::new(), 7);
    let got: Vec<(String, String, i64)> =
        items.iter().map(|i| (i.track.title.clone(), i.provider.clone(), i.added_at)).collect();
    assert_eq!(
        got,
        vec![
            ("One".to_string(), "home".to_string(), 5),
            ("Two".to_string(), "usb".to_string(), 6),
            ("Three".to_string(), "usb".to_string(), 6),
        ]
    );
}

#[test]
fn results_are_joined_kind_by_kind() {
    let mut all = SearchResults {
        tracks: Vec::new(),
        albums: vec![album("1", "A", "x")],
        artists: vec![artist("1", "x")],
    };
    let found = SearchResults {
        tracks: Vec::new(),
        albums: vec![album("2", "B", "y"), album("3", "C", "z")],
        artists: Vec::new(),
    };
    join_results(&mut all, found);
    let albums: Vec<String> = all.albums.iter().map(|a| a.id.clone()).collect();
    assert_eq!(albums, vec!["1", "2", "3"]);
    assert_eq!(all.artists.len(), 1);
    assert!(all.tracks.is_empty());
}
