use nova_library::models::{
    Album, Artist, Artwork, ArtworkSource, PlayableItem, PlaybackSource, SearchResultType,
    SearchResults, SearchWeights, Track,
};
use nova_library::ranking::{
    comes_first, determine_top_result, field_score_of, lowered, rank, rank_albums, rank_artists, rank_tracks,
    score_album, score_album_lowered, score_artist, score_artist_lowered, score_fields, score_item,
    score_item_lowered, score_track, score_track_lowered, term_matches_of, term_score_of, Candidate,
    FieldWeight,
};

fn cs(text: &str) -> Vec<char> {
    text.chars().collect()
}

fn track(title: &str, artist: &str, album: &str) -> Track {
    Track {
        id: format!("{}|{}|{}", title, artist, album),
        title: title.to_string(),
        artist: artist.to_string(),
        album: album.to_string(),
        duration: 0,
        track_number: None,
        disc_number: None,
        release_year: None,
        genre: None,
        artwork: Artwork { thumbnail: None, full_art: ArtworkSource::Absent },
        source: PlaybackSource::Local { file_format: "mp3".to_string(), file_size: 0, path: title.to_string() },
    }
}

fn artist(name: &str) -> Artist {
    Artist { id: name.to_string(), name: name.to_string(), albums: Vec::new(), artwork: None }
}

fn album(title: &str, artist: &str, year: Option<u32>) -> Album {
    Album {
        id: title.to_string(),
        title: title.to_string(),
        artist: artist.to_string(),
        year,
        art_url: None,
        tracks: Vec::new(),
        artwork: None,
    }
}

fn titles(tracks: &Vec<Track>) -> Vec<String> {
    tracks.iter().map(|t| t.title.clone()).collect()
}

#[test]
fn one_field_earns_by_the_grade_of_its_match() {
    assert_eq!(field_score_of(&cs("abc"), &cs("abc"), 1200), 2700);
    assert_eq!(field_score_of(&cs("abcdef"), &cs("abc"), 1200), 1500);
    assert_eq!(field_score_of(&cs("xabcx"), &cs("abc"), 1200), 600);
    assert_eq!(field_score_of(&cs("xyz"), &cs("abc"), 1200), 0);
    assert_eq!(field_score_of(&cs("abc"), &cs("abc"), 250), 562);
    assert_eq!(field_score_of(&cs("abcd"), &cs("abc"), 250), 312);
    assert_eq!(field_score_of(&cs("zabc"), &cs("abc"), 250), 125);
    assert_eq!(field_score_of(&cs("abc"), &cs("abc"), 0), 0);
    assert_eq!(field_score_of(&cs("abc"), &cs("abc"), 65535), 65535 + 49151 + 32767);
    assert_eq!(field_score_of(&cs(""), &cs(""), 1000), 2250);
    assert_eq!(field_score_of(&cs("abc"), &cs(""), 1000), 1250);
}

#[test]
fn an_exact_title_beats_a_prefix_beats_a_substring_beats_no_match() {
    let exact = score_track(&track("abc", "q", "r"), "abc");
    let prefix = score_track(&track("abcdef", "q", "r"), "abc");
    let inside = score_track(&track("xabcx", "q", "r"), "abc");
    let nothing = score_track(&track("zzz", "q", "r"), "abc");
    assert_eq!(exact, 2700);
    assert_eq!(prefix, 1500);
    assert_eq!(inside, 600);
    assert_eq!(nothing, 0);
    assert!(exact > prefix && prefix > inside && inside > nothing);
    let ranked = rank_tracks(
        &vec![track("zzz", "q", "r"), track("xabcx", "q", "r"), track("abcdef", "q", "r"), track("abc", "q", "r")],
        "abc",
        1000,
        10,
        0,
    );
    assert_eq!(titles(&ranked), vec!["abc", "abcdef", "xabcx"]);
}

#[test]
fn matches_in_artist_and_album_never_outweigh_a_match_in_the_title() {
    let inside_title = score_track(&track("xabcx", "x", "y"), "abc");
    let both_secondary = score_track(&track("zzz", "abc", "abc"), "abc");
    let artist_only = score_track(&track("zzz", "abc", "y"), "abc");
    assert_eq!(inside_title, 600);
    assert_eq!(both_secondary, 337 + 225);
    assert_eq!(artist_only, 337);
    assert!(inside_title > both_secondary);
    assert!(inside_title > artist_only);
    let ranked = rank_tracks(&vec![track("zzz", "abc", "abc"), track("xabcx", "x", "y")], "abc", 1000, 10, 0);
    assert_eq!(titles(&ranked), vec!["xabcx", "zzz"]);
    assert!(score_album(&album("xabcx", "x", None), "abc") > score_album(&album("zzz", "abc", None), "abc"));
    assert!(
        score_album(&album("live 2001", "x", None), "2001")
            > score_album(&album("zzz", "2001", Some(2001)), "2001")
    );
    assert_eq!(score_album(&album("zzz", "2001", Some(2001)), "2001"), 337 + 200);
    assert!(score_item("xabcx", "q", "abc", 1000) > score_item("zzz", "abc", "abc", 1000));
    assert_eq!(score_item("xabcx", "q", "abc", 1000), 500);
}

#[test]
fn a_title_match_wins_for_a_query_of_several_words() {
    let in_title = score_track(&track("the band x live", "q", "r"), "band x");
    let in_secondary = score_track(&track("zzz", "band x", "band x"), "band x");
    assert_eq!(in_title, 600 + 600 + 600 + 200);
    assert_eq!(in_secondary, (337 + 225) + (187 + 125) + (75 + 50) + 200);
    assert!(in_title > in_secondary);
}

#[test]
fn track_scores_add_up_over_title_artist_and_album() {
    assert_eq!(score_track(&track("Blue", "Blue", "Blue"), "blue"), 2700 + 337 + 225);
    assert_eq!(score_track(&track("x", "Blues Band", "y"), "BLUE"), 112 + 75);
    assert_eq!(score_track(&track("x", "y", "Kind of Blue"), "blue"), 50);
    assert_eq!(score_track(&track("x", "y", "Blue"), "blue"), 100 + 75 + 50);
    assert_eq!(score_track(&track("x", "y", "z"), "blue"), 0);
}

#[test]
fn scores_compare_in_unicode_lowercase() {
    assert_eq!(score_track(&track("ÉTÉ", "q", "r"), "été"), 2700);
    assert_eq!(score_track(&track("Straße", "q", "r"), "STRASSE"), 0);
    assert_eq!(score_artist(&artist("ÅSA"), "åsa"), 2700);
    assert_eq!(lowered("ÀbC"), cs("àbc"));
}

#[test]
fn a_query_of_several_words_scores_each_word_and_their_coverage() {
    let t = track("Song A", "Band X", "LP 1");
    assert_eq!(score_track(&t, "Band X"), 337 + 187 + 75 + 200);
    assert_eq!(score_track(&t, "band"), 187);
    assert_eq!(score_track(&t, "x"), 75);
    assert_eq!(score_track(&t, "  band  "), 0);
    assert_eq!(score_track(&t, "x x"), 75 + 75 + 100);
    assert_eq!(score_track(&t, "x zebra"), 75 + 100);
    assert_eq!(score_track(&t, "zebra quagga"), 0);
    assert_eq!(score_track(&t, "song band lp"), (900 + 600) + (112 + 75) + (75 + 50) + 300);
    assert_eq!(score_artist(&artist("Band X"), "Band X"), 2700 + 1500 + 600 + 200);
}

#[test]
fn an_item_score_is_weighted_in_thousandths() {
    assert_eq!(score_item("abc", "", "abc", 1000), 2250);
    assert_eq!(score_item("abc", "", "abc", 500), 1125);
    assert_eq!(score_item("abc", "", "abc", 1500), 3375);
    assert_eq!(score_item("abc", "", "abc", 0), 0);
    assert_eq!(score_item("abc", "", "abc", 1), 2);
    assert_eq!(score_item("ABC", "", "abc", u32::MAX), 2250u128 * 4294967295u128 / 1000);
    assert_eq!(score_item("Song", "Band", "band", 1000), 450);
    assert_eq!(score_item("Song", "The Band", "band", 1000), 100);
    assert_eq!(score_item("Song", "Bandits", "band", 1000), 250);
    assert_eq!(score_item("Band", "Band", "band", 1000), 2250 + 450);
    assert_eq!(score_item("x", "y", "band", 1000), 0);
}

#[test]
fn an_empty_secondary_text_is_left_out() {
    assert_eq!(score_item("abc", "", "", 1000), 1250);
    assert_eq!(score_item("abc", "x", "", 1000), 1250 + 250);
    assert_eq!(score_item_lowered(&cs(""), &cs(""), &cs(""), 1000), 2250);
}

#[test]
fn an_album_earns_a_bonus_for_its_year() {
    assert_eq!(score_album(&album("Hits", "Band", Some(2001)), "2001"), 200);
    assert_eq!(score_album(&album("Hits", "Band", Some(2001)), "2002"), 0);
    assert_eq!(score_album(&album("Hits", "Band", None), "2001"), 0);
    assert_eq!(score_album(&album("2001", "Band", Some(2001)), "2001"), 2700 + 200);
    assert_eq!(score_album(&album("Hits", "Band", Some(7)), "07"), 0);
    assert_eq!(score_album(&album("Hits", "Band", Some(0)), "0"), 200);
    assert_eq!(score_album(&album("Hits", "Band", None), "band"), 337);
    assert_eq!(score_album(&album("Hits", "Band", None), "hit"), 1500);
    assert_eq!(score_album_lowered(&cs("hits"), &cs("band"), Some(1999), &cs("1999")), 200);
}

#[test]
fn lowered_scores_take_their_arguments_as_they_are() {
    assert_eq!(score_track_lowered(&cs("abc"), &cs("q"), &cs("r"), &cs("abc")), 2700);
    assert_eq!(score_track_lowered(&cs("ABC"), &cs("q"), &cs("r"), &cs("abc")), 0);
    assert_eq!(score_artist_lowered(&cs("abc"), &cs("ab")), 1500);
    let fields = vec![
        FieldWeight { text: cs("one two"), base: 100 },
        FieldWeight { text: cs("three"), base: 40 },
    ];
    assert_eq!(term_score_of(&fields, &cs("three")), 40 + 30 + 20);
    assert_eq!(term_score_of(&fields, &cs("t")), 50 + 30 + 20);
    assert!(term_matches_of(&fields, &cs("two")));
    assert!(!term_matches_of(&fields, &cs("four")));
    assert_eq!(score_fields(&fields, &cs("two three")), 0 + 50 + 90 + 200);
    assert_eq!(score_fields(&Vec::new(), &cs("a b")), 0);
}

fn candidate(matched: bool, score: u128, key: &str) -> Candidate {
    Candidate { matched, score, key: cs(key) }
}

#[test]
fn candidates_are_ordered_by_score_then_by_key_then_by_position() {
    let candidates = vec![
        candidate(true, 5, "m"),
        candidate(false, 0, "a"),
        candidate(true, 9, "z"),
        candidate(true, 5, "b"),
        candidate(true, 9, "z"),
        candidate(false, 100, "a"),
        candidate(true, 0, "a"),
        candidate(true, 7, "q"),
        candidate(true, 5, "ba"),
        candidate(true, 5, ""),
        candidate(true, 9, "Z"),
    ];
    assert_eq!(rank(&candidates), vec![10, 2, 4, 7, 9, 3, 8, 0, 6]);
    assert_eq!(rank(&Vec::new()), Vec::<usize>::new());
}

#[test]
fn one_candidate_goes_before_another_by_score_key_and_position() {
    assert!(comes_first(&candidate(true, 2, "z"), 9, &candidate(true, 1, "a"), 0));
    assert!(!comes_first(&candidate(true, 1, "a"), 0, &candidate(true, 2, "z"), 9));
    assert!(comes_first(&candidate(true, 1, "a"), 9, &candidate(true, 1, "b"), 0));
    assert!(!comes_first(&candidate(true, 1, "b"), 0, &candidate(true, 1, "a"), 9));
    assert!(comes_first(&candidate(true, 1, "a"), 0, &candidate(true, 1, "a"), 1));
    assert!(!comes_first(&candidate(true, 1, "a"), 1, &candidate(true, 1, "a"), 0));
    assert!(!comes_first(&candidate(true, 1, "a"), 1, &candidate(true, 1, "a"), 1));
}

#[test]
fn ties_in_rank_go_to_the_title_that_comes_first() {
    let tracks = vec![
        track("beta one", "q", "r"),
        track("alpha one", "q", "r"),
        track("one", "q", "r"),
        track("gamma one", "q", "r"),
        track("alpha one", "q2", "r"),
    ];
    let ranked = rank_tracks(&tracks, "one", 1000, 10, 0);
    assert_eq!(titles(&ranked), vec!["one", "alpha one", "alpha one", "beta one", "gamma one"]);
    assert_eq!(ranked[1].artist, "q");
    assert_eq!(ranked[2].artist, "q2");
}

#[test]
fn the_ranking_does_not_depend_on_the_stored_order() {
    let forward = vec![track("b x", "q", "r"), track("a x", "q", "r"), track("x", "q", "r"), track("c x", "q", "r")];
    let mut backward = vec![track("b x", "q", "r"), track("a x", "q", "r"), track("x", "q", "r"), track("c x", "q", "r")];
    backward.reverse();
    assert_eq!(
        titles(&rank_tracks(&forward, "x", 1000, 10, 0)),
        titles(&rank_tracks(&backward, "x", 1000, 10, 0))
    );
}

#[test]
fn unmatched_candidates_are_excluded_not_ranked_last() {
    let tracks = vec![track("aaa", "q", "r"), track("bbb", "q", "r")];
    assert!(rank_tracks(&tracks, "zzz", 1000, 10, 0).is_empty());
    assert_eq!(titles(&rank_tracks(&tracks, "bb", 1000, 10, 0)), vec!["bbb"]);
    assert!(rank_tracks(&Vec::new(), "a", 1000, 10, 0).is_empty());
}

#[test]
fn a_weight_of_zero_keeps_the_matches_and_orders_them_by_title() {
    let tracks = vec![track("xabc", "q", "r"), track("abc", "q", "r"), track("zzz", "q", "r")];
    assert_eq!(titles(&rank_tracks(&tracks, "abc", 0, 10, 0)), vec!["abc", "xabc"]);
    let tracks = vec![track("abc", "q", "r"), track("Zabc", "q", "r"), track("zzz", "q", "r")];
    assert_eq!(titles(&rank_tracks(&tracks, "abc", 0, 10, 0)), vec!["Zabc", "abc"]);
    assert_eq!(titles(&rank_tracks(&tracks, "abc", 1, 10, 0)), vec!["abc", "Zabc"]);
}

#[test]
fn ranked_pages_follow_the_full_ranking_without_overlap_or_gap() {
    let mut tracks = Vec::new();
    for i in 0..12 {
        let title = if i % 3 == 0 {
            "a".to_string()
        } else if i % 3 == 1 {
            format!("a{}", i)
        } else {
            format!("b a{}", i)
        };
        tracks.push(track(&title, &format!("q{}", i), "r"));
    }
    let all = rank_tracks(&tracks, "a", 1000, usize::MAX, 0);
    assert_eq!(all.len(), 12);
    let first = rank_tracks(&tracks, "a", 5, 0, 0);
    assert!(first.is_empty());
    let first = rank_tracks(&tracks, "a", 1000, 5, 0);
    let second = rank_tracks(&tracks, "a", 1000, 5, 5);
    let third = rank_tracks(&tracks, "a", 1000, 5, 10);
    let ids = |v: &Vec<Track>| -> Vec<String> { v.iter().map(|t| t.id.clone()).collect() };
    let mut joined = ids(&first);
    joined.extend(ids(&second));
    joined.extend(ids(&third));
    assert_eq!(joined, ids(&all));
    assert_eq!(second.len(), 5);
    assert_eq!(ids(&second), ids(&all)[5..10].to_vec());
    assert_eq!(titles(&first), vec!["a", "a", "a", "a", "a1"]);
    assert!(rank_tracks(&tracks, "a", 1000, 5, 12).is_empty());
}

#[test]
fn albums_and_artists_are_ranked_as_tracks_are() {
    let albums = vec![
        album("Greatest Hits", "Band", None),
        album("Hits", "Other", None),
        album("Nothing", "Hitsville", None),
        album("None", "None", None),
    ];
    let ranked: Vec<String> = rank_albums(&albums, "hits", 1000, 10, 0).iter().map(|a| a.title.clone()).collect();
    assert_eq!(ranked, vec!["Hits", "Greatest Hits", "Nothing"]);
    let paged: Vec<String> = rank_albums(&albums, "hits", 1000, 1, 1).iter().map(|a| a.title.clone()).collect();
    assert_eq!(paged, vec!["Greatest Hits"]);
    let artists = vec![artist("The Band"), artist("Band"), artist("Bandits"), artist("Solo")];
    let ranked: Vec<String> = rank_artists(&artists, "band", 1000, 10, 0).iter().map(|a| a.name.clone()).collect();
    assert_eq!(ranked, vec!["Band", "Bandits", "The Band"]);
}

fn results(tracks: Vec<Track>, albums: Vec<Album>, artists: Vec<Artist>) -> SearchResults {
    SearchResults {
        tracks: tracks
            .into_iter()
            .map(|t| PlayableItem { track: t, provider: "local".to_string(), added_at: 1 })
            .collect(),
        albums,
        artists,
    }
}

#[test]
fn the_top_result_is_the_best_of_the_three_first_hits() {
    let r = results(vec![track("abc", "q", "r")], vec![album("abcd", "x", None)], vec![artist("zabc")]);
    let top = determine_top_result(&r, "abc");
    assert!(matches!(top, Some(ref s) if s.score == 2700 && matches!(s.result_type, SearchResultType::Track(_))));

    let r = results(vec![track("zabc", "q", "r")], vec![album("abcd", "x", None)], vec![artist("abc")]);
    let top = determine_top_result(&r, "abc");
    assert!(matches!(top, Some(ref s) if s.score == 2700 && matches!(s.result_type, SearchResultType::Artist(ref a) if a.name == "abc")));

    let r = results(vec![track("zabc", "q", "r")], vec![album("abc", "x", None)], vec![artist("abcd")]);
    let top = determine_top_result(&r, "abc");
    assert!(matches!(top, Some(ref s) if s.score == 2700 && matches!(s.result_type, SearchResultType::Album(_))));
}

#[test]
fn the_top_result_prefers_the_track_then_the_artist_on_equal_scores() {
    let r = results(vec![track("abc", "q", "r")], vec![album("abc", "x", None)], vec![artist("abc")]);
    let top = determine_top_result(&r, "abc");
    assert!(matches!(top, Some(ref s) if matches!(s.result_type, SearchResultType::Track(_))));
    let r = results(Vec::new(), vec![album("abc", "x", None)], vec![artist("abc")]);
    let top = determine_top_result(&r, "abc");
    assert!(matches!(top, Some(ref s) if matches!(s.result_type, SearchResultType::Artist(_))));
    let r = results(vec![track("nothing", "q", "r")], Vec::new(), Vec::new());
    let top = determine_top_result(&r, "abc");
    assert!(matches!(top, Some(ref s) if s.score == 0 && matches!(s.result_type, SearchResultType::Track(_))));
}

#[test]
fn there_is_no_top_result_without_results() {
    assert!(determine_top_result(&results(Vec::new(), Vec::new(), Vec::new()), "abc").is_none());
}

#[test]
fn the_default_weights_leave_scores_as_they_are() {
    let w = SearchWeights::default();
    assert_eq!((w.track_weight, w.album_weight, w.artist_weight), (1000, 1000, 1000));
}
