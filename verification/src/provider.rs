//! The library provider for local files: it applies scans and filesystem
//! events to its catalog and answers queries from it.

use crate::catalog::{
    all_albums, all_artists, catalog_wf, empty_catalog, lemma_listed_artists, upsert,
    upsert_all, without_path, CatalogView,
};
use crate::database::Database;
use crate::error::ServiceError;
use crate::models::{
    album_views, artist_views, item_views, track_views, unknown_artist, Album, Artist,
    PlayableItem, PlayableItemView, SearchResults, SearchWeights, Track, TrackView,
};
use crate::paging::page_of;
use crate::ranking::{
    artist_candidates, lemma_ranked_artists_are_the_matches, rank_albums, rank_artists,
    rank_tracks, ranked, ranked_albums, ranked_artists, ranked_tracks,
};
use crate::text::{is_substring, lowercase};
use crate::scanner::{
    is_music_path, probed_track, scanned_tracks, scanned_views, FileScanner, ProbeOutcome,
    ProbeOutcomeView, ScannedFile,
};
use crate::watcher::{FileEvent, FileEventView};
use vstd::prelude::*;
use vstd::string::StringExecFns;

verus! {

/// How many files a scan probes before it stores what it found.
pub const SCAN_CHUNK: usize = 5;

/// The name under which the provider's tracks are handed out.
pub open spec fn provider_name() -> Seq<char> {
    "local"@
}

/// What is to be done about a filesystem event before it can be applied.
#[derive(Debug)]
pub enum EventPlan {
    /// Probe the file at the path, then apply the event with the outcome.
    Probe(String),
    /// Apply the event as it is: the tracks at the path are to be removed.
    Remove(String),
    /// Nothing: the event does not concern a music file.
    Skip,
}

/// The mathematical view of a [`EventPlan`].
pub enum EventPlanView {
    Probe(Seq<char>),
    Remove(Seq<char>),
    Skip,
}

impl View for EventPlan {
    type V = EventPlanView;

    open spec fn view(&self) -> EventPlanView {
        match *self {
            EventPlan::Probe(p) => EventPlanView::Probe(p@),
            EventPlan::Remove(p) => EventPlanView::Remove(p@),
            EventPlan::Skip => EventPlanView::Skip,
        }
    }
}

/// The plan for an event: a created or modified music file is probed, a
/// removed music file is removed, and anything else is skipped.
pub open spec fn planned(event: FileEventView) -> EventPlanView {
    if !is_music_path(event.path()) {
        EventPlanView::Skip
    } else {
        match event {
            FileEventView::Created(p) => EventPlanView::Probe(p),
            FileEventView::Modified(p) => EventPlanView::Probe(p),
            FileEventView::Removed(p) => EventPlanView::Remove(p),
        }
    }
}

/// The catalog after an event is applied. A created or modified music file
/// is stored where probing it gave a track, and changes nothing where it
/// gave none; a removed music file takes its tracks with it; any other
/// event changes nothing.
pub open spec fn event_applied(
    c: CatalogView,
    event: FileEventView,
    outcome: ProbeOutcomeView,
) -> CatalogView {
    match planned(event) {
        EventPlanView::Probe(path) => match probed_track(path, outcome) {
            Some(track) => upsert(c, track),
            None => c,
        },
        EventPlanView::Remove(path) => without_path(c, path),
        EventPlanView::Skip => c,
    }
}

/// The next rescan ticket after `ticket`.
pub open spec fn next_ticket(ticket: u64) -> u64 {
    if ticket == u64::MAX {
        0
    } else {
        (ticket + 1) as u64
    }
}

/// Where the chunk of a scan that starts at `start` ends.
pub open spec fn chunk_end(total: int, start: int) -> int {
    if start + SCAN_CHUNK as int <= total {
        start + SCAN_CHUNK as int
    } else if start <= total {
        total
    } else {
        start
    }
}

/// Storing two batches one after the other is storing the two as one: a
/// scan that stores its files chunk by chunk passes only through catalogs
/// that hold whole chunks, and ends where one big batch would.
pub proof fn lemma_batches_compose(c: CatalogView, first: Seq<TrackView>, second: Seq<TrackView>)
    ensures
        upsert_all(upsert_all(c, first), second) == upsert_all(c, first + second),
    decreases second.len(),
{
    if second.len() == 0 {
        assert(first + second =~= first);
    } else {
        lemma_batches_compose(c, first, second.drop_last());
        assert((first + second).drop_last() =~= first + second.drop_last());
        assert((first + second).last() == second.last());
    }
}

/// A search for the name of an artist returns that artist exactly once.
/// Where a stored track is by an artist, not the placeholder, whose name
/// contains the query, both in lowercase, one and only one of the ranked
/// artists has that name, however many tracks the artist has.
pub proof fn lemma_artist_is_found_once(c: CatalogView, query: Seq<char>, weight: u32, track: int)
    requires
        catalog_wf(c),
        0 <= track < c.tracks.len(),
        c.tracks[track].artist != unknown_artist(),
        is_substring(lowercase(c.tracks[track].artist), lowercase(query)),
    ensures
        exists|k: int|
            0 <= k < ranked_artists(all_artists(c), query, weight).len() && (
            #[trigger] ranked_artists(all_artists(c), query, weight)[k]).name
                == c.tracks[track].artist && forall|l: int|
                0 <= l < ranked_artists(all_artists(c), query, weight).len() && l != k ==> (
                #[trigger] ranked_artists(all_artists(c), query, weight)[l]).name
                    != c.tracks[track].artist,
{
    let name = c.tracks[track].artist;
    let listed = all_artists(c);
    let found = ranked_artists(listed, query, weight);
    let order = ranked(artist_candidates(listed, query, weight));
    lemma_listed_artists(c);
    lemma_ranked_artists_are_the_matches(listed, query, weight);
    let a = choose|a: int| 0 <= a < listed.len() && (#[trigger] listed[a]).name == name;
    assert(order.contains(a));
    let k = choose|k: int| 0 <= k < order.len() && order[k] == a;
    assert(found[k].name == name);
    assert forall|l: int| 0 <= l < found.len() && l != k implies (#[trigger] found[l]).name
        != name by {
        assert(found[l] == listed[order[l]]);
        if l < k {
            assert(order[l] != order[k]);
        } else {
            assert(order[k] != order[l]);
        }
        if order[l] < a {
            assert(listed[order[l]].name != listed[a].name);
        } else {
            assert(listed[a].name != listed[order[l]].name);
        }
    }
}

/// The provider of the tracks under one folder.
#[derive(Debug)]
pub struct LocalMusicProvider {
    music_dir: String,
    db: Database,
    ticket: u64,
}

impl LocalMusicProvider {
    /// The folder that the provider indexes.
    pub closed spec fn music_dir(&self) -> Seq<char> {
        self.music_dir@
    }

    /// The contents of the provider's catalog.
    pub closed spec fn catalog(&self) -> CatalogView {
        self.db@
    }

    /// The ticket of the rescan that was requested last.
    pub closed spec fn ticket(&self) -> u64 {
        self.ticket
    }

    /// The catalog obeys its uniqueness rules.
    pub open spec fn wf(&self) -> bool {
        catalog_wf(self.catalog())
    }

    /// A provider for the folder, with an empty catalog.
    pub fn new(music_dir: &str) -> (r: Result<LocalMusicProvider, ServiceError>)
        ensures
            r matches Ok(p) && p.wf() && p.music_dir() == music_dir@ && p.catalog()
                == empty_catalog() && p.ticket() == 0,
    {
        match Database::new() {
            Ok(db) => Ok(LocalMusicProvider { music_dir: String::from_str(music_dir), db, ticket: 0 }),
            Err(e) => Err(e),
        }
    }

    /// The folder that the provider indexes.
    pub fn root(&self) -> (r: &String)
        ensures
            r@ == self.music_dir(),
    {
        &self.music_dir
    }

    /// Where the chunk of a scan of `total` files that starts at `start`
    /// ends.
    pub fn next_chunk_end(total: usize, start: usize) -> (r: usize)
        ensures
            r == chunk_end(total as int, start as int),
    {
        if start > total {
            start
        } else if total - start >= SCAN_CHUNK {
            start + SCAN_CHUNK
        } else {
            total
        }
    }

    /// What is to be done about an event before it can be applied.
    pub fn plan_file_event(event: &FileEvent) -> (r: EventPlan)
        ensures
            r@ == planned(event@),
    {
        if !FileScanner::is_music_file_public(event.path().as_str()) {
            return EventPlan::Skip;
        }
        match event {
            FileEvent::Created(p) => EventPlan::Probe(p.clone()),
            FileEvent::Modified(p) => EventPlan::Probe(p.clone()),
            FileEvent::Removed(p) => EventPlan::Remove(p.clone()),
        }
    }

    /// Applies a filesystem event to the catalog. `outcome` is what probing
    /// the event's file gave; it is read only where the plan for the event
    /// is to probe. A file that could not be probed is skipped.
    pub fn handle_file_event(&mut self, event: &FileEvent, outcome: &ProbeOutcome)
        requires
            old(self).wf(),
        ensures
            final(self).wf(),
            final(self).catalog() == event_applied(old(self).catalog(), event@, outcome@),
            final(self).music_dir() == old(self).music_dir(),
            final(self).ticket() == old(self).ticket(),
    {
        match Self::plan_file_event(event) {
            EventPlan::Probe(path) => {
                match FileScanner::process_file(path.as_str(), outcome) {
                    Ok(track) => {
                        let _ = self.db.insert_track(&track);
                    },
                    Err(_) => {},
                }
            },
            EventPlan::Remove(path) => {
                let _ = self.db.remove_track_by_path(path.as_str());
            },
            EventPlan::Skip => {},
        }
    }

    /// Stores one chunk of a scan as one batch: the tracks of the files
    /// that could be probed, in the order of the files. Files that could
    /// not be probed are skipped.
    pub fn process_files_batch(&mut self, scanned: &Vec<ScannedFile>)
        requires
            old(self).wf(),
        ensures
            final(self).wf(),
            final(self).catalog() == upsert_all(
                old(self).catalog(),
                scanned_tracks(scanned_views(scanned@)),
            ),
            final(self).music_dir() == old(self).music_dir(),
            final(self).ticket() == old(self).ticket(),
    {
        let tracks = collect_tracks(scanned);
        if tracks.len() > 0 {
            let _ = self.db.batch_insert_tracks(&tracks);
        }
    }

    /// Replaces the catalog by a fresh one built from a full scan. The old
    /// catalog answers queries until the new one is complete.
    pub fn rescan_library(&mut self, scanned: &Vec<ScannedFile>) -> (r: Result<(), ServiceError>)
        ensures
            r is Ok,
            final(self).wf(),
            final(self).catalog() == upsert_all(
                empty_catalog(),
                scanned_tracks(scanned_views(scanned@)),
            ),
            final(self).music_dir() == old(self).music_dir(),
            final(self).ticket() == old(self).ticket(),
    {
        match build_catalog(scanned) {
            Ok(fresh) => {
                self.db = fresh;
                Ok(())
            },
            Err(e) => Err(e),
        }
    }

    /// Announces a rescan and returns its ticket. A rescan that was
    /// announced before is superseded from now on.
    pub fn begin_rescan(&mut self) -> (r: u64)
        ensures
            r == next_ticket(old(self).ticket()),
            final(self).ticket() == r,
            final(self).catalog() == old(self).catalog(),
            final(self).music_dir() == old(self).music_dir(),
    {
        self.ticket = if self.ticket == u64::MAX {
            0
        } else {
            self.ticket + 1
        };
        self.ticket
    }

    /// Ends the rescan with the given ticket: where no later rescan was
    /// announced, the fresh catalog takes the place of the old one in one
    /// step; where one was, the fresh catalog is discarded and nothing
    /// changes. Says whether the catalog was replaced.
    pub fn finish_rescan(&mut self, ticket: u64, fresh: Database) -> (r: bool)
        requires
            fresh.wf(),
            old(self).wf(),
        ensures
            r == (ticket == old(self).ticket()),
            final(self).wf(),
            final(self).catalog() == if r {
                fresh@
            } else {
                old(self).catalog()
            },
            final(self).ticket() == old(self).ticket(),
            final(self).music_dir() == old(self).music_dir(),
    {
        if ticket == self.ticket {
            self.db = fresh;
            true
        } else {
            false
        }
    }
}

/// The tracks of the scanned files that could be probed, in order.
pub fn collect_tracks(scanned: &Vec<ScannedFile>) -> (r: Vec<Track>)
    ensures
        track_views(r@) == scanned_tracks(scanned_views(scanned@)),
{
    let ghost all = scanned_views(scanned@);
    let mut tracks: Vec<Track> = Vec::new();
    let mut i: usize = 0;
    assert(track_views(tracks@) =~= scanned_tracks(all.take(0)));
    while i < scanned.len()
        invariant
            i <= scanned.len(),
            all == scanned_views(scanned@),
            track_views(tracks@) == scanned_tracks(all.take(i as int)),
        decreases scanned.len() - i,
    {
        assert(all.take(i + 1).drop_last() == all.take(i as int));
        assert(all.take(i + 1).last() == scanned@[i as int]@);
        let ghost earlier = track_views(tracks@);
        match FileScanner::process_file(scanned[i].path.as_str(), &scanned[i].outcome) {
            Ok(track) => {
                tracks.push(track);
                assert(track_views(tracks@) =~= earlier.push(track@));
            },
            Err(_) => {},
        }
        i += 1;
    }
    assert(all.take(scanned.len() as int) == all);
    tracks
}

/// A fresh catalog that holds the tracks of the scanned files.
pub fn build_catalog(scanned: &Vec<ScannedFile>) -> (r: Result<Database, ServiceError>)
    ensures
        r matches Ok(db) && db.wf() && db@ == upsert_all(
            empty_catalog(),
            scanned_tracks(scanned_views(scanned@)),
        ),
{
    match Database::new() {
        Ok(db) => {
            let mut db = db;
            let tracks = collect_tracks(scanned);
            let _ = db.batch_insert_tracks(&tracks);
            Ok(db)
        },
        Err(e) => Err(e),
    }
}

/// The tracks wrapped for playback: each with the provider's name and the
/// moment given.
pub open spec fn wrapped(tracks: Seq<TrackView>, now: i64) -> Seq<PlayableItemView> {
    Seq::new(
        tracks.len(),
        |i: int| PlayableItemView { track: tracks[i], provider: provider_name(), added_at: now },
    )
}

/// Wraps tracks for playback.
pub fn wrap_tracks(tracks: Vec<Track>, now: i64) -> (r: Vec<PlayableItem>)
    ensures
        item_views(r@) == wrapped(track_views(tracks@), now),
{
    let ghost all = track_views(tracks@);
    let mut items: Vec<PlayableItem> = Vec::new();
    let mut i: usize = 0;
    while i < tracks.len()
        invariant
            i <= tracks.len(),
            all == track_views(tracks@),
            items.len() == i,
            forall|k: int|
                0 <= k < i ==> items@[k]@ == (PlayableItemView {
                    track: all[k],
                    provider: provider_name(),
                    added_at: now,
                }),
        decreases tracks.len() - i,
    {
        items.push(
            PlayableItem {
                track: tracks[i].clone(),
                provider: String::from_str("local"),
                added_at: now,
            },
        );
        i += 1;
    }
    assert(item_views(items@) =~= wrapped(all, now));
    items
}

impl LocalMusicProvider {
    /// Every track of the catalog, in stored order.
    pub fn get_tracks(&self) -> (r: Result<Vec<Track>, ServiceError>)
        requires
            self.wf(),
        ensures
            r matches Ok(tracks) && track_views(tracks@) == self.catalog().tracks,
    {
        self.db.get_all_tracks()
    }

    /// Every album of the catalog but the placeholder album.
    pub fn get_albums(&self) -> (r: Result<Vec<Album>, ServiceError>)
        requires
            self.wf(),
        ensures
            r matches Ok(albums) && album_views(albums@) == all_albums(self.catalog()),
    {
        self.db.get_all_albums()
    }

    /// Every artist of the catalog but the placeholder artist.
    pub fn get_artists(&self) -> (r: Result<Vec<Artist>, ServiceError>)
        requires
            self.wf(),
        ensures
            r matches Ok(artists) && artist_views(artists@) == all_artists(self.catalog()),
    {
        self.db.get_all_artists()
    }

    /// The tracks that match the query, best first: the window of at most
    /// `limit` after the first `offset`. Empty where nothing matches.
    pub fn search_tracks(&self, query: &str, limit: usize, offset: usize) -> (r: Result<
        Vec<Track>,
        ServiceError,
    >)
        requires
            self.wf(),
        ensures
            r matches Ok(tracks) && track_views(tracks@) == page_of(
                ranked_tracks(self.catalog().tracks, query@, 1000),
                limit as int,
                offset as int,
            ),
    {
        match self.db.get_all_tracks() {
            Ok(all) => Ok(rank_tracks(&all, query, 1000, limit, offset)),
            Err(e) => Err(e),
        }
    }

    /// The tracks that match the query, as `search_tracks` returns them.
    pub fn search(&self, query: &str, limit: usize, offset: usize) -> (r: Result<
        Vec<Track>,
        ServiceError,
    >)
        requires
            self.wf(),
        ensures
            r matches Ok(tracks) && track_views(tracks@) == page_of(
                ranked_tracks(self.catalog().tracks, query@, 1000),
                limit as int,
                offset as int,
            ),
    {
        self.search_tracks(query, limit, offset)
    }

    /// The albums that match the query, best first, the placeholder album
    /// never among them: the window of at most `limit` after the first
    /// `offset`.
    pub fn search_albums(&self, query: &str, limit: usize, offset: usize) -> (r: Result<
        Vec<Album>,
        ServiceError,
    >)
        requires
            self.wf(),
        ensures
            r matches Ok(albums) && album_views(albums@) == page_of(
                ranked_albums(all_albums(self.catalog()), query@, 1000),
                limit as int,
                offset as int,
            ),
    {
        match self.db.get_all_albums() {
            Ok(all) => Ok(rank_albums(&all, query, 1000, limit, offset)),
            Err(e) => Err(e),
        }
    }

    /// The artists that match the query, best first, the placeholder artist
    /// never among them: the window of at most `limit` after the first
    /// `offset`.
    pub fn search_artists(&self, query: &str, limit: usize, offset: usize) -> (r: Result<
        Vec<Artist>,
        ServiceError,
    >)
        requires
            self.wf(),
        ensures
            r matches Ok(artists) && artist_views(artists@) == page_of(
                ranked_artists(all_artists(self.catalog()), query@, 1000),
                limit as int,
                offset as int,
            ),
    {
        match self.db.get_all_artists() {
            Ok(all) => Ok(rank_artists(&all, query, 1000, limit, offset)),
            Err(e) => Err(e),
        }
    }

    /// Searches tracks, albums and artists at once. Each kind is ranked by
    /// its own weighted score and paged on its own; the three lists are
    /// never merged. The tracks are wrapped for playback with the moment
    /// `now`, in milliseconds since the Unix epoch.
    pub fn search_all(
        &self,
        query: &str,
        weights: &SearchWeights,
        limit: usize,
        offset: usize,
        now: i64,
    ) -> (r: Result<SearchResults, ServiceError>)
        requires
            self.wf(),
        ensures
            r matches Ok(found) && item_views(found.tracks@) == wrapped(
                page_of(
                    ranked_tracks(self.catalog().tracks, query@, weights.track_weight),
                    limit as int,
                    offset as int,
                ),
                now,
            ) && album_views(found.albums@) == page_of(
                ranked_albums(all_albums(self.catalog()), query@, weights.album_weight),
                limit as int,
                offset as int,
            ) && artist_views(found.artists@) == page_of(
                ranked_artists(all_artists(self.catalog()), query@, weights.artist_weight),
                limit as int,
                offset as int,
            ),
    {
        let all_tracks = match self.db.get_all_tracks() {
            Ok(all) => all,
            Err(e) => {
                return Err(e);
            },
        };
        let all_albums = match self.db.get_all_albums() {
            Ok(all) => all,
            Err(e) => {
                return Err(e);
            },
        };
        let all_artists = match self.db.get_all_artists() {
            Ok(all) => all,
            Err(e) => {
                return Err(e);
            },
        };
        let tracks = rank_tracks(&all_tracks, query, weights.track_weight, limit, offset);
        let albums = rank_albums(&all_albums, query, weights.album_weight, limit, offset);
        let artists = rank_artists(&all_artists, query, weights.artist_weight, limit, offset);
        Ok(SearchResults { tracks: wrap_tracks(tracks, now), albums, artists })
    }
}

} // verus!
