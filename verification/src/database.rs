//! The catalog store: the authoritative collection of tracks, albums and
//! artists, held in memory.

use crate::catalog::{
    album_artwork_set, album_fallback, album_hit, album_member, album_orphaned_by,
    album_row_from, album_slot, album_survives, all_albums, all_artists, artist_fallback,
    artist_hit, artist_orphaned_by, artist_row_from, artist_slot, artist_survives,
    carries_artwork, catalog_wf, empty_catalog, ensure_album, ensure_artist, found_albums,
    found_artists, found_tracks, has_album, has_artist, has_track, is_album,
    is_album_cover_track, is_artist_cover_track, has_rows, lemma_push_keeps_rows,
    lemma_rows_follow, lemma_update_keeps_albums, lemma_update_keeps_artists, lemma_upsert_rows,
    lemma_without_path_wf, lends_to_album,
    lends_to_artist, named_album, named_artist, new_album_row, new_artist_row, number_rank,
    off_path, put_album, put_artist, seeded_from, shown_album, shown_artist, stored_album,
    stored_artist, stored_artwork, stored_opt_artwork, stored_track, track_hit, track_paths,
    track_slot, upsert, upsert_all, with_album_artwork, with_artist_artwork,
    with_member_artwork, without_path, without_paths, CatalogView,
};
use crate::error::ServiceError;
use crate::identity::{album_id_of, stable_id_of};
use crate::models::{
    album_views, artist_views, copy_opt_bytes, copy_opt_text, copy_texts, opt_artwork_view,
    track_views, Album, Artist, Artwork, ArtworkSource, PlaybackSource, Track,
};
use crate::paging::{page, page_of};
use crate::text::{ascii_fold, contains_chars, fold_ascii, is_substring, text_equals};
use vstd::prelude::*;
use vstd::string::StringExecFns;

verus! {

/// The catalog store. Tracks are unique by identifier, albums by title and
/// artist, artists by name.
#[derive(Debug)]
pub struct Database {
    tracks: Vec<Track>,
    albums: Vec<Album>,
    artists: Vec<Artist>,
}

impl View for Database {
    type V = CatalogView;

    closed spec fn view(&self) -> CatalogView {
        CatalogView {
            tracks: track_views(self.tracks@),
            albums: album_views(self.albums@),
            artists: artist_views(self.artists@),
        }
    }
}

/// Artwork in the form in which the catalog keeps it.
pub fn store_artwork(artwork: &Artwork) -> (r: Artwork)
    ensures
        r@ == stored_artwork(artwork@),
{
    let full_art = match &artwork.full_art {
        ArtworkSource::Local { path } => {
            if !path.as_str().is_empty() {
                ArtworkSource::Local { path: path.clone() }
            } else {
                ArtworkSource::Absent
            }
        },
        _ => ArtworkSource::Absent,
    };
    Artwork { thumbnail: copy_opt_bytes(&artwork.thumbnail), full_art }
}

/// A track in the form in which the catalog keeps it.
pub fn store_track(track: &Track) -> (r: Track)
    ensures
        r@ == stored_track(track@),
{
    let source = match &track.source {
        PlaybackSource::Local { file_format, file_size, path } => PlaybackSource::Local {
            file_format: file_format.clone(),
            file_size: *file_size,
            path: path.clone(),
        },
        _ => PlaybackSource::Local {
            file_format: String::new(),
            file_size: 0,
            path: String::new(),
        },
    };
    Track {
        id: track.id.clone(),
        title: track.title.clone(),
        artist: track.artist.clone(),
        album: track.album.clone(),
        duration: track.duration,
        track_number: track.track_number,
        disc_number: track.disc_number,
        release_year: track.release_year,
        genre: copy_opt_text(&track.genre),
        artwork: store_artwork(&track.artwork),
        source,
    }
}

/// Whether a track's backing file is at `path`.
pub fn track_is_at(track: &Track, path: &String) -> (r: bool)
    ensures
        r == (track@.source.path() == path@),
{
    match &track.source {
        PlaybackSource::Local { path: own, .. } => *own == *path,
        _ => {
            let empty = path.as_str().is_empty();
            assert(empty == (track@.source.path() == path@)) by {
                if empty {
                    assert(path@ =~= Seq::<char>::empty());
                }
            }
            empty
        },
    }
}

/// Whether a track carries artwork that an album or artist can borrow.
pub fn track_carries_artwork(track: &Track) -> (r: bool)
    ensures
        r == carries_artwork(track@),
{
    if track.artwork.thumbnail.is_some() {
        return true;
    }
    match &track.artwork.full_art {
        ArtworkSource::Local { .. } => true,
        _ => false,
    }
}

/// Whether `field`, with its ASCII capitals turned into small letters,
/// contains the text `folded`.
fn field_contains(field: &String, folded: &Vec<char>) -> (r: bool)
    ensures
        r == is_substring(ascii_fold(field@), folded@),
{
    let own = fold_ascii(field.as_str());
    contains_chars(&own, folded)
}

/// Optional artwork in the form in which the catalog keeps it.
pub fn store_opt_artwork(artwork: &Option<Artwork>) -> (r: Option<Artwork>)
    ensures
        opt_artwork_view(r) == stored_opt_artwork(opt_artwork_view(*artwork)),
{
    match artwork {
        Some(a) => Some(store_artwork(a)),
        None => None,
    }
}

impl Database {
    /// The uniqueness rules hold of the store's contents.
    pub open spec fn wf(&self) -> bool {
        catalog_wf(self@)
    }

    /// An empty store.
    pub fn new() -> (r: Result<Database, ServiceError>)
        ensures
            r matches Ok(db) && db.wf() && db@ == empty_catalog(),
    {
        let db = Database { tracks: Vec::new(), albums: Vec::new(), artists: Vec::new() };
        assert(db@.tracks =~= Seq::empty());
        assert(db@.albums =~= Seq::empty());
        assert(db@.artists =~= Seq::empty());
        Ok(db)
    }

    /// The position of the track with the identifier.
    fn find_track(&self, id: &String) -> (r: Option<usize>)
        requires
            self.wf(),
        ensures
            match r {
                Some(i) => i < self@.tracks.len() && has_track(self@.tracks, id@) && track_slot(
                    self@.tracks,
                    id@,
                ) == i,
                None => !has_track(self@.tracks, id@),
            },
    {
        let mut i: usize = 0;
        while i < self.tracks.len()
            invariant
                i <= self.tracks.len(),
                self.wf(),
                forall|k: int| 0 <= k < i ==> (#[trigger] self@.tracks[k]).id != id@,
            decreases self.tracks.len() - i,
        {
            if self.tracks[i].id == *id {
                assert(self@.tracks[i as int].id == id@);
                let ghost slot = track_slot(self@.tracks, id@);
                assert(self@.tracks[slot].id == id@);
                return Some(i);
            }
            i += 1;
        }
        None
    }

    /// The position of the album with the title and artist.
    fn find_album(&self, title: &String, artist: &String) -> (r: Option<usize>)
        requires
            self.wf(),
        ensures
            match r {
                Some(i) => i < self@.albums.len() && has_album(self@.albums, title@, artist@)
                    && album_slot(self@.albums, title@, artist@) == i,
                None => !has_album(self@.albums, title@, artist@),
            },
    {
        let mut i: usize = 0;
        while i < self.albums.len()
            invariant
                i <= self.albums.len(),
                self.wf(),
                forall|k: int| 0 <= k < i ==> !is_album(#[trigger] self@.albums[k], title@, artist@),
            decreases self.albums.len() - i,
        {
            if self.albums[i].title == *title && self.albums[i].artist == *artist {
                assert(is_album(self@.albums[i as int], title@, artist@));
                let ghost slot = album_slot(self@.albums, title@, artist@);
                assert(is_album(self@.albums[slot], title@, artist@));
                return Some(i);
            }
            i += 1;
        }
        None
    }

    /// The position of the artist with the name.
    fn find_artist(&self, name: &String) -> (r: Option<usize>)
        requires
            self.wf(),
        ensures
            match r {
                Some(i) => i < self@.artists.len() && has_artist(self@.artists, name@)
                    && artist_slot(self@.artists, name@) == i,
                None => !has_artist(self@.artists, name@),
            },
    {
        let mut i: usize = 0;
        while i < self.artists.len()
            invariant
                i <= self.artists.len(),
                self.wf(),
                forall|k: int| 0 <= k < i ==> (#[trigger] self@.artists[k]).name != name@,
            decreases self.artists.len() - i,
        {
            if self.artists[i].name == *name {
                assert(self@.artists[i as int].name == name@);
                let ghost slot = artist_slot(self@.artists, name@);
                assert(self@.artists[slot].name == name@);
                return Some(i);
            }
            i += 1;
        }
        None
    }

    /// Makes sure that a row for the artist exists.
    fn ensure_artist(&mut self, artist: &str)
        requires
            old(self).wf(),
        ensures
            final(self).wf(),
            final(self)@ == (CatalogView {
                artists: ensure_artist(old(self)@.artists, artist@),
                ..old(self)@
            }),
    {
        let name = String::from_str(artist);
        if self.find_artist(&name).is_none() {
            let row = Artist {
                id: stable_id_of(artist),
                name,
                albums: Vec::new(),
                artwork: None,
            };
            assert(row@ == new_artist_row(artist@)) by {
                assert(row@.albums =~= Seq::empty());
            }
            self.artists.push(row);
            assert(self@.artists =~= old(self)@.artists.push(new_artist_row(artist@)));
            proof {
                let before = old(self)@;
                lemma_push_keeps_rows(
                    before.albums,
                    new_album_row(artist@, artist@, None),
                    before.artists,
                    new_artist_row(artist@),
                );
                lemma_rows_follow(
                    before.tracks,
                    before.albums,
                    before.artists,
                    self@.albums,
                    self@.artists,
                );
            }
        }
    }

    /// Makes sure that a row for the album exists.
    fn ensure_album(&mut self, title: &str, artist: &str, year: Option<u32>)
        requires
            old(self).wf(),
        ensures
            final(self).wf(),
            final(self)@ == (CatalogView {
                albums: ensure_album(old(self)@.albums, title@, artist@, year),
                ..old(self)@
            }),
    {
        let title_text = String::from_str(title);
        let artist_text = String::from_str(artist);
        if self.find_album(&title_text, &artist_text).is_none() {
            let row = Album {
                id: album_id_of(title, artist),
                title: title_text,
                artist: artist_text,
                year,
                art_url: None,
                tracks: Vec::new(),
                artwork: None,
            };
            assert(row@ == new_album_row(title@, artist@, year)) by {
                assert(row@.tracks =~= Seq::empty());
            }
            self.albums.push(row);
            assert(self@.albums =~= old(self)@.albums.push(new_album_row(title@, artist@, year)));
            proof {
                let before = old(self)@;
                lemma_push_keeps_rows(
                    before.albums,
                    new_album_row(title@, artist@, year),
                    before.artists,
                    new_artist_row(artist@),
                );
                lemma_rows_follow(
                    before.tracks,
                    before.albums,
                    before.artists,
                    self@.albums,
                    self@.artists,
                );
            }
        }
    }

    /// Stores a track: in place of the track with its identifier where there
    /// is one, else as a new row. Rows for its artist and album are created
    /// where they are missing, and left as they are where they exist.
    pub fn insert_track(&mut self, track: &Track) -> (r: Result<(), ServiceError>)
        requires
            old(self).wf(),
        ensures
            r is Ok,
            final(self).wf(),
            final(self)@ == upsert(old(self)@, track@),
    {
        self.ensure_artist(track.artist.as_str());
        self.ensure_album(track.album.as_str(), track.artist.as_str(), track.release_year);
        let row = store_track(track);
        match self.find_track(&track.id) {
            Some(i) => {
                let ghost before = self@.tracks;
                self.tracks.set(i, row);
                assert(self@.tracks =~= before.update(i as int, stored_track(track@)));
            },
            None => {
                let ghost before = self@.tracks;
                self.tracks.push(row);
                assert(self@.tracks =~= before.push(stored_track(track@)));
            },
        }
        proof {
            lemma_upsert_rows(old(self)@, track@);
        }
        Ok(())
    }

    /// Every track, in the order in which the rows were first stored.
    pub fn get_all_tracks(&self) -> (r: Result<Vec<Track>, ServiceError>)
        requires
            self.wf(),
        ensures
            r matches Ok(tracks) && track_views(tracks@) == self@.tracks,
    {
        let mut out: Vec<Track> = Vec::new();
        let mut i: usize = 0;
        while i < self.tracks.len()
            invariant
                i <= self.tracks.len(),
                out.len() == i,
                forall|k: int| 0 <= k < i ==> out@[k]@ == self.tracks@[k]@,
            decreases self.tracks.len() - i,
        {
            out.push(self.tracks[i].clone());
            i += 1;
        }
        assert(track_views(out@) =~= self@.tracks);
        Ok(out)
    }

    /// Whether removing the tracks at `path` leaves the album without members.
    fn album_orphaned(&self, path: &String, title: &String, artist: &String) -> (r: bool)
        ensures
            r == album_orphaned_by(self@.tracks, path@, title@, artist@),
    {
        let mut gone: bool = false;
        let mut left: bool = false;
        let mut i: usize = 0;
        while i < self.tracks.len()
            invariant
                i <= self.tracks.len(),
                gone <==> exists|k: int|
                    0 <= k < i && album_member(#[trigger] self@.tracks[k], title@, artist@)
                        && self@.tracks[k].source.path() == path@,
                left <==> exists|k: int|
                    0 <= k < i && album_member(#[trigger] self@.tracks[k], title@, artist@)
                        && self@.tracks[k].source.path() != path@,
            decreases self.tracks.len() - i,
        {
            let t = &self.tracks[i];
            assert(t@ == self@.tracks[i as int]);
            if t.album == *title && t.artist == *artist {
                if track_is_at(t, path) {
                    gone = true;
                } else {
                    left = true;
                }
            }
            i += 1;
        }
        gone && !left
    }

    /// Whether removing the tracks at `path` leaves the artist without tracks.
    fn artist_orphaned(&self, path: &String, name: &String) -> (r: bool)
        ensures
            r == artist_orphaned_by(self@.tracks, path@, name@),
    {
        let mut gone: bool = false;
        let mut left: bool = false;
        let mut i: usize = 0;
        while i < self.tracks.len()
            invariant
                i <= self.tracks.len(),
                gone <==> exists|k: int|
                    0 <= k < i && (#[trigger] self@.tracks[k]).artist == name@
                        && self@.tracks[k].source.path() == path@,
                left <==> exists|k: int|
                    0 <= k < i && (#[trigger] self@.tracks[k]).artist == name@
                        && self@.tracks[k].source.path() != path@,
            decreases self.tracks.len() - i,
        {
            let t = &self.tracks[i];
            assert(t@ == self@.tracks[i as int]);
            if t.artist == *name {
                if track_is_at(t, path) {
                    gone = true;
                } else {
                    left = true;
                }
            }
            i += 1;
        }
        gone && !left
    }

    /// Removes the tracks whose backing file is at `path`, then each album
    /// and artist that had a track there and has none left. Does nothing
    /// where no track is at `path`.
    pub fn remove_track_by_path(&mut self, path: &str) -> (r: Result<(), ServiceError>)
        requires
            old(self).wf(),
        ensures
            r is Ok,
            final(self).wf(),
            final(self)@ == without_path(old(self)@, path@),
    {
        let path_text = String::from_str(path);
        let ghost before = self@;

        let mut albums: Vec<Album> = Vec::new();
        let mut i: usize = 0;
        while i < self.albums.len()
            invariant
                i <= self.albums.len(),
                self@ == before,
                path_text@ == path@,
                album_views(albums@) == before.albums.take(i as int).filter(
                    album_survives(before.tracks, path@),
                ),
            decreases self.albums.len() - i,
        {
            proof {
                reveal(Seq::filter);
                assert(before.albums.take(i + 1).drop_last() == before.albums.take(i as int));
            }
            let row = &self.albums[i];
            assert(row@ == before.albums[i as int]);
            let ghost kept = album_views(albums@);
            if !self.album_orphaned(&path_text, &row.title, &row.artist) {
                albums.push(row.clone());
                assert(album_views(albums@) =~= kept.push(before.albums[i as int]));
            }
            i += 1;
        }
        assert(before.albums.take(self.albums.len() as int) == before.albums);

        let mut artists: Vec<Artist> = Vec::new();
        let mut j: usize = 0;
        while j < self.artists.len()
            invariant
                j <= self.artists.len(),
                self@ == before,
                path_text@ == path@,
                artist_views(artists@) == before.artists.take(j as int).filter(
                    artist_survives(before.tracks, path@),
                ),
            decreases self.artists.len() - j,
        {
            proof {
                reveal(Seq::filter);
                assert(before.artists.take(j + 1).drop_last() == before.artists.take(j as int));
            }
            let row = &self.artists[j];
            assert(row@ == before.artists[j as int]);
            let ghost kept = artist_views(artists@);
            if !self.artist_orphaned(&path_text, &row.name) {
                artists.push(row.clone());
                assert(artist_views(artists@) =~= kept.push(before.artists[j as int]));
            }
            j += 1;
        }
        assert(before.artists.take(self.artists.len() as int) == before.artists);

        let mut tracks: Vec<Track> = Vec::new();
        let mut k: usize = 0;
        while k < self.tracks.len()
            invariant
                k <= self.tracks.len(),
                self@ == before,
                path_text@ == path@,
                track_views(tracks@) == before.tracks.take(k as int).filter(off_path(path@)),
            decreases self.tracks.len() - k,
        {
            proof {
                reveal(Seq::filter);
                assert(before.tracks.take(k + 1).drop_last() == before.tracks.take(k as int));
            }
            let row = &self.tracks[k];
            assert(row@ == before.tracks[k as int]);
            let ghost kept = track_views(tracks@);
            if !track_is_at(row, &path_text) {
                tracks.push(row.clone());
                assert(track_views(tracks@) =~= kept.push(before.tracks[k as int]));
            }
            k += 1;
        }
        assert(before.tracks.take(self.tracks.len() as int) == before.tracks);

        self.tracks = tracks;
        self.albums = albums;
        self.artists = artists;
        proof {
            lemma_without_path_wf(before, path@);
        }
        Ok(())
    }

    /// The artwork that the album borrows from its tracks.
    fn album_artwork(&self, title: &String, artist: &String) -> (r: Option<Artwork>)
        ensures
            opt_artwork_view(r) == album_fallback(self@.tracks, title@, artist@),
    {
        let ghost tracks = self@.tracks;
        let mut best: Option<usize> = None;
        let mut best_number: Option<u32> = None;
        let mut i: usize = 0;
        while i < self.tracks.len()
            invariant
                i <= self.tracks.len(),
                tracks == self@.tracks,
                match best {
                    Some(b) => b < i && lends_to_album(tracks, title@, artist@, b as int)
                        && best_number == tracks[b as int].track_number && forall|j: int|
                        0 <= j < i && #[trigger] lends_to_album(tracks, title@, artist@, j)
                            ==> number_rank(tracks[b as int]) < number_rank(tracks[j]) || (
                        number_rank(tracks[b as int]) == number_rank(tracks[j]) && b <= j),
                    None => forall|j: int|
                        0 <= j < i ==> !#[trigger] lends_to_album(tracks, title@, artist@, j),
                },
            decreases self.tracks.len() - i,
        {
            let t = &self.tracks[i];
            assert(t@ == tracks[i as int]);
            if t.album == *title && t.artist == *artist && track_carries_artwork(t) {
                assert(lends_to_album(tracks, title@, artist@, i as int));
                let better = match best {
                    Some(_) => match (t.track_number, best_number) {
                        (None, Some(_)) => true,
                        (Some(n), Some(m)) => n < m,
                        _ => false,
                    },
                    None => true,
                };
                if better {
                    best = Some(i);
                    best_number = t.track_number;
                }
            }
            i += 1;
        }
        match best {
            Some(b) => {
                proof {
                    assert(is_album_cover_track(tracks, title@, artist@, b as int));
                    let c = choose|at: int| is_album_cover_track(tracks, title@, artist@, at);
                    assert(lends_to_album(tracks, title@, artist@, c));
                    assert(c == b);
                }
                Some(self.tracks[b].artwork.clone())
            },
            None => {
                proof {
                    assert forall|at: int| !is_album_cover_track(tracks, title@, artist@, at) by {
                        if lends_to_album(tracks, title@, artist@, at) {
                        }
                    }
                }
                None
            },
        }
    }

    /// The artwork that the artist borrows from its tracks.
    fn artist_artwork(&self, name: &String) -> (r: Option<Artwork>)
        ensures
            opt_artwork_view(r) == artist_fallback(self@.tracks, name@),
    {
        let ghost tracks = self@.tracks;
        let mut i: usize = 0;
        while i < self.tracks.len()
            invariant
                i <= self.tracks.len(),
                tracks == self@.tracks,
                forall|j: int| 0 <= j < i ==> !#[trigger] lends_to_artist(tracks, name@, j),
            decreases self.tracks.len() - i,
        {
            let t = &self.tracks[i];
            assert(t@ == tracks[i as int]);
            if t.artist == *name && track_carries_artwork(t) {
                proof {
                    assert(lends_to_artist(tracks, name@, i as int));
                    assert(is_artist_cover_track(tracks, name@, i as int));
                    let c = choose|at: int| is_artist_cover_track(tracks, name@, at);
                    assert(lends_to_artist(tracks, name@, c));
                    assert(c == i);
                }
                return Some(t.artwork.clone());
            }
            i += 1;
        }
        proof {
            assert forall|at: int| !is_artist_cover_track(tracks, name@, at) by {
                if lends_to_artist(tracks, name@, at) {
                }
            }
        }
        None
    }

    /// An album row as it is shown.
    fn show_album(&self, row: &Album) -> (r: Album)
        ensures
            r@ == shown_album(self@.tracks)(row@),
    {
        let artwork = match &row.artwork {
            Some(own) => Some(own.clone()),
            None => self.album_artwork(&row.title, &row.artist),
        };
        Album {
            id: row.id.clone(),
            title: row.title.clone(),
            artist: row.artist.clone(),
            year: row.year,
            art_url: copy_opt_text(&row.art_url),
            tracks: copy_texts(&row.tracks),
            artwork,
        }
    }

    /// An artist row as it is shown.
    fn show_artist(&self, row: &Artist) -> (r: Artist)
        ensures
            r@ == shown_artist(self@.tracks)(row@),
    {
        let artwork = match &row.artwork {
            Some(own) => Some(own.clone()),
            None => self.artist_artwork(&row.name),
        };
        Artist {
            id: row.id.clone(),
            name: row.name.clone(),
            albums: copy_texts(&row.albums),
            artwork,
        }
    }

    /// Every album but the placeholder album, in stored order. An album
    /// without artwork of its own shows the artwork of its member with the
    /// lowest track number that has any.
    pub fn get_all_albums(&self) -> (r: Result<Vec<Album>, ServiceError>)
        requires
            self.wf(),
        ensures
            r matches Ok(albums) && album_views(albums@) == all_albums(self@),
    {
        let ghost rows = self@.albums;
        let ghost show = shown_album(self@.tracks);
        let mut out: Vec<Album> = Vec::new();
        let mut i: usize = 0;
        while i < self.albums.len()
            invariant
                i <= self.albums.len(),
                rows == self@.albums,
                show == shown_album(self@.tracks),
                album_views(out@) == rows.take(i as int).filter(named_album()).map_values(show),
            decreases self.albums.len() - i,
        {
            proof {
                reveal(Seq::filter);
                assert(rows.take(i + 1).drop_last() == rows.take(i as int));
            }
            let row = &self.albums[i];
            assert(row@ == rows[i as int]);
            let ghost shown = album_views(out@);
            if !text_equals(row.title.as_str(), "Unknown Album") {
                out.push(self.show_album(row));
                assert(album_views(out@) =~= shown.push(show(rows[i as int])));
                assert(rows.take(i + 1).filter(named_album()).map_values(show) =~= shown.push(
                    show(rows[i as int]),
                ));
            }
            i += 1;
        }
        assert(rows.take(self.albums.len() as int) == rows);
        Ok(out)
    }

    /// Every artist but the placeholder artist, in stored order. An artist
    /// without artwork of its own shows the artwork of the first stored
    /// track by that artist that has any.
    pub fn get_all_artists(&self) -> (r: Result<Vec<Artist>, ServiceError>)
        requires
            self.wf(),
        ensures
            r matches Ok(artists) && artist_views(artists@) == all_artists(self@),
    {
        let ghost rows = self@.artists;
        let ghost show = shown_artist(self@.tracks);
        let mut out: Vec<Artist> = Vec::new();
        let mut i: usize = 0;
        while i < self.artists.len()
            invariant
                i <= self.artists.len(),
                rows == self@.artists,
                show == shown_artist(self@.tracks),
                artist_views(out@) == rows.take(i as int).filter(named_artist()).map_values(show),
            decreases self.artists.len() - i,
        {
            proof {
                reveal(Seq::filter);
                assert(rows.take(i + 1).drop_last() == rows.take(i as int));
            }
            let row = &self.artists[i];
            assert(row@ == rows[i as int]);
            let ghost shown = artist_views(out@);
            if !text_equals(row.name.as_str(), "Unknown Artist") {
                out.push(self.show_artist(row));
                assert(artist_views(out@) =~= shown.push(show(rows[i as int])));
                assert(rows.take(i + 1).filter(named_artist()).map_values(show) =~= shown.push(
                    show(rows[i as int]),
                ));
            }
            i += 1;
        }
        assert(rows.take(self.artists.len() as int) == rows);
        Ok(out)
    }

    /// The tracks whose title, artist or album contains the query, ASCII
    /// case aside: of these, in stored order, the window of at most `limit`
    /// after the first `offset`.
    pub fn search_tracks(&self, query: &str, limit: usize, offset: usize) -> (r: Result<
        Vec<Track>,
        ServiceError,
    >)
        requires
            self.wf(),
        ensures
            r matches Ok(tracks) && track_views(tracks@) == page_of(
                found_tracks(self@, query@),
                limit as int,
                offset as int,
            ),
    {
        let folded = fold_ascii(query);
        let ghost rows = self@.tracks;
        let mut out: Vec<Track> = Vec::new();
        let mut i: usize = 0;
        while i < self.tracks.len()
            invariant
                i <= self.tracks.len(),
                rows == self@.tracks,
                folded@ == ascii_fold(query@),
                track_views(out@) == rows.take(i as int).filter(track_hit(query@)),
            decreases self.tracks.len() - i,
        {
            proof {
                reveal(Seq::filter);
                assert(rows.take(i + 1).drop_last() == rows.take(i as int));
            }
            let row = &self.tracks[i];
            assert(row@ == rows[i as int]);
            let ghost hits = track_views(out@);
            if field_contains(&row.title, &folded) || field_contains(&row.artist, &folded) || field_contains(&row.album, &folded) {
                out.push(row.clone());
                assert(track_views(out@) =~= hits.push(rows[i as int]));
            }
            i += 1;
        }
        assert(rows.take(self.tracks.len() as int) == rows);
        let ghost all = track_views(out@);
        let window = page(out, limit, offset);
        assert(track_views(window@) =~= page_of(all, limit as int, offset as int));
        Ok(window)
    }

    /// The named albums whose title or artist contains the query, ASCII
    /// case aside: of these, as shown and in stored order, the window of at
    /// most `limit` after the first `offset`.
    pub fn search_albums(&self, query: &str, limit: usize, offset: usize) -> (r: Result<
        Vec<Album>,
        ServiceError,
    >)
        requires
            self.wf(),
        ensures
            r matches Ok(albums) && album_views(albums@) == page_of(
                found_albums(self@, query@),
                limit as int,
                offset as int,
            ),
    {
        let folded = fold_ascii(query);
        let ghost rows = self@.albums;
        let ghost show = shown_album(self@.tracks);
        let mut out: Vec<Album> = Vec::new();
        let mut i: usize = 0;
        while i < self.albums.len()
            invariant
                i <= self.albums.len(),
                rows == self@.albums,
                show == shown_album(self@.tracks),
                folded@ == ascii_fold(query@),
                album_views(out@) == rows.take(i as int).filter(album_hit(query@)).map_values(
                    show,
                ),
            decreases self.albums.len() - i,
        {
            proof {
                reveal(Seq::filter);
                assert(rows.take(i + 1).drop_last() == rows.take(i as int));
            }
            let row = &self.albums[i];
            assert(row@ == rows[i as int]);
            let ghost shown = album_views(out@);
            if !text_equals(row.title.as_str(), "Unknown Album") && (field_contains(&row.title, &folded) || field_contains(&row.artist, &folded)) {
                out.push(self.show_album(row));
                assert(album_views(out@) =~= shown.push(show(rows[i as int])));
                assert(rows.take(i + 1).filter(album_hit(query@)).map_values(show) =~= shown.push(
                    show(rows[i as int]),
                ));
            }
            i += 1;
        }
        assert(rows.take(self.albums.len() as int) == rows);
        let ghost all = album_views(out@);
        let window = page(out, limit, offset);
        assert(album_views(window@) =~= page_of(all, limit as int, offset as int));
        Ok(window)
    }

    /// The named artists whose name contains the query, ASCII case aside:
    /// of these, as shown and in stored order, the window of at most
    /// `limit` after the first `offset`.
    pub fn search_artists(&self, query: &str, limit: usize, offset: usize) -> (r: Result<
        Vec<Artist>,
        ServiceError,
    >)
        requires
            self.wf(),
        ensures
            r matches Ok(artists) && artist_views(artists@) == page_of(
                found_artists(self@, query@),
                limit as int,
                offset as int,
            ),
    {
        let folded = fold_ascii(query);
        let ghost rows = self@.artists;
        let ghost show = shown_artist(self@.tracks);
        let mut out: Vec<Artist> = Vec::new();
        let mut i: usize = 0;
        while i < self.artists.len()
            invariant
                i <= self.artists.len(),
                rows == self@.artists,
                show == shown_artist(self@.tracks),
                folded@ == ascii_fold(query@),
                artist_views(out@) == rows.take(i as int).filter(artist_hit(query@)).map_values(
                    show,
                ),
            decreases self.artists.len() - i,
        {
            proof {
                reveal(Seq::filter);
                assert(rows.take(i + 1).drop_last() == rows.take(i as int));
            }
            let row = &self.artists[i];
            assert(row@ == rows[i as int]);
            let ghost shown = artist_views(out@);
            if !text_equals(row.name.as_str(), "Unknown Artist") && field_contains(&row.name, &folded) {
                out.push(self.show_artist(row));
                assert(artist_views(out@) =~= shown.push(show(rows[i as int])));
                assert(rows.take(i + 1).filter(artist_hit(query@)).map_values(show) =~= shown.push(
                    show(rows[i as int]),
                ));
            }
            i += 1;
        }
        assert(rows.take(self.artists.len() as int) == rows);
        let ghost all = artist_views(out@);
        let window = page(out, limit, offset);
        assert(artist_views(window@) =~= page_of(all, limit as int, offset as int));
        Ok(window)
    }

    /// Stores the tracks one after another, as one step: afterwards all of
    /// them are in the store.
    pub fn batch_insert_tracks(&mut self, tracks: &Vec<Track>) -> (r: Result<(), ServiceError>)
        requires
            old(self).wf(),
        ensures
            r is Ok,
            final(self).wf(),
            final(self)@ == upsert_all(old(self)@, track_views(tracks@)),
    {
        let ghost all = track_views(tracks@);
        let mut i: usize = 0;
        while i < tracks.len()
            invariant
                i <= tracks.len(),
                all == track_views(tracks@),
                self.wf(),
                self@ == upsert_all(old(self)@, all.take(i as int)),
            decreases tracks.len() - i,
        {
            assert(all.take(i + 1).drop_last() == all.take(i as int));
            assert(all.take(i + 1).last() == tracks@[i as int]@);
            let _ = self.insert_track(&tracks[i]);
            i += 1;
        }
        assert(all.take(tracks.len() as int) == all);
        Ok(())
    }

    /// The paths of the backing files of all tracks, in stored order.
    pub fn stored_paths(&self) -> (r: Vec<String>)
        ensures
            r.deep_view() == track_paths(self@.tracks),
    {
        let mut out: Vec<String> = Vec::new();
        let mut i: usize = 0;
        while i < self.tracks.len()
            invariant
                i <= self.tracks.len(),
                out.len() == i,
                forall|k: int| 0 <= k < i ==> out@[k]@ == self@.tracks[k].source.path(),
            decreases self.tracks.len() - i,
        {
            let path = match &self.tracks[i].source {
                PlaybackSource::Local { path, .. } => path.clone(),
                _ => String::new(),
            };
            assert(path@ =~= self@.tracks[i as int].source.path());
            out.push(path);
            i += 1;
        }
        assert(out.deep_view() =~= track_paths(self@.tracks));
        out
    }

    /// Sweeps the store: removes the tracks at each of the paths whose file
    /// was found missing, with the albums and artists that this leaves
    /// without tracks.
    pub fn cleanup_database(&mut self, missing: &Vec<String>) -> (r: Result<(), ServiceError>)
        requires
            old(self).wf(),
        ensures
            r is Ok,
            final(self).wf(),
            final(self)@ == without_paths(old(self)@, missing.deep_view()),
    {
        let ghost all = missing.deep_view();
        let mut i: usize = 0;
        while i < missing.len()
            invariant
                i <= missing.len(),
                all == missing.deep_view(),
                self.wf(),
                self@ == without_paths(old(self)@, all.take(i as int)),
            decreases missing.len() - i,
        {
            assert(all.take(i + 1).drop_last() == all.take(i as int));
            assert(all.take(i + 1).last() == missing@[i as int]@);
            let _ = self.remove_track_by_path(missing[i].as_str());
            i += 1;
        }
        assert(all.take(missing.len() as int) == all);
        Ok(())
    }

    /// Puts an album row in, whatever it holds.
    fn put_album_row(&mut self, row: Album)
        requires
            old(self).wf(),
        ensures
            final(self).wf(),
            final(self)@ == (CatalogView {
                albums: put_album(old(self)@.albums, row@),
                ..old(self)@
            }),
    {
        let ghost before = self@.albums;
        let ghost put = row@;
        match self.find_album(&row.title, &row.artist) {
            Some(i) => {
                self.albums.set(i, row);
                assert(self@.albums =~= before.update(i as int, put));
                proof {
                    assert(is_album(before[i as int], put.title, put.artist));
                    lemma_update_keeps_albums(before, i as int, put);
                }
            },
            None => {
                self.albums.push(row);
                assert(self@.albums =~= before.push(put));
            },
        }
        proof {
            lemma_push_keeps_rows(
                before,
                put,
                old(self)@.artists,
                new_artist_row(put.artist),
            );
            lemma_rows_follow(
                old(self)@.tracks,
                before,
                old(self)@.artists,
                self@.albums,
                self@.artists,
            );
        }
    }

    /// Puts an artist row in, whatever it holds.
    fn put_artist_row(&mut self, row: Artist)
        requires
            old(self).wf(),
        ensures
            final(self).wf(),
            final(self)@ == (CatalogView {
                artists: put_artist(old(self)@.artists, row@),
                ..old(self)@
            }),
    {
        let ghost before = self@.artists;
        let ghost put = row@;
        match self.find_artist(&row.name) {
            Some(i) => {
                self.artists.set(i, row);
                assert(self@.artists =~= before.update(i as int, put));
                proof {
                    assert(before[i as int].name == put.name);
                    lemma_update_keeps_artists(before, i as int, put);
                }
            },
            None => {
                self.artists.push(row);
                assert(self@.artists =~= before.push(put));
            },
        }
        proof {
            lemma_push_keeps_rows(
                old(self)@.albums,
                new_album_row(put.name, put.name, None),
                before,
                put,
            );
            lemma_rows_follow(
                old(self)@.tracks,
                old(self)@.albums,
                before,
                self@.albums,
                self@.artists,
            );
        }
    }

    /// Stores an artist: in place of the artist with the same name where
    /// there is one, else as a new row.
    pub fn insert_artist(&mut self, artist: &Artist) -> (r: Result<(), ServiceError>)
        requires
            old(self).wf(),
        ensures
            r is Ok,
            final(self).wf(),
            final(self)@ == (CatalogView {
                artists: put_artist(old(self)@.artists, stored_artist(artist@)),
                ..old(self)@
            }),
    {
        let row = Artist {
            id: artist.id.clone(),
            name: artist.name.clone(),
            albums: Vec::new(),
            artwork: store_opt_artwork(&artist.artwork),
        };
        assert(row@ == stored_artist(artist@)) by {
            assert(row@.albums =~= Seq::empty());
        }
        self.put_artist_row(row);
        Ok(())
    }

    /// Stores an album: in place of the album with the same title and
    /// artist where there is one, else as a new row.
    pub fn insert_album(&mut self, album: &Album) -> (r: Result<(), ServiceError>)
        requires
            old(self).wf(),
        ensures
            r is Ok,
            final(self).wf(),
            final(self)@ == (CatalogView {
                albums: put_album(old(self)@.albums, stored_album(album@)),
                ..old(self)@
            }),
    {
        let row = Album {
            id: album.id.clone(),
            title: album.title.clone(),
            artist: album.artist.clone(),
            year: album.year,
            art_url: None,
            tracks: Vec::new(),
            artwork: store_opt_artwork(&album.artwork),
        };
        assert(row@ == stored_album(album@)) by {
            assert(row@.tracks =~= Seq::empty());
        }
        self.put_album_row(row);
        Ok(())
    }

    /// Gives the artist named `artist_name` the artwork; does nothing where
    /// there is no such artist.
    pub fn update_artist_artwork(&mut self, artist_name: &str, artwork: &Artwork) -> (r: Result<
        (),
        ServiceError,
    >)
        requires
            old(self).wf(),
        ensures
            r is Ok,
            final(self).wf(),
            final(self)@ == (CatalogView {
                artists: with_artist_artwork(old(self)@.artists, artist_name@, artwork@),
                ..old(self)@
            }),
    {
        let name = String::from_str(artist_name);
        let ghost before = self@.artists;
        match self.find_artist(&name) {
            Some(i) => {
                let row = Artist {
                    id: self.artists[i].id.clone(),
                    name: self.artists[i].name.clone(),
                    albums: copy_texts(&self.artists[i].albums),
                    artwork: Some(store_artwork(artwork)),
                };
                let ghost put = row@;
                self.artists.set(i, row);
                assert(self@.artists =~= with_artist_artwork(before, artist_name@, artwork@));
                proof {
                    assert(before[i as int].name == put.name);
                    lemma_update_keeps_artists(before, i as int, put);
                    assert(self@.artists =~= before.update(i as int, put));
                    lemma_push_keeps_rows(
                        old(self)@.albums,
                        new_album_row(put.name, put.name, None),
                        before,
                        put,
                    );
                    lemma_rows_follow(
                        old(self)@.tracks,
                        old(self)@.albums,
                        before,
                        self@.albums,
                        self@.artists,
                    );
                }
            },
            None => {},
        }
        Ok(())
    }

    /// Gives the album the artwork, and with it every track of the album;
    /// the album's row is left alone where there is none.
    pub fn update_album_artwork(&mut self, title: &str, artist: &str, artwork: &Artwork) -> (r:
        Result<(), ServiceError>)
        requires
            old(self).wf(),
        ensures
            r is Ok,
            final(self).wf(),
            final(self)@ == album_artwork_set(old(self)@, title@, artist@, artwork@),
    {
        let title_text = String::from_str(title);
        let artist_text = String::from_str(artist);
        let ghost before = self@;
        match self.find_album(&title_text, &artist_text) {
            Some(i) => {
                let row = Album {
                    id: self.albums[i].id.clone(),
                    title: self.albums[i].title.clone(),
                    artist: self.albums[i].artist.clone(),
                    year: self.albums[i].year,
                    art_url: copy_opt_text(&self.albums[i].art_url),
                    tracks: copy_texts(&self.albums[i].tracks),
                    artwork: Some(store_artwork(artwork)),
                };
                let ghost put = row@;
                self.albums.set(i, row);
                assert(self@.albums =~= with_album_artwork(
                    before.albums,
                    title@,
                    artist@,
                    artwork@,
                ));
                proof {
                    assert(is_album(before.albums[i as int], put.title, put.artist));
                    lemma_update_keeps_albums(before.albums, i as int, put);
                    assert(self@.albums =~= before.albums.update(i as int, put));
                }
            },
            None => {},
        }
        proof {
            lemma_push_keeps_rows(
                before.albums,
                new_album_row(title@, artist@, None),
                before.artists,
                new_artist_row(artist@),
            );
            lemma_rows_follow(
                before.tracks,
                before.albums,
                before.artists,
                self@.albums,
                self@.artists,
            );
        }
        let ghost new_albums = self@.albums;
        let ghost target = with_member_artwork(before.tracks, title@, artist@, artwork@);
        let mut k: usize = 0;
        while k < self.tracks.len()
            invariant
                k <= self.tracks.len(),
                title_text@ == title@,
                artist_text@ == artist@,
                target == with_member_artwork(before.tracks, title@, artist@, artwork@),
                self@.albums == with_album_artwork(before.albums, title@, artist@, artwork@),
                self@.albums == new_albums,
                self@.artists == before.artists,
                self@.tracks.len() == before.tracks.len(),
                forall|j: int| 0 <= j < k ==> self@.tracks[j] == target[j],
                forall|j: int| k <= j < self@.tracks.len() ==> self@.tracks[j] == before.tracks[j],
            decreases self.tracks.len() - k,
        {
            if self.tracks[k].album == title_text && self.tracks[k].artist == artist_text {
                let t = &self.tracks[k];
                let row = Track {
                    id: t.id.clone(),
                    title: t.title.clone(),
                    artist: t.artist.clone(),
                    album: t.album.clone(),
                    duration: t.duration,
                    track_number: t.track_number,
                    disc_number: t.disc_number,
                    release_year: t.release_year,
                    genre: copy_opt_text(&t.genre),
                    artwork: store_artwork(artwork),
                    source: t.source.clone(),
                };
                let ghost tracks_before = self@.tracks;
                self.tracks.set(k, row);
                assert(self@.tracks =~= tracks_before.update(k as int, target[k as int]));
            }
            k += 1;
        }
        assert(self@.tracks =~= target);
        assert(crate::catalog::distinct_track_ids(self@.tracks)) by {
            assert forall|i: int, j: int|
                #![trigger self@.tracks[i], self@.tracks[j]]
                0 <= i < j < self@.tracks.len() implies self@.tracks[i].id != self@.tracks[j].id by {
                assert(target[i].id == before.tracks[i].id);
                assert(target[j].id == before.tracks[j].id);
            }
        }
        assert forall|j: int| 0 <= j < self@.tracks.len() implies has_rows(
            #[trigger] self@.tracks[j],
            self@.albums,
            self@.artists,
        ) by {
            assert(has_rows(before.tracks[j], new_albums, before.artists));
            assert(target[j].artist == before.tracks[j].artist);
            assert(target[j].album == before.tracks[j].album);
        }
        Ok(())
    }

    /// Lets every track that carries artwork lend it to its album and its
    /// artist, in stored order: a later track replaces what an earlier one
    /// lent. The rows are created where they are missing.
    pub fn initialize_artwork(&mut self) -> (r: Result<(), ServiceError>)
        requires
            old(self).wf(),
        ensures
            r is Ok,
            final(self).wf(),
            final(self)@ == seeded_from(old(self)@, old(self)@.tracks),
    {
        let ghost tracks = self@.tracks;
        let mut i: usize = 0;
        while i < self.tracks.len()
            invariant
                i <= self.tracks.len(),
                self.wf(),
                self@.tracks == tracks,
                tracks == old(self)@.tracks,
                self@ == seeded_from(old(self)@, tracks.take(i as int)),
            decreases self.tracks.len() - i,
        {
            assert(tracks.take(i + 1).drop_last() == tracks.take(i as int));
            assert(tracks.take(i + 1).last() == tracks[i as int]);
            if track_carries_artwork(&self.tracks[i]) {
                let t = &self.tracks[i];
                let album_row = Album {
                    id: album_id_of(t.album.as_str(), t.artist.as_str()),
                    title: t.album.clone(),
                    artist: t.artist.clone(),
                    year: None,
                    art_url: None,
                    tracks: Vec::new(),
                    artwork: Some(t.artwork.clone()),
                };
                let artist_row = Artist {
                    id: stable_id_of(t.artist.as_str()),
                    name: t.artist.clone(),
                    albums: Vec::new(),
                    artwork: Some(t.artwork.clone()),
                };
                assert(album_row@ == album_row_from(tracks[i as int])) by {
                    assert(album_row@.tracks =~= Seq::empty());
                }
                assert(artist_row@ == artist_row_from(tracks[i as int])) by {
                    assert(artist_row@.albums =~= Seq::empty());
                }
                self.put_album_row(album_row);
                self.put_artist_row(artist_row);
            }
            i += 1;
        }
        assert(tracks.take(self.tracks.len() as int) == tracks);
        Ok(())
    }
}

} // verus!
