//! The catalog as a mathematical value: three ordered tables and the
//! operations on them that the store implements.

use crate::identity::{album_key_text, stable_id};
use crate::models::{
    unknown_album, unknown_artist, AlbumView, ArtistView, ArtworkSourceView, ArtworkView,
    PlaybackSourceView, TrackView,
};
use crate::text::contains_ignoring_ascii_case;
use vstd::prelude::*;

verus! {

/// The contents of a catalog: its tracks, albums and artists, each in the
/// order in which the rows were first stored.
pub struct CatalogView {
    pub tracks: Seq<TrackView>,
    pub albums: Seq<AlbumView>,
    pub artists: Seq<ArtistView>,
}

/// No two tracks share an identifier.
pub open spec fn distinct_track_ids(tracks: Seq<TrackView>) -> bool {
    forall|i: int, j: int|
        #![trigger tracks[i], tracks[j]]
        0 <= i < j < tracks.len() ==> tracks[i].id != tracks[j].id
}

/// Whether an album row is the album with the given title and artist.
pub open spec fn is_album(album: AlbumView, title: Seq<char>, artist: Seq<char>) -> bool {
    album.title == title && album.artist == artist
}

/// No two albums share both title and artist.
pub open spec fn distinct_album_keys(albums: Seq<AlbumView>) -> bool {
    forall|i: int, j: int|
        #![trigger albums[i], albums[j]]
        0 <= i < j < albums.len() ==> !is_album(albums[i], albums[j].title, albums[j].artist)
}

/// No two artists share a name.
pub open spec fn distinct_artist_names(artists: Seq<ArtistView>) -> bool {
    forall|i: int, j: int|
        #![trigger artists[i], artists[j]]
        0 <= i < j < artists.len() ==> artists[i].name != artists[j].name
}

/// The rules of the three tables: no two rows of a table share their key,
/// and every stored track has a row for its artist and a row for its album.
pub open spec fn catalog_wf(c: CatalogView) -> bool {
    &&& distinct_track_ids(c.tracks)
    &&& distinct_album_keys(c.albums)
    &&& distinct_artist_names(c.artists)
    &&& tracks_have_rows(c.tracks, c.albums, c.artists)
}

/// Some album has the title and artist.
pub open spec fn has_album(albums: Seq<AlbumView>, title: Seq<char>, artist: Seq<char>) -> bool {
    exists|i: int| 0 <= i < albums.len() && is_album(#[trigger] albums[i], title, artist)
}

/// Some artist has the name.
pub open spec fn has_artist(artists: Seq<ArtistView>, name: Seq<char>) -> bool {
    exists|i: int| 0 <= i < artists.len() && #[trigger] artists[i].name == name
}

/// Whether the track has a row for its artist and a row for its album.
pub open spec fn has_rows(track: TrackView, albums: Seq<AlbumView>, artists: Seq<ArtistView>) -> bool {
    has_artist(artists, track.artist) && has_album(albums, track.album, track.artist)
}

/// Every track has a row for its artist and a row for its album.
pub open spec fn tracks_have_rows(
    tracks: Seq<TrackView>,
    albums: Seq<AlbumView>,
    artists: Seq<ArtistView>,
) -> bool {
    forall|i: int| 0 <= i < tracks.len() ==> has_rows(#[trigger] tracks[i], albums, artists)
}

/// Every album of `old` has an album of the same title and artist in `new`.
pub open spec fn albums_kept(old: Seq<AlbumView>, new: Seq<AlbumView>) -> bool {
    forall|i: int|
        0 <= i < old.len() ==> has_album(new, (#[trigger] old[i]).title, old[i].artist)
}

/// Every artist of `old` has an artist of the same name in `new`.
pub open spec fn artists_kept(old: Seq<ArtistView>, new: Seq<ArtistView>) -> bool {
    forall|i: int| 0 <= i < old.len() ==> has_artist(new, (#[trigger] old[i]).name)
}

/// Tracks that have their rows keep them while the tables keep the keys of
/// their rows.
pub proof fn lemma_rows_follow(
    tracks: Seq<TrackView>,
    albums: Seq<AlbumView>,
    artists: Seq<ArtistView>,
    new_albums: Seq<AlbumView>,
    new_artists: Seq<ArtistView>,
)
    requires
        tracks_have_rows(tracks, albums, artists),
        albums_kept(albums, new_albums),
        artists_kept(artists, new_artists),
    ensures
        tracks_have_rows(tracks, new_albums, new_artists),
{
    assert forall|i: int| 0 <= i < tracks.len() implies has_rows(
        #[trigger] tracks[i],
        new_albums,
        new_artists,
    ) by {
        assert(has_rows(tracks[i], albums, artists));
        let a = choose|a: int| 0 <= a < artists.len() && #[trigger] artists[a].name == tracks[i].artist;
        assert(has_artist(new_artists, artists[a].name));
        let b = choose|b: int|
            0 <= b < albums.len() && is_album(#[trigger] albums[b], tracks[i].album, tracks[i].artist);
        assert(has_album(new_albums, albums[b].title, albums[b].artist));
    }
}

/// A table keeps the keys of its rows when a row joins at the end.
pub proof fn lemma_push_keeps_rows(
    albums: Seq<AlbumView>,
    album: AlbumView,
    artists: Seq<ArtistView>,
    artist: ArtistView,
)
    ensures
        albums_kept(albums, albums),
        artists_kept(artists, artists),
        albums_kept(albums, albums.push(album)),
        artists_kept(artists, artists.push(artist)),
        has_album(albums.push(album), album.title, album.artist),
        has_artist(artists.push(artist), artist.name),
{
    assert forall|i: int| 0 <= i < albums.len() implies has_album(
        albums,
        (#[trigger] albums[i]).title,
        albums[i].artist,
    ) by {
        assert(is_album(albums[i], albums[i].title, albums[i].artist));
    }
    assert forall|i: int| 0 <= i < artists.len() implies has_artist(
        artists,
        (#[trigger] artists[i]).name,
    ) by {}
    assert forall|i: int| 0 <= i < albums.len() implies has_album(
        albums.push(album),
        (#[trigger] albums[i]).title,
        albums[i].artist,
    ) by {
        assert(is_album(albums.push(album)[i], albums[i].title, albums[i].artist));
    }
    assert forall|i: int| 0 <= i < artists.len() implies has_artist(
        artists.push(artist),
        (#[trigger] artists[i]).name,
    ) by {
        assert(artists.push(artist)[i].name == artists[i].name);
    }
    assert(is_album(albums.push(album)[albums.len() as int], album.title, album.artist));
    assert(artists.push(artist)[artists.len() as int].name == artist.name);
}

/// A table of albums keeps the keys of its rows when a row is replaced by
/// one of the same title and artist.
pub proof fn lemma_update_keeps_albums(albums: Seq<AlbumView>, at: int, album: AlbumView)
    requires
        0 <= at < albums.len(),
        is_album(albums[at], album.title, album.artist),
    ensures
        albums_kept(albums, albums.update(at, album)),
{
    let new = albums.update(at, album);
    assert forall|i: int| 0 <= i < albums.len() implies has_album(
        new,
        (#[trigger] albums[i]).title,
        albums[i].artist,
    ) by {
        assert(is_album(new[i], albums[i].title, albums[i].artist));
    }
}

/// A table of artists keeps the keys of its rows when a row is replaced by
/// one of the same name.
pub proof fn lemma_update_keeps_artists(artists: Seq<ArtistView>, at: int, artist: ArtistView)
    requires
        0 <= at < artists.len(),
        artists[at].name == artist.name,
    ensures
        artists_kept(artists, artists.update(at, artist)),
{
    let new = artists.update(at, artist);
    assert forall|i: int| 0 <= i < artists.len() implies has_artist(
        new,
        (#[trigger] artists[i]).name,
    ) by {
        assert(new[i].name == artists[i].name);
    }
}

/// The catalog without any row.
pub open spec fn empty_catalog() -> CatalogView {
    CatalogView { tracks: Seq::empty(), albums: Seq::empty(), artists: Seq::empty() }
}

/// Some track has the identifier.
pub open spec fn has_track(tracks: Seq<TrackView>, id: Seq<char>) -> bool {
    exists|i: int| 0 <= i < tracks.len() && #[trigger] tracks[i].id == id
}

/// The position of a track with the identifier, where there is one.
pub open spec fn track_slot(tracks: Seq<TrackView>, id: Seq<char>) -> int {
    choose|i: int| 0 <= i < tracks.len() && #[trigger] tracks[i].id == id
}

/// The position of an album with the title and artist, where there is one.
pub open spec fn album_slot(albums: Seq<AlbumView>, title: Seq<char>, artist: Seq<char>) -> int {
    choose|i: int| 0 <= i < albums.len() && is_album(#[trigger] albums[i], title, artist)
}

/// The position of an artist with the name, where there is one.
pub open spec fn artist_slot(artists: Seq<ArtistView>, name: Seq<char>) -> int {
    choose|i: int| 0 <= i < artists.len() && #[trigger] artists[i].name == name
}

/// Artwork as the catalog keeps it: the thumbnail, and the full art only
/// where it is a local file with a path.
pub open spec fn stored_artwork(artwork: ArtworkView) -> ArtworkView {
    ArtworkView {
        thumbnail: artwork.thumbnail,
        full_art: match artwork.full_art {
            ArtworkSourceView::Local { path } => if path.len() > 0 {
                ArtworkSourceView::Local { path }
            } else {
                ArtworkSourceView::Absent
            },
            _ => ArtworkSourceView::Absent,
        },
    }
}

/// Optional artwork as the catalog keeps it.
pub open spec fn stored_opt_artwork(artwork: Option<ArtworkView>) -> Option<ArtworkView> {
    match artwork {
        Some(a) => Some(stored_artwork(a)),
        None => None,
    }
}

/// A playback source as the catalog keeps it: a local file; of any other
/// source an empty format, size zero and an empty path.
pub open spec fn stored_source(source: PlaybackSourceView) -> PlaybackSourceView {
    match source {
        PlaybackSourceView::Local { file_format, file_size, path } => source,
        _ => PlaybackSourceView::Local {
            file_format: Seq::empty(),
            file_size: 0,
            path: Seq::empty(),
        },
    }
}

/// A track as the catalog keeps it.
pub open spec fn stored_track(track: TrackView) -> TrackView {
    TrackView {
        artwork: stored_artwork(track.artwork),
        source: stored_source(track.source),
        ..track
    }
}

/// An album as the catalog keeps it: without art URL or member list.
pub open spec fn stored_album(album: AlbumView) -> AlbumView {
    AlbumView {
        art_url: None,
        tracks: Seq::empty(),
        artwork: stored_opt_artwork(album.artwork),
        ..album
    }
}

/// An artist as the catalog keeps it: without album list.
pub open spec fn stored_artist(artist: ArtistView) -> ArtistView {
    ArtistView { albums: Seq::empty(), artwork: stored_opt_artwork(artist.artwork), ..artist }
}

/// The row of an artist that is first referenced by a track.
pub open spec fn new_artist_row(name: Seq<char>) -> ArtistView {
    ArtistView { id: stable_id(name), name, albums: Seq::empty(), artwork: None }
}

/// The row of an album that is first referenced by a track.
pub open spec fn new_album_row(
    title: Seq<char>,
    artist: Seq<char>,
    year: Option<u32>,
) -> AlbumView {
    AlbumView {
        id: stable_id(album_key_text(title, artist)),
        title,
        artist,
        year,
        art_url: None,
        tracks: Seq::empty(),
        artwork: None,
    }
}

/// The tracks with one track put in: in place of the track with the same
/// identifier where there is one, else at the end.
pub open spec fn put_track(tracks: Seq<TrackView>, track: TrackView) -> Seq<TrackView> {
    if has_track(tracks, track.id) {
        tracks.update(track_slot(tracks, track.id), track)
    } else {
        tracks.push(track)
    }
}

/// The albums with one album put in: in place of the album with the same
/// title and artist where there is one, else at the end.
pub open spec fn put_album(albums: Seq<AlbumView>, album: AlbumView) -> Seq<AlbumView> {
    if has_album(albums, album.title, album.artist) {
        albums.update(album_slot(albums, album.title, album.artist), album)
    } else {
        albums.push(album)
    }
}

/// The artists with one artist put in: in place of the artist with the same
/// name where there is one, else at the end.
pub open spec fn put_artist(artists: Seq<ArtistView>, artist: ArtistView) -> Seq<ArtistView> {
    if has_artist(artists, artist.name) {
        artists.update(artist_slot(artists, artist.name), artist)
    } else {
        artists.push(artist)
    }
}

/// The artists with a row for `name`: unchanged where one exists.
pub open spec fn ensure_artist(artists: Seq<ArtistView>, name: Seq<char>) -> Seq<ArtistView> {
    if has_artist(artists, name) {
        artists
    } else {
        artists.push(new_artist_row(name))
    }
}

/// The albums with a row for the title and artist: unchanged where one
/// exists.
pub open spec fn ensure_album(
    albums: Seq<AlbumView>,
    title: Seq<char>,
    artist: Seq<char>,
    year: Option<u32>,
) -> Seq<AlbumView> {
    if has_album(albums, title, artist) {
        albums
    } else {
        albums.push(new_album_row(title, artist, year))
    }
}

/// The catalog after a track is stored: the track takes the place of the
/// one with its identifier or joins at the end, and rows for its artist and
/// album exist.
pub open spec fn upsert(c: CatalogView, track: TrackView) -> CatalogView {
    CatalogView {
        tracks: put_track(c.tracks, stored_track(track)),
        albums: ensure_album(c.albums, track.album, track.artist, track.release_year),
        artists: ensure_artist(c.artists, track.artist),
    }
}

/// The catalog after the tracks are stored one after another.
pub open spec fn upsert_all(c: CatalogView, tracks: Seq<TrackView>) -> CatalogView
    decreases tracks.len(),
{
    if tracks.len() == 0 {
        c
    } else {
        upsert(upsert_all(c, tracks.drop_last()), tracks.last())
    }
}

/// Whether a track belongs to the album with the title and artist.
pub open spec fn album_member(track: TrackView, title: Seq<char>, artist: Seq<char>) -> bool {
    track.album == title && track.artist == artist
}

/// The album has a member at `path`, and no member anywhere else: removing
/// the tracks at `path` leaves it without members.
pub open spec fn album_orphaned_by(
    tracks: Seq<TrackView>,
    path: Seq<char>,
    title: Seq<char>,
    artist: Seq<char>,
) -> bool {
    &&& exists|i: int|
        0 <= i < tracks.len() && album_member(#[trigger] tracks[i], title, artist)
            && tracks[i].source.path() == path
    &&& forall|j: int|
        0 <= j < tracks.len() && album_member(#[trigger] tracks[j], title, artist)
            ==> tracks[j].source.path() == path
}

/// The artist has a track at `path`, and no track anywhere else: removing
/// the tracks at `path` leaves the artist without tracks.
pub open spec fn artist_orphaned_by(
    tracks: Seq<TrackView>,
    path: Seq<char>,
    name: Seq<char>,
) -> bool {
    &&& exists|i: int|
        0 <= i < tracks.len() && (#[trigger] tracks[i]).artist == name && tracks[i].source.path()
            == path
    &&& forall|j: int|
        0 <= j < tracks.len() && (#[trigger] tracks[j]).artist == name ==> tracks[j].source.path()
            == path
}

/// The tracks that are not at `path`.
pub open spec fn off_path(path: Seq<char>) -> spec_fn(TrackView) -> bool {
    |t: TrackView| t.source.path() != path
}

/// The albums that keep a member when the tracks at `path` go.
pub open spec fn album_survives(tracks: Seq<TrackView>, path: Seq<char>) -> spec_fn(
    AlbumView,
) -> bool {
    |a: AlbumView| !album_orphaned_by(tracks, path, a.title, a.artist)
}

/// The artists that keep a track when the tracks at `path` go.
pub open spec fn artist_survives(tracks: Seq<TrackView>, path: Seq<char>) -> spec_fn(
    ArtistView,
) -> bool {
    |a: ArtistView| !artist_orphaned_by(tracks, path, a.name)
}

/// The catalog after the tracks at `path` are removed, and with them each
/// album and artist that had a track there and has none left.
pub open spec fn without_path(c: CatalogView, path: Seq<char>) -> CatalogView {
    CatalogView {
        tracks: c.tracks.filter(off_path(path)),
        albums: c.albums.filter(album_survives(c.tracks, path)),
        artists: c.artists.filter(artist_survives(c.tracks, path)),
    }
}

/// The catalog after the tracks at each of the paths are removed, one path
/// after another.
pub open spec fn without_paths(c: CatalogView, paths: Seq<Seq<char>>) -> CatalogView
    decreases paths.len(),
{
    if paths.len() == 0 {
        c
    } else {
        without_path(without_paths(c, paths.drop_last()), paths.last())
    }
}

/// Every element that a filter keeps is an element of the sequence.
pub proof fn lemma_filter_origin<A>(s: Seq<A>, pred: spec_fn(A) -> bool, i: int)
    requires
        0 <= i < s.filter(pred).len(),
    ensures
        exists|k: int| 0 <= k < s.len() && #[trigger] s[k] == s.filter(pred)[i],
    decreases s.len(),
{
    reveal(Seq::filter);
    if s.len() > 0 {
        let rest = s.drop_last().filter(pred);
        if i < rest.len() {
            lemma_filter_origin(s.drop_last(), pred, i);
            let k = choose|k: int| 0 <= k < s.drop_last().len() && #[trigger] s.drop_last()[k] == rest[i];
            assert(s[k] == s.filter(pred)[i]);
        } else {
            assert(s[s.len() - 1] == s.filter(pred)[i]);
        }
    }
}

/// A filter keeps identifiers distinct.
pub proof fn lemma_filter_keeps_track_ids(tracks: Seq<TrackView>, pred: spec_fn(TrackView) -> bool)
    requires
        distinct_track_ids(tracks),
    ensures
        distinct_track_ids(tracks.filter(pred)),
    decreases tracks.len(),
{
    reveal(Seq::filter);
    if tracks.len() > 0 {
        let rest = tracks.drop_last().filter(pred);
        assert(distinct_track_ids(tracks.drop_last())) by {
            assert forall|i: int, j: int|
                #![trigger tracks.drop_last()[i], tracks.drop_last()[j]]
                0 <= i < j < tracks.drop_last().len() implies tracks.drop_last()[i].id
                != tracks.drop_last()[j].id by {
                assert(tracks[i].id != tracks[j].id);
            }
        }
        lemma_filter_keeps_track_ids(tracks.drop_last(), pred);
        if pred(tracks.last()) {
            let out = tracks.filter(pred);
            assert forall|i: int, j: int|
                #![trigger out[i], out[j]]
                0 <= i < j < out.len() implies out[i].id != out[j].id by {
                if j < rest.len() {
                    assert(rest[i].id != rest[j].id);
                } else {
                    lemma_filter_origin(tracks.drop_last(), pred, i);
                    let k = choose|k: int|
                        0 <= k < tracks.drop_last().len() && #[trigger] tracks.drop_last()[k]
                            == rest[i];
                    assert(tracks[k].id != tracks[tracks.len() - 1].id);
                }
            }
        }
    }
}

/// A filter keeps album keys distinct.
pub proof fn lemma_filter_keeps_album_keys(albums: Seq<AlbumView>, pred: spec_fn(AlbumView) -> bool)
    requires
        distinct_album_keys(albums),
    ensures
        distinct_album_keys(albums.filter(pred)),
    decreases albums.len(),
{
    reveal(Seq::filter);
    if albums.len() > 0 {
        let rest = albums.drop_last().filter(pred);
        assert(distinct_album_keys(albums.drop_last())) by {
            assert forall|i: int, j: int|
                #![trigger albums.drop_last()[i], albums.drop_last()[j]]
                0 <= i < j < albums.drop_last().len() implies !is_album(
                albums.drop_last()[i],
                albums.drop_last()[j].title,
                albums.drop_last()[j].artist,
            ) by {
                assert(!is_album(albums[i], albums[j].title, albums[j].artist));
            }
        }
        lemma_filter_keeps_album_keys(albums.drop_last(), pred);
        if pred(albums.last()) {
            let out = albums.filter(pred);
            assert forall|i: int, j: int|
                #![trigger out[i], out[j]]
                0 <= i < j < out.len() implies !is_album(out[i], out[j].title, out[j].artist) by {
                if j < rest.len() {
                    assert(!is_album(rest[i], rest[j].title, rest[j].artist));
                } else {
                    lemma_filter_origin(albums.drop_last(), pred, i);
                    let k = choose|k: int|
                        0 <= k < albums.drop_last().len() && #[trigger] albums.drop_last()[k]
                            == rest[i];
                    let last = albums[albums.len() - 1];
                    assert(!is_album(albums[k], last.title, last.artist));
                }
            }
        }
    }
}

/// A filter keeps artist names distinct.
pub proof fn lemma_filter_keeps_artist_names(
    artists: Seq<ArtistView>,
    pred: spec_fn(ArtistView) -> bool,
)
    requires
        distinct_artist_names(artists),
    ensures
        distinct_artist_names(artists.filter(pred)),
    decreases artists.len(),
{
    reveal(Seq::filter);
    if artists.len() > 0 {
        let rest = artists.drop_last().filter(pred);
        assert(distinct_artist_names(artists.drop_last())) by {
            assert forall|i: int, j: int|
                #![trigger artists.drop_last()[i], artists.drop_last()[j]]
                0 <= i < j < artists.drop_last().len() implies artists.drop_last()[i].name
                != artists.drop_last()[j].name by {
                assert(artists[i].name != artists[j].name);
            }
        }
        lemma_filter_keeps_artist_names(artists.drop_last(), pred);
        if pred(artists.last()) {
            let out = artists.filter(pred);
            assert forall|i: int, j: int|
                #![trigger out[i], out[j]]
                0 <= i < j < out.len() implies out[i].name != out[j].name by {
                if j < rest.len() {
                    assert(rest[i].name != rest[j].name);
                } else {
                    lemma_filter_origin(artists.drop_last(), pred, i);
                    let k = choose|k: int|
                        0 <= k < artists.drop_last().len() && #[trigger] artists.drop_last()[k]
                            == rest[i];
                    assert(artists[k].name != artists[artists.len() - 1].name);
                }
            }
        }
    }
}

/// Removing the tracks at a path keeps the rules of the catalog: the rows
/// that go are those that no remaining track refers to.
pub proof fn lemma_without_path_wf(c: CatalogView, path: Seq<char>)
    requires
        catalog_wf(c),
    ensures
        catalog_wf(without_path(c, path)),
{
    lemma_filter_keeps_track_ids(c.tracks, off_path(path));
    lemma_filter_keeps_album_keys(c.albums, album_survives(c.tracks, path));
    lemma_filter_keeps_artist_names(c.artists, artist_survives(c.tracks, path));
    let out = without_path(c, path);
    assert forall|j: int| 0 <= j < out.tracks.len() implies has_rows(
        #[trigger] out.tracks[j],
        out.albums,
        out.artists,
    ) by {
        let track = out.tracks[j];
        lemma_filter_origin(c.tracks, off_path(path), j);
        c.tracks.lemma_filter_pred(off_path(path), j);
        let k = choose|k: int| 0 <= k < c.tracks.len() && #[trigger] c.tracks[k] == track;
        assert(has_rows(c.tracks[k], c.albums, c.artists));
        let b = choose|b: int|
            0 <= b < c.albums.len() && is_album(#[trigger] c.albums[b], track.album, track.artist);
        assert(album_member(c.tracks[k], c.albums[b].title, c.albums[b].artist));
        assert(album_survives(c.tracks, path)(c.albums[b]));
        c.albums.lemma_filter_contains(album_survives(c.tracks, path), b);
        let nb = choose|nb: int| 0 <= nb < out.albums.len() && out.albums[nb] == c.albums[b];
        assert(is_album(out.albums[nb], track.album, track.artist));
        let a = choose|a: int| 0 <= a < c.artists.len() && (#[trigger] c.artists[a]).name == track.artist;
        assert(c.tracks[k].artist == c.artists[a].name);
        assert(artist_survives(c.tracks, path)(c.artists[a]));
        c.artists.lemma_filter_contains(artist_survives(c.tracks, path), a);
        let na = choose|na: int| 0 <= na < out.artists.len() && out.artists[na] == c.artists[a];
        assert(out.artists[na].name == track.artist);
    }
}

/// Storing a track keeps every track with its rows: the rows of the new
/// track are made where they are missing, and no row goes.
pub proof fn lemma_upsert_rows(c: CatalogView, track: TrackView)
    requires
        tracks_have_rows(c.tracks, c.albums, c.artists),
    ensures
        tracks_have_rows(upsert(c, track).tracks, upsert(c, track).albums, upsert(c, track).artists),
{
    let out = upsert(c, track);
    let album = new_album_row(track.album, track.artist, track.release_year);
    let artist = new_artist_row(track.artist);
    lemma_push_keeps_rows(c.albums, album, c.artists, artist);
    lemma_rows_follow(c.tracks, c.albums, c.artists, out.albums, out.artists);
    let row = stored_track(track);
    assert(has_rows(row, out.albums, out.artists));
    assert forall|j: int| 0 <= j < out.tracks.len() implies has_rows(
        #[trigger] out.tracks[j],
        out.albums,
        out.artists,
    ) by {
        if out.tracks[j] != row {
            assert(out.tracks[j] == c.tracks[j]);
        }
    }
}

/// Whether a track carries artwork that an album or artist can borrow: a
/// thumbnail, or a local image file.
pub open spec fn carries_artwork(track: TrackView) -> bool {
    track.artwork.thumbnail is Some || track.artwork.full_art is Local
}

/// The place of a track in the order of its album: its track number, with a
/// track that has none before all others.
pub open spec fn number_rank(track: TrackView) -> int {
    match track.track_number {
        Some(n) => n as int,
        None => -1,
    }
}

/// Whether the track at `at` is a member of the album with artwork.
pub open spec fn lends_to_album(
    tracks: Seq<TrackView>,
    title: Seq<char>,
    artist: Seq<char>,
    at: int,
) -> bool {
    0 <= at < tracks.len() && album_member(tracks[at], title, artist) && carries_artwork(tracks[at])
}

/// Whether the track at `at` is the one whose artwork the album borrows:
/// the member with artwork that has the lowest track number, and among
/// equals the one stored first.
pub open spec fn is_album_cover_track(
    tracks: Seq<TrackView>,
    title: Seq<char>,
    artist: Seq<char>,
    at: int,
) -> bool {
    &&& lends_to_album(tracks, title, artist, at)
    &&& forall|j: int| #[trigger]
        lends_to_album(tracks, title, artist, j) ==> number_rank(tracks[at]) < number_rank(
            tracks[j],
        ) || (number_rank(tracks[at]) == number_rank(tracks[j]) && at <= j)
}

/// The artwork that an album without artwork of its own borrows.
pub open spec fn album_fallback(
    tracks: Seq<TrackView>,
    title: Seq<char>,
    artist: Seq<char>,
) -> Option<ArtworkView> {
    if exists|at: int| is_album_cover_track(tracks, title, artist, at) {
        Some(tracks[choose|at: int| is_album_cover_track(tracks, title, artist, at)].artwork)
    } else {
        None
    }
}

/// Whether the track at `at` is by the artist and carries artwork.
pub open spec fn lends_to_artist(tracks: Seq<TrackView>, name: Seq<char>, at: int) -> bool {
    0 <= at < tracks.len() && tracks[at].artist == name && carries_artwork(tracks[at])
}

/// Whether the track at `at` is the one whose artwork the artist borrows:
/// the first stored track by the artist that carries artwork.
pub open spec fn is_artist_cover_track(tracks: Seq<TrackView>, name: Seq<char>, at: int) -> bool {
    &&& lends_to_artist(tracks, name, at)
    &&& forall|j: int| #[trigger] lends_to_artist(tracks, name, j) ==> at <= j
}

/// The artwork that an artist without artwork of its own borrows.
pub open spec fn artist_fallback(tracks: Seq<TrackView>, name: Seq<char>) -> Option<ArtworkView> {
    if exists|at: int| is_artist_cover_track(tracks, name, at) {
        Some(tracks[choose|at: int| is_artist_cover_track(tracks, name, at)].artwork)
    } else {
        None
    }
}

/// An album as it is shown: with its own artwork, or else with the artwork
/// that it borrows from its tracks.
pub open spec fn shown_album(tracks: Seq<TrackView>) -> spec_fn(AlbumView) -> AlbumView {
    |a: AlbumView|
        AlbumView {
            artwork: match a.artwork {
                Some(own) => Some(own),
                None => album_fallback(tracks, a.title, a.artist),
            },
            ..a
        }
}

/// An artist as it is shown: with its own artwork, or else with the artwork
/// that it borrows from its tracks.
pub open spec fn shown_artist(tracks: Seq<TrackView>) -> spec_fn(ArtistView) -> ArtistView {
    |a: ArtistView|
        ArtistView {
            artwork: match a.artwork {
                Some(own) => Some(own),
                None => artist_fallback(tracks, a.name),
            },
            ..a
        }
}

/// The albums whose title is not the placeholder.
pub open spec fn named_album() -> spec_fn(AlbumView) -> bool {
    |a: AlbumView| a.title != unknown_album()
}

/// The artists whose name is not the placeholder.
pub open spec fn named_artist() -> spec_fn(ArtistView) -> bool {
    |a: ArtistView| a.name != unknown_artist()
}

/// The tracks whose title, artist or album contains the query.
pub open spec fn track_hit(query: Seq<char>) -> spec_fn(TrackView) -> bool {
    |t: TrackView|
        contains_ignoring_ascii_case(t.title, query) || contains_ignoring_ascii_case(
            t.artist,
            query,
        ) || contains_ignoring_ascii_case(t.album, query)
}

/// The named albums whose title or artist contains the query.
pub open spec fn album_hit(query: Seq<char>) -> spec_fn(AlbumView) -> bool {
    |a: AlbumView|
        a.title != unknown_album() && (contains_ignoring_ascii_case(a.title, query)
            || contains_ignoring_ascii_case(a.artist, query))
}

/// The named artists whose name contains the query.
pub open spec fn artist_hit(query: Seq<char>) -> spec_fn(ArtistView) -> bool {
    |a: ArtistView| a.name != unknown_artist() && contains_ignoring_ascii_case(a.name, query)
}

/// Every album but the placeholder, as shown, in stored order.
pub open spec fn all_albums(c: CatalogView) -> Seq<AlbumView> {
    c.albums.filter(named_album()).map_values(shown_album(c.tracks))
}

/// Every artist but the placeholder, as shown, in stored order.
pub open spec fn all_artists(c: CatalogView) -> Seq<ArtistView> {
    c.artists.filter(named_artist()).map_values(shown_artist(c.tracks))
}

/// The tracks that match the query, in stored order.
pub open spec fn found_tracks(c: CatalogView, query: Seq<char>) -> Seq<TrackView> {
    c.tracks.filter(track_hit(query))
}

/// The named albums that match the query, as shown, in stored order.
pub open spec fn found_albums(c: CatalogView, query: Seq<char>) -> Seq<AlbumView> {
    c.albums.filter(album_hit(query)).map_values(shown_album(c.tracks))
}

/// The named artists that match the query, as shown, in stored order.
pub open spec fn found_artists(c: CatalogView, query: Seq<char>) -> Seq<ArtistView> {
    c.artists.filter(artist_hit(query)).map_values(shown_artist(c.tracks))
}

/// The artists with the artwork of the artist named `name` replaced;
/// unchanged where there is no such artist.
pub open spec fn with_artist_artwork(
    artists: Seq<ArtistView>,
    name: Seq<char>,
    artwork: ArtworkView,
) -> Seq<ArtistView> {
    if has_artist(artists, name) {
        let at = artist_slot(artists, name);
        artists.update(at, ArtistView { artwork: Some(stored_artwork(artwork)), ..artists[at] })
    } else {
        artists
    }
}

/// The albums with the artwork of the album replaced; unchanged where there
/// is no such album.
pub open spec fn with_album_artwork(
    albums: Seq<AlbumView>,
    title: Seq<char>,
    artist: Seq<char>,
    artwork: ArtworkView,
) -> Seq<AlbumView> {
    if has_album(albums, title, artist) {
        let at = album_slot(albums, title, artist);
        albums.update(at, AlbumView { artwork: Some(stored_artwork(artwork)), ..albums[at] })
    } else {
        albums
    }
}

/// The tracks with the artwork of every member of the album replaced.
pub open spec fn with_member_artwork(
    tracks: Seq<TrackView>,
    title: Seq<char>,
    artist: Seq<char>,
    artwork: ArtworkView,
) -> Seq<TrackView> {
    Seq::new(
        tracks.len(),
        |i: int|
            if album_member(tracks[i], title, artist) {
                TrackView { artwork: stored_artwork(artwork), ..tracks[i] }
            } else {
                tracks[i]
            },
    )
}

/// The catalog after an album is given artwork: the album's row and all of
/// its member tracks carry it.
pub open spec fn album_artwork_set(
    c: CatalogView,
    title: Seq<char>,
    artist: Seq<char>,
    artwork: ArtworkView,
) -> CatalogView {
    CatalogView {
        tracks: with_member_artwork(c.tracks, title, artist, artwork),
        albums: with_album_artwork(c.albums, title, artist, artwork),
        artists: c.artists,
    }
}

/// The album row that lends a track's artwork to its album.
pub open spec fn album_row_from(track: TrackView) -> AlbumView {
    AlbumView {
        artwork: Some(track.artwork),
        ..new_album_row(track.album, track.artist, None)
    }
}

/// The artist row that lends a track's artwork to its artist.
pub open spec fn artist_row_from(track: TrackView) -> ArtistView {
    ArtistView { artwork: Some(track.artwork), ..new_artist_row(track.artist) }
}

/// The catalog after one track has lent its artwork to its album and its
/// artist; unchanged where the track carries none.
pub open spec fn seeded_by(c: CatalogView, track: TrackView) -> CatalogView {
    if carries_artwork(track) {
        CatalogView {
            tracks: c.tracks,
            albums: put_album(c.albums, album_row_from(track)),
            artists: put_artist(c.artists, artist_row_from(track)),
        }
    } else {
        c
    }
}

/// The catalog after each of the tracks, in order, has lent its artwork.
pub open spec fn seeded_from(c: CatalogView, tracks: Seq<TrackView>) -> CatalogView
    decreases tracks.len(),
{
    if tracks.len() == 0 {
        c
    } else {
        seeded_by(seeded_from(c, tracks.drop_last()), tracks.last())
    }
}

/// The paths of the backing files of the tracks, in stored order.
pub open spec fn track_paths(tracks: Seq<TrackView>) -> Seq<Seq<char>> {
    Seq::new(tracks.len(), |i: int| tracks[i].source.path())
}

/// Storing a track is idempotent: afterwards exactly one row has the
/// track's identifier, it holds the track as stored, and storing the same
/// track once more changes nothing.
pub proof fn lemma_upsert_idempotent(c: CatalogView, track: TrackView)
    requires
        catalog_wf(c),
    ensures
        catalog_wf(upsert(c, track)),
        has_track(upsert(c, track).tracks, track.id),
        forall|i: int, j: int|
            #![trigger upsert(c, track).tracks[i], upsert(c, track).tracks[j]]
            0 <= i < upsert(c, track).tracks.len() && 0 <= j < upsert(c, track).tracks.len()
                && upsert(c, track).tracks[i].id == track.id && upsert(c, track).tracks[j].id
                == track.id ==> i == j,
        upsert(c, track).tracks[track_slot(upsert(c, track).tracks, track.id)] == stored_track(
            track,
        ),
        upsert(c, track).tracks.len() == c.tracks.len() + (if has_track(c.tracks, track.id) {
            0int
        } else {
            1int
        }),
        upsert(upsert(c, track), track) == upsert(c, track),
{
    let row = stored_track(track);
    let once = upsert(c, track);
    if has_track(c.tracks, track.id) {
        let at = track_slot(c.tracks, track.id);
        assert(once.tracks[at].id == track.id);
    } else {
        assert(once.tracks[c.tracks.len() as int].id == track.id);
    }
    assert(has_track(once.tracks, track.id));
    let slot = track_slot(once.tracks, track.id);
    assert(once.tracks[slot] == row) by {
        if has_track(c.tracks, track.id) {
            let at = track_slot(c.tracks, track.id);
            assert(once.tracks[at].id == track.id);
            if slot != at {
                assert(c.tracks[slot].id == track.id);
            }
        } else {
            let at = c.tracks.len() as int;
            if slot != at {
                assert(c.tracks[slot].id == track.id);
            }
        }
    }
    lemma_upsert_rows(c, track);
    assert(catalog_wf(once));
    assert(has_album(once.albums, track.album, track.artist)) by {
        if has_album(c.albums, track.album, track.artist) {
        } else {
            assert(is_album(once.albums[c.albums.len() as int], track.album, track.artist));
        }
    }
    assert(has_artist(once.artists, track.artist)) by {
        if has_artist(c.artists, track.artist) {
        } else {
            assert(once.artists[c.artists.len() as int].name == track.artist);
        }
    }
    let twice = upsert(once, track);
    assert(twice.tracks =~= once.tracks);
    assert(twice.albums == once.albums);
    assert(twice.artists == once.artists);
}

/// Storing a batch keeps the uniqueness rules, and every track of the batch
/// is in the catalog afterwards.
pub proof fn lemma_upsert_all_wf(c: CatalogView, tracks: Seq<TrackView>)
    requires
        catalog_wf(c),
    ensures
        catalog_wf(upsert_all(c, tracks)),
        forall|i: int|
            0 <= i < tracks.len() ==> has_track(upsert_all(c, tracks).tracks, #[trigger] tracks[i].id),
    decreases tracks.len(),
{
    if tracks.len() > 0 {
        let head = tracks.drop_last();
        let mid = upsert_all(c, head);
        lemma_upsert_all_wf(c, head);
        lemma_upsert_idempotent(mid, tracks.last());
        let out = upsert_all(c, tracks);
        assert forall|i: int| 0 <= i < tracks.len() implies has_track(
            out.tracks,
            #[trigger] tracks[i].id,
        ) by {
            if i < head.len() {
                assert(head[i] == tracks[i]);
                assert(has_track(mid.tracks, tracks[i].id));
                let at = track_slot(mid.tracks, tracks[i].id);
                assert(out.tracks[at].id == tracks[i].id);
            }
        }
    }
}

/// Removing the tracks at a path leaves no track there, and is no change
/// where no track was there.
pub proof fn lemma_without_path_tracks(c: CatalogView, path: Seq<char>)
    ensures
        forall|i: int|
            0 <= i < without_path(c, path).tracks.len() ==> (#[trigger] without_path(
                c,
                path,
            ).tracks[i]).source.path() != path,
        (forall|i: int| 0 <= i < c.tracks.len() ==> (#[trigger] c.tracks[i]).source.path() != path)
            ==> without_path(c, path) == c,
{
    let out = without_path(c, path);
    assert forall|i: int| 0 <= i < out.tracks.len() implies (#[trigger] out.tracks[i]).source.path()
        != path by {
        c.tracks.lemma_filter_pred(off_path(path), i);
    }
    if forall|i: int| 0 <= i < c.tracks.len() ==> (#[trigger] c.tracks[i]).source.path() != path {
        lemma_filter_all(c.tracks, off_path(path));
        lemma_filter_all(c.albums, album_survives(c.tracks, path));
        lemma_filter_all(c.artists, artist_survives(c.tracks, path));
    }
}

/// A filter that every element passes keeps the sequence whole.
pub proof fn lemma_filter_all<A>(s: Seq<A>, pred: spec_fn(A) -> bool)
    requires
        forall|i: int| 0 <= i < s.len() ==> pred(#[trigger] s[i]),
    ensures
        s.filter(pred) == s,
    decreases s.len(),
{
    reveal(Seq::filter);
    if s.len() > 0 {
        assert forall|i: int| 0 <= i < s.drop_last().len() implies pred(
            #[trigger] s.drop_last()[i],
        ) by {
            assert(s.drop_last()[i] == s[i]);
        }
        lemma_filter_all(s.drop_last(), pred);
        assert(s.drop_last().push(s.last()) =~= s);
    } else {
        assert(s.filter(pred) =~= s);
    }
}

/// Orphan cleanup: when the tracks at `path` are removed and an album had
/// a member there and none elsewhere, the album's row goes too.
pub proof fn lemma_last_member_takes_album(
    c: CatalogView,
    path: Seq<char>,
    title: Seq<char>,
    artist: Seq<char>,
)
    requires
        album_orphaned_by(c.tracks, path, title, artist),
    ensures
        !has_album(without_path(c, path).albums, title, artist),
{
    let out = without_path(c, path).albums;
    assert forall|i: int| 0 <= i < out.len() implies !is_album(#[trigger] out[i], title, artist) by {
        c.albums.lemma_filter_pred(album_survives(c.tracks, path), i);
    }
}

/// Orphan cleanup: when the tracks at `path` are removed and an album has
/// a member elsewhere, the album's row stays.
pub proof fn lemma_other_member_keeps_album(
    c: CatalogView,
    path: Seq<char>,
    title: Seq<char>,
    artist: Seq<char>,
    other: int,
)
    requires
        has_album(c.albums, title, artist),
        0 <= other < c.tracks.len(),
        album_member(c.tracks[other], title, artist),
        c.tracks[other].source.path() != path,
    ensures
        has_album(without_path(c, path).albums, title, artist),
{
    let at = album_slot(c.albums, title, artist);
    let keep = album_survives(c.tracks, path);
    assert(keep(c.albums[at]));
    c.albums.lemma_filter_contains(keep, at);
    let out = c.albums.filter(keep);
    let k = choose|k: int| 0 <= k < out.len() && out[k] == c.albums[at];
    assert(is_album(out[k], title, artist));
}

/// Orphan cleanup: when the tracks at `path` are removed and an artist had
/// a track there and none elsewhere, the artist's row goes too.
pub proof fn lemma_last_track_takes_artist(c: CatalogView, path: Seq<char>, name: Seq<char>)
    requires
        artist_orphaned_by(c.tracks, path, name),
    ensures
        !has_artist(without_path(c, path).artists, name),
{
    let out = without_path(c, path).artists;
    assert forall|i: int| 0 <= i < out.len() implies (#[trigger] out[i]).name != name by {
        c.artists.lemma_filter_pred(artist_survives(c.tracks, path), i);
    }
}

/// Orphan cleanup: when the tracks at `path` are removed and an artist has
/// a track elsewhere, the artist's row stays.
pub proof fn lemma_other_track_keeps_artist(
    c: CatalogView,
    path: Seq<char>,
    name: Seq<char>,
    other: int,
)
    requires
        has_artist(c.artists, name),
        0 <= other < c.tracks.len(),
        c.tracks[other].artist == name,
        c.tracks[other].source.path() != path,
    ensures
        has_artist(without_path(c, path).artists, name),
{
    let at = artist_slot(c.artists, name);
    let keep = artist_survives(c.tracks, path);
    assert(keep(c.artists[at]));
    c.artists.lemma_filter_contains(keep, at);
    let out = c.artists.filter(keep);
    let k = choose|k: int| 0 <= k < out.len() && out[k] == c.artists[at];
    assert(out[k].name == name);
}

/// Removing a track that was just stored restores the catalog. The track
/// must be new: no stored track has its identifier or its path. And the rows
/// of its album and artist, where the catalog has them already, must have a
/// track each: a row without tracks would go with the new track.
pub proof fn lemma_delete_after_insert_restores(c: CatalogView, track: TrackView)
    requires
        catalog_wf(c),
        !has_track(c.tracks, track.id),
        forall|i: int|
            0 <= i < c.tracks.len() ==> (#[trigger] c.tracks[i]).source.path() != stored_track(
                track,
            ).source.path(),
        has_album(c.albums, track.album, track.artist) ==> exists|i: int|
            0 <= i < c.tracks.len() && album_member(#[trigger] c.tracks[i], track.album, track.artist),
        has_artist(c.artists, track.artist) ==> exists|i: int|
            0 <= i < c.tracks.len() && (#[trigger] c.tracks[i]).artist == track.artist,
    ensures
        without_path(upsert(c, track), stored_track(track).source.path()) == c,
{
    reveal(Seq::filter);
    let row = stored_track(track);
    let path = row.source.path();
    let once = upsert(c, track);
    let last = c.tracks.len() as int;
    assert(once.tracks == c.tracks.push(row));
    assert(once.tracks.drop_last() =~= c.tracks);
    lemma_filter_all(c.tracks, off_path(path));
    assert(once.tracks.filter(off_path(path)) == c.tracks);

    let keep_album = album_survives(once.tracks, path);
    assert forall|a: int| 0 <= a < c.albums.len() implies keep_album(#[trigger] c.albums[a]) by {
        let album = c.albums[a];
        if album_orphaned_by(once.tracks, path, album.title, album.artist) {
            let m = choose|m: int|
                0 <= m < once.tracks.len() && album_member(
                    #[trigger] once.tracks[m],
                    album.title,
                    album.artist,
                ) && once.tracks[m].source.path() == path;
            if m < last {
                assert(once.tracks[m] == c.tracks[m]);
            }
            assert(m == last);
            assert(is_album(album, track.album, track.artist));
            let other = choose|i: int|
                0 <= i < c.tracks.len() && album_member(
                    #[trigger] c.tracks[i],
                    track.album,
                    track.artist,
                );
            assert(once.tracks[other] == c.tracks[other]);
            assert(album_member(once.tracks[other], album.title, album.artist));
        }
    }
    lemma_filter_all(c.albums, keep_album);
    if !has_album(c.albums, track.album, track.artist) {
        let made = new_album_row(track.album, track.artist, track.release_year);
        assert(once.albums == c.albums.push(made));
        assert(once.albums.drop_last() =~= c.albums);
        assert(album_orphaned_by(once.tracks, path, made.title, made.artist)) by {
            assert(album_member(once.tracks[last], made.title, made.artist));
            assert forall|j: int|
                0 <= j < once.tracks.len() && album_member(
                    #[trigger] once.tracks[j],
                    made.title,
                    made.artist,
                ) implies once.tracks[j].source.path() == path by {
                if j < last {
                    assert(once.tracks[j] == c.tracks[j]);
                    assert(has_rows(c.tracks[j], c.albums, c.artists));
                }
            }
        }
    }
    assert(once.albums.filter(keep_album) == c.albums);

    let keep_artist = artist_survives(once.tracks, path);
    assert forall|a: int| 0 <= a < c.artists.len() implies keep_artist(#[trigger] c.artists[a]) by {
        let artist = c.artists[a];
        if artist_orphaned_by(once.tracks, path, artist.name) {
            let m = choose|m: int|
                0 <= m < once.tracks.len() && (#[trigger] once.tracks[m]).artist == artist.name
                    && once.tracks[m].source.path() == path;
            if m < last {
                assert(once.tracks[m] == c.tracks[m]);
            }
            assert(m == last);
            assert(artist.name == track.artist);
            let other = choose|i: int|
                0 <= i < c.tracks.len() && (#[trigger] c.tracks[i]).artist == track.artist;
            assert(once.tracks[other] == c.tracks[other]);
            assert(once.tracks[other].artist == artist.name);
        }
    }
    lemma_filter_all(c.artists, keep_artist);
    if !has_artist(c.artists, track.artist) {
        let made = new_artist_row(track.artist);
        assert(once.artists == c.artists.push(made));
        assert(once.artists.drop_last() =~= c.artists);
        assert(artist_orphaned_by(once.tracks, path, made.name)) by {
            assert(once.tracks[last].artist == made.name);
            assert forall|j: int|
                0 <= j < once.tracks.len() && (#[trigger] once.tracks[j]).artist
                    == made.name implies once.tracks[j].source.path() == path by {
                if j < last {
                    assert(once.tracks[j] == c.tracks[j]);
                    assert(has_rows(c.tracks[j], c.albums, c.artists));
                }
            }
        }
    }
    assert(once.artists.filter(keep_artist) == c.artists);
}

/// The listed artists are distinct, and the artist of every stored track
/// is among them unless it is the placeholder.
pub proof fn lemma_listed_artists(c: CatalogView)
    requires
        catalog_wf(c),
    ensures
        forall|k: int, l: int|
            0 <= k < l < all_artists(c).len() ==> (#[trigger] all_artists(c)[k]).name
                != (#[trigger] all_artists(c)[l]).name,
        forall|i: int|
            0 <= i < c.tracks.len() && (#[trigger] c.tracks[i]).artist != unknown_artist()
                ==> exists|k: int|
                0 <= k < all_artists(c).len() && (#[trigger] all_artists(c)[k]).name
                    == c.tracks[i].artist,
{
    let named = c.artists.filter(named_artist());
    let listed = all_artists(c);
    lemma_filter_keeps_artist_names(c.artists, named_artist());
    assert forall|k: int, l: int| 0 <= k < l < listed.len() implies (#[trigger] listed[k]).name
        != (#[trigger] listed[l]).name by {
        assert(named[k].name != named[l].name);
    }
    assert forall|i: int|
        0 <= i < c.tracks.len() && (#[trigger] c.tracks[i]).artist != unknown_artist() implies exists|
        k: int,
    | 0 <= k < listed.len() && (#[trigger] listed[k]).name == c.tracks[i].artist by {
        assert(has_rows(c.tracks[i], c.albums, c.artists));
        let a = choose|a: int|
            0 <= a < c.artists.len() && (#[trigger] c.artists[a]).name == c.tracks[i].artist;
        assert(named_artist()(c.artists[a]));
        c.artists.lemma_filter_contains(named_artist(), a);
        let k = choose|k: int| 0 <= k < named.len() && named[k] == c.artists[a];
        assert(listed[k].name == c.tracks[i].artist);
    }
}

/// The listed albums are distinct, and the album of every stored track is
/// among them unless its title is the placeholder.
pub proof fn lemma_listed_albums(c: CatalogView)
    requires
        catalog_wf(c),
    ensures
        forall|k: int, l: int|
            0 <= k < l < all_albums(c).len() ==> !is_album(
                #[trigger] all_albums(c)[k],
                (#[trigger] all_albums(c)[l]).title,
                all_albums(c)[l].artist,
            ),
        forall|i: int|
            0 <= i < c.tracks.len() && (#[trigger] c.tracks[i]).album != unknown_album()
                ==> exists|k: int|
                0 <= k < all_albums(c).len() && is_album(
                    #[trigger] all_albums(c)[k],
                    c.tracks[i].album,
                    c.tracks[i].artist,
                ),
{
    let named = c.albums.filter(named_album());
    let listed = all_albums(c);
    lemma_filter_keeps_album_keys(c.albums, named_album());
    assert forall|k: int, l: int| 0 <= k < l < listed.len() implies !is_album(
        #[trigger] listed[k],
        (#[trigger] listed[l]).title,
        listed[l].artist,
    ) by {
        assert(!is_album(named[k], named[l].title, named[l].artist));
    }
    assert forall|i: int|
        0 <= i < c.tracks.len() && (#[trigger] c.tracks[i]).album != unknown_album() implies exists|
        k: int,
    |
        0 <= k < listed.len() && is_album(
            #[trigger] listed[k],
            c.tracks[i].album,
            c.tracks[i].artist,
        ) by {
        assert(has_rows(c.tracks[i], c.albums, c.artists));
        let b = choose|b: int|
            0 <= b < c.albums.len() && is_album(
                #[trigger] c.albums[b],
                c.tracks[i].album,
                c.tracks[i].artist,
            );
        assert(named_album()(c.albums[b]));
        c.albums.lemma_filter_contains(named_album(), b);
        let k = choose|k: int| 0 <= k < named.len() && named[k] == c.albums[b];
        assert(is_album(listed[k], c.tracks[i].album, c.tracks[i].artist));
    }
}

/// Placeholder rows are never shown: no album listed or found has the
/// placeholder title, and no artist listed or found has the placeholder
/// name, whatever the query.
pub proof fn lemma_placeholders_hidden(c: CatalogView, query: Seq<char>)
    ensures
        forall|i: int|
            0 <= i < all_albums(c).len() ==> (#[trigger] all_albums(c)[i]).title != unknown_album(),
        forall|i: int|
            0 <= i < all_artists(c).len() ==> (#[trigger] all_artists(c)[i]).name
                != unknown_artist(),
        forall|i: int|
            0 <= i < found_albums(c, query).len() ==> (#[trigger] found_albums(c, query)[i]).title
                != unknown_album(),
        forall|i: int|
            0 <= i < found_artists(c, query).len() ==> (#[trigger] found_artists(
                c,
                query,
            )[i]).name != unknown_artist(),
{
    assert forall|i: int| 0 <= i < all_albums(c).len() implies (#[trigger] all_albums(c)[i]).title
        != unknown_album() by {
        c.albums.lemma_filter_pred(named_album(), i);
    }
    assert forall|i: int| 0 <= i < all_artists(c).len() implies (#[trigger] all_artists(
        c,
    )[i]).name != unknown_artist() by {
        c.artists.lemma_filter_pred(named_artist(), i);
    }
    assert forall|i: int| 0 <= i < found_albums(c, query).len() implies (#[trigger] found_albums(
        c,
        query,
    )[i]).title != unknown_album() by {
        c.albums.lemma_filter_pred(album_hit(query), i);
    }
    assert forall|i: int| 0 <= i < found_artists(c, query).len() implies (#[trigger] found_artists(
        c,
        query,
    )[i]).name != unknown_artist() by {
        c.artists.lemma_filter_pred(artist_hit(query), i);
    }
}

} // verus!
