//! The catalog's data model: tracks, albums, artists, artwork and search
//! results, each with the mathematical view that contracts speak of.

use vstd::prelude::*;

verus! {

/// Placeholder artist name of a track whose artist could not be resolved.
pub open spec fn unknown_artist() -> Seq<char> {
    "Unknown Artist"@
}

/// Placeholder album title of a track whose album could not be resolved.
pub open spec fn unknown_album() -> Seq<char> {
    "Unknown Album"@
}

/// Where the full-size artwork of an item comes from.
#[derive(Debug)]
pub enum ArtworkSource {
    Embedded { format: String, data: Vec<u8> },
    Local { path: String },
    Remote { url: String, cache_key: Option<String> },
    Absent,
}

/// The mathematical view of a [`ArtworkSource`].
pub enum ArtworkSourceView {
    Embedded { format: Seq<char>, data: Seq<u8> },
    Local { path: Seq<char> },
    Remote { url: Seq<char>, cache_key: Option<Seq<char>> },
    Absent,
}

impl View for ArtworkSource {
    type V = ArtworkSourceView;

    open spec fn view(&self) -> ArtworkSourceView {
        match *self {
            ArtworkSource::Embedded { format, data } => ArtworkSourceView::Embedded {
                format: format@,
                data: data@,
            },
            ArtworkSource::Local { path } => ArtworkSourceView::Local { path: path@ },
            ArtworkSource::Remote { url, cache_key } => ArtworkSourceView::Remote {
                url: url@,
                cache_key: cache_key.deep_view(),
            },
            ArtworkSource::Absent => ArtworkSourceView::Absent,
        }
    }
}

/// Artwork of a track, album or artist: an optional thumbnail and a source
/// of the full image.
#[derive(Debug)]
pub struct Artwork {
    pub thumbnail: Option<Vec<u8>>,
    pub full_art: ArtworkSource,
}

/// The mathematical view of a [`Artwork`].
pub struct ArtworkView {
    pub thumbnail: Option<Seq<u8>>,
    pub full_art: ArtworkSourceView,
}

impl View for Artwork {
    type V = ArtworkView;

    open spec fn view(&self) -> ArtworkView {
        ArtworkView { thumbnail: self.thumbnail.deep_view(), full_art: self.full_art@ }
    }
}

/// A copy of a byte vector.
pub fn copy_bytes(bytes: &Vec<u8>) -> (r: Vec<u8>)
    ensures
        r@ == bytes@,
{
    let mut out: Vec<u8> = Vec::new();
    let mut i: usize = 0;
    while i < bytes.len()
        invariant
            i <= bytes.len(),
            out@ == bytes@.take(i as int),
        decreases bytes.len() - i,
    {
        out.push(bytes[i]);
        i += 1;
    }
    out
}

/// A copy of an optional byte vector.
pub fn copy_opt_bytes(bytes: &Option<Vec<u8>>) -> (r: Option<Vec<u8>>)
    ensures
        r.deep_view() == bytes.deep_view(),
{
    match bytes {
        Some(b) => {
            let c = copy_bytes(b);
            assert(c.deep_view() =~= b.deep_view());
            Some(c)
        },
        None => None,
    }
}

/// A copy of an optional string.
pub fn copy_opt_text(text: &Option<String>) -> (r: Option<String>)
    ensures
        r.deep_view() == text.deep_view(),
{
    match text {
        Some(t) => Some(t.clone()),
        None => None,
    }
}

impl Clone for ArtworkSource {
    fn clone(&self) -> (r: Self)
        ensures
            r@ == self@,
    {
        match self {
            ArtworkSource::Embedded { format, data } => ArtworkSource::Embedded {
                format: format.clone(),
                data: copy_bytes(data),
            },
            ArtworkSource::Local { path } => ArtworkSource::Local { path: path.clone() },
            ArtworkSource::Remote { url, cache_key } => ArtworkSource::Remote {
                url: url.clone(),
                cache_key: copy_opt_text(cache_key),
            },
            ArtworkSource::Absent => ArtworkSource::Absent,
        }
    }
}

impl Clone for Artwork {
    fn clone(&self) -> (r: Self)
        ensures
            r@ == self@,
    {
        Artwork { thumbnail: copy_opt_bytes(&self.thumbnail), full_art: self.full_art.clone() }
    }
}

/// How a track is played back.
#[derive(Debug)]
pub enum PlaybackSource {
    Local { file_format: String, file_size: u64, path: String },
    Spotify { track_id: String, url: String },
    YouTube { video_id: String, stream_url: String },
}

/// The mathematical view of a [`PlaybackSource`].
pub enum PlaybackSourceView {
    Local { file_format: Seq<char>, file_size: u64, path: Seq<char> },
    Spotify { track_id: Seq<char>, url: Seq<char> },
    YouTube { video_id: Seq<char>, stream_url: Seq<char> },
}

impl PlaybackSourceView {
    /// The path of the backing file; empty for a source that is no local file.
    pub open spec fn path(self) -> Seq<char> {
        match self {
            PlaybackSourceView::Local { path, .. } => path,
            _ => Seq::empty(),
        }
    }
}

impl View for PlaybackSource {
    type V = PlaybackSourceView;

    open spec fn view(&self) -> PlaybackSourceView {
        match *self {
            PlaybackSource::Local { file_format, file_size, path } => PlaybackSourceView::Local {
                file_format: file_format@,
                file_size,
                path: path@,
            },
            PlaybackSource::Spotify { track_id, url } => PlaybackSourceView::Spotify {
                track_id: track_id@,
                url: url@,
            },
            PlaybackSource::YouTube { video_id, stream_url } => PlaybackSourceView::YouTube {
                video_id: video_id@,
                stream_url: stream_url@,
            },
        }
    }
}

impl Clone for PlaybackSource {
    fn clone(&self) -> (r: Self)
        ensures
            r@ == self@,
    {
        match self {
            PlaybackSource::Local { file_format, file_size, path } => PlaybackSource::Local {
                file_format: file_format.clone(),
                file_size: *file_size,
                path: path.clone(),
            },
            PlaybackSource::Spotify { track_id, url } => PlaybackSource::Spotify {
                track_id: track_id.clone(),
                url: url.clone(),
            },
            PlaybackSource::YouTube { video_id, stream_url } => PlaybackSource::YouTube {
                video_id: video_id.clone(),
                stream_url: stream_url.clone(),
            },
        }
    }
}

/// One indexed media file.
#[derive(Debug)]
pub struct Track {
    pub id: String,
    pub title: String,
    pub artist: String,
    pub album: String,
    pub duration: u32,
    pub track_number: Option<u32>,
    pub disc_number: Option<u32>,
    pub release_year: Option<u32>,
    pub genre: Option<String>,
    pub artwork: Artwork,
    pub source: PlaybackSource,
}

/// The mathematical view of a [`Track`].
pub struct TrackView {
    pub id: Seq<char>,
    pub title: Seq<char>,
    pub artist: Seq<char>,
    pub album: Seq<char>,
    pub duration: u32,
    pub track_number: Option<u32>,
    pub disc_number: Option<u32>,
    pub release_year: Option<u32>,
    pub genre: Option<Seq<char>>,
    pub artwork: ArtworkView,
    pub source: PlaybackSourceView,
}

impl View for Track {
    type V = TrackView;

    open spec fn view(&self) -> TrackView {
        TrackView {
            id: self.id@,
            title: self.title@,
            artist: self.artist@,
            album: self.album@,
            duration: self.duration,
            track_number: self.track_number,
            disc_number: self.disc_number,
            release_year: self.release_year,
            genre: self.genre.deep_view(),
            artwork: self.artwork@,
            source: self.source@,
        }
    }
}

impl Clone for Track {
    fn clone(&self) -> (r: Self)
        ensures
            r@ == self@,
    {
        Track {
            id: self.id.clone(),
            title: self.title.clone(),
            artist: self.artist.clone(),
            album: self.album.clone(),
            duration: self.duration,
            track_number: self.track_number,
            disc_number: self.disc_number,
            release_year: self.release_year,
            genre: copy_opt_text(&self.genre),
            artwork: self.artwork.clone(),
            source: self.source.clone(),
        }
    }
}

/// The views of a sequence of tracks, in order.
pub open spec fn track_views(tracks: Seq<Track>) -> Seq<TrackView> {
    Seq::new(tracks.len(), |i: int| tracks[i]@)
}

/// A copy of an optional artwork.
pub fn copy_opt_artwork(artwork: &Option<Artwork>) -> (r: Option<Artwork>)
    ensures
        opt_artwork_view(r) == opt_artwork_view(*artwork),
{
    match artwork {
        Some(a) => Some(a.clone()),
        None => None,
    }
}

/// The view of an optional artwork.
pub open spec fn opt_artwork_view(artwork: Option<Artwork>) -> Option<ArtworkView> {
    match artwork {
        Some(a) => Some(a@),
        None => None,
    }
}

/// A copy of a list of strings.
pub fn copy_texts(texts: &Vec<String>) -> (r: Vec<String>)
    ensures
        r.deep_view() == texts.deep_view(),
{
    let mut out: Vec<String> = Vec::new();
    let mut i: usize = 0;
    while i < texts.len()
        invariant
            i <= texts.len(),
            out.len() == i,
            forall|j: int| 0 <= j < i ==> out@[j]@ == texts@[j]@,
        decreases texts.len() - i,
    {
        out.push(texts[i].clone());
        i += 1;
    }
    assert(out.deep_view() =~= texts.deep_view());
    out
}

/// An album: identified by its title and artist together.
#[derive(Debug)]
pub struct Album {
    pub id: String,
    pub title: String,
    pub artist: String,
    pub year: Option<u32>,
    pub art_url: Option<String>,
    pub tracks: Vec<String>,
    pub artwork: Option<Artwork>,
}

/// The mathematical view of a [`Album`].
pub struct AlbumView {
    pub id: Seq<char>,
    pub title: Seq<char>,
    pub artist: Seq<char>,
    pub year: Option<u32>,
    pub art_url: Option<Seq<char>>,
    pub tracks: Seq<Seq<char>>,
    pub artwork: Option<ArtworkView>,
}

impl View for Album {
    type V = AlbumView;

    open spec fn view(&self) -> AlbumView {
        AlbumView {
            id: self.id@,
            title: self.title@,
            artist: self.artist@,
            year: self.year,
            art_url: self.art_url.deep_view(),
            tracks: self.tracks.deep_view(),
            artwork: opt_artwork_view(self.artwork),
        }
    }
}

impl Clone for Album {
    fn clone(&self) -> (r: Self)
        ensures
            r@ == self@,
    {
        Album {
            id: self.id.clone(),
            title: self.title.clone(),
            artist: self.artist.clone(),
            year: self.year,
            art_url: copy_opt_text(&self.art_url),
            tracks: copy_texts(&self.tracks),
            artwork: copy_opt_artwork(&self.artwork),
        }
    }
}

/// The views of a sequence of albums, in order.
pub open spec fn album_views(albums: Seq<Album>) -> Seq<AlbumView> {
    Seq::new(albums.len(), |i: int| albums[i]@)
}

/// An artist: identified by name, case-sensitively.
#[derive(Debug)]
pub struct Artist {
    pub id: String,
    pub name: String,
    pub albums: Vec<String>,
    pub artwork: Option<Artwork>,
}

/// The mathematical view of a [`Artist`].
pub struct ArtistView {
    pub id: Seq<char>,
    pub name: Seq<char>,
    pub albums: Seq<Seq<char>>,
    pub artwork: Option<ArtworkView>,
}

impl View for Artist {
    type V = ArtistView;

    open spec fn view(&self) -> ArtistView {
        ArtistView {
            id: self.id@,
            name: self.name@,
            albums: self.albums.deep_view(),
            artwork: opt_artwork_view(self.artwork),
        }
    }
}

impl Clone for Artist {
    fn clone(&self) -> (r: Self)
        ensures
            r@ == self@,
    {
        Artist {
            id: self.id.clone(),
            name: self.name.clone(),
            albums: copy_texts(&self.albums),
            artwork: copy_opt_artwork(&self.artwork),
        }
    }
}

/// The views of a sequence of artists, in order.
pub open spec fn artist_views(artists: Seq<Artist>) -> Seq<ArtistView> {
    Seq::new(artists.len(), |i: int| artists[i]@)
}

/// A track as handed to a player: the track, the provider it came from and
/// the moment it was found, in milliseconds since the Unix epoch.
#[derive(Debug)]
pub struct PlayableItem {
    pub track: Track,
    pub provider: String,
    pub added_at: i64,
}

/// The mathematical view of a [`PlayableItem`].
pub struct PlayableItemView {
    pub track: TrackView,
    pub provider: Seq<char>,
    pub added_at: i64,
}

impl View for PlayableItem {
    type V = PlayableItemView;

    open spec fn view(&self) -> PlayableItemView {
        PlayableItemView { track: self.track@, provider: self.provider@, added_at: self.added_at }
    }
}

impl Clone for PlayableItem {
    fn clone(&self) -> (r: Self)
        ensures
            r@ == self@,
    {
        PlayableItem {
            track: self.track.clone(),
            provider: self.provider.clone(),
            added_at: self.added_at,
        }
    }
}

/// The views of a sequence of playable items, in order.
pub open spec fn item_views(items: Seq<PlayableItem>) -> Seq<PlayableItemView> {
    Seq::new(items.len(), |i: int| items[i]@)
}

/// A named list of playable items.
#[derive(Debug)]
pub struct Playlist {
    pub id: String,
    pub name: String,
    pub items: Vec<PlayableItem>,
}

/// What a search returns: three independent ordered lists.
#[derive(Debug)]
pub struct SearchResults {
    pub tracks: Vec<PlayableItem>,
    pub albums: Vec<Album>,
    pub artists: Vec<Artist>,
}

/// Per-entity multipliers of ranking scores, in thousandths: 1000 leaves a
/// score as it is.
#[derive(Debug, Clone, Copy)]
pub struct SearchWeights {
    pub track_weight: u32,
    pub album_weight: u32,
    pub artist_weight: u32,
}

impl Default for SearchWeights {
    fn default() -> (r: Self)
        ensures
            r.track_weight == 1000,
            r.album_weight == 1000,
            r.artist_weight == 1000,
    {
        SearchWeights { track_weight: 1000, album_weight: 1000, artist_weight: 1000 }
    }
}

/// A search hit of any of the three kinds.
#[derive(Debug)]
pub enum SearchResultType {
    Track(PlayableItem),
    Album(Album),
    Artist(Artist),
}

/// A search hit with its weighted score, in thousandths of a point.
#[derive(Debug)]
pub struct ScoredResult {
    pub score: u128,
    pub result_type: SearchResultType,
}

} // verus!
