//! Selection of media files and resolution of their metadata into tracks.

use crate::error::ServiceError;
use crate::identity::{stable_id, stable_id_of};
use crate::models::{
    copy_bytes, Artwork, ArtworkSource, ArtworkSourceView, ArtworkView, PlaybackSource,
    PlaybackSourceView, Track, TrackView,
};
use crate::text::{
    chars_of, has_prefix, lowercase, parse_u32, parse_year, parsed_u32, parsed_year,
    starts_with_chars, text_equals, uppercase,
};
use vstd::prelude::*;
use vstd::string::StringExecFns;

verus! {

/// The extension of the last component of a path, as `Path::extension`
/// finds it on the platform that the library is built for.
pub uninterp spec fn path_extension(path: Seq<char>) -> Option<Seq<char>>;

/// The last component of a path without its extension, as `Path::file_stem`
/// finds it on the platform that the library is built for.
pub uninterp spec fn path_file_stem(path: Seq<char>) -> Option<Seq<char>>;

/// `Path::extension` on the path that `path` spells: the result depends on
/// the text of the path alone. Which part of the path it is is left abstract.
#[verifier::external_body]
fn extension_of(path: &str) -> (r: Option<String>)
    ensures
        r.deep_view() == path_extension(path@),
{
    std::path::Path::new(path).extension().and_then(|e| e.to_str()).map(|e| e.to_string())
}

/// `Path::file_stem` on the path that `path` spells: the result depends on
/// the text of the path alone. Which part of the path it is is left abstract.
#[verifier::external_body]
fn file_stem_of(path: &str) -> (r: Option<String>)
    ensures
        r.deep_view() == path_file_stem(path@),
{
    std::path::Path::new(path).file_stem().and_then(|e| e.to_str()).map(|e| e.to_string())
}

/// The lowercase extensions of the audio formats that are indexed.
pub open spec fn is_audio_extension(lowered: Seq<char>) -> bool {
    ||| lowered == "mp3"@
    ||| lowered == "flac"@
    ||| lowered == "m4a"@
    ||| lowered == "ogg"@
    ||| lowered == "wav"@
}

/// A path names a music file when it has an extension whose lowercase form
/// is one of the audio extensions.
pub open spec fn is_music_path(path: Seq<char>) -> bool {
    match path_extension(path) {
        Some(ext) => is_audio_extension(lowercase(ext)),
        None => false,
    }
}

/// The music files among `paths`, in their order.
pub open spec fn music_paths(paths: Seq<Seq<char>>) -> Seq<Seq<char>>
    decreases paths.len(),
{
    if paths.len() == 0 {
        Seq::empty()
    } else if is_music_path(paths.last()) {
        music_paths(paths.drop_last()).push(paths.last())
    } else {
        music_paths(paths.drop_last())
    }
}

/// The tag keys that a container format standardises and that are read.
#[derive(Debug, Clone, Copy, PartialEq, Eq, Structural)]
pub enum StandardTagKey {
    TrackTitle,
    Artist,
    Album,
    TrackNumber,
    DiscNumber,
    Date,
    Genre,
    Other,
}

/// One metadata tag of a file: its standard key where the format gives one,
/// its raw name and its value as text.
#[derive(Debug)]
pub struct MediaTag {
    pub std_key: Option<StandardTagKey>,
    pub key: String,
    pub value: String,
}

/// The mathematical view of a [`MediaTag`].
pub struct MediaTagView {
    pub std_key: Option<StandardTagKey>,
    pub key: Seq<char>,
    pub value: Seq<char>,
}

impl View for MediaTag {
    type V = MediaTagView;

    open spec fn view(&self) -> MediaTagView {
        MediaTagView { std_key: self.std_key, key: self.key@, value: self.value@ }
    }
}

/// A picture embedded in a file.
#[derive(Debug)]
pub struct Visual {
    pub media_type: String,
    pub data: Vec<u8>,
}

/// The mathematical view of a [`Visual`].
pub struct VisualView {
    pub media_type: Seq<char>,
    pub data: Seq<u8>,
}

impl View for Visual {
    type V = VisualView;

    open spec fn view(&self) -> VisualView {
        VisualView { media_type: self.media_type@, data: self.data@ }
    }
}

/// A conventional cover file beside a media file, and whether it exists.
#[derive(Debug)]
pub struct CoverCandidate {
    pub path: String,
    pub exists: bool,
}

/// The mathematical view of a [`CoverCandidate`].
pub struct CoverCandidateView {
    pub path: Seq<char>,
    pub exists: bool,
}

impl View for CoverCandidate {
    type V = CoverCandidateView;

    open spec fn view(&self) -> CoverCandidateView {
        CoverCandidateView { path: self.path@, exists: self.exists }
    }
}

/// The views of a sequence of tags, in order.
pub open spec fn tag_views(tags: Seq<MediaTag>) -> Seq<MediaTagView> {
    Seq::new(tags.len(), |i: int| tags[i]@)
}

/// The views of a sequence of pictures, in order.
pub open spec fn visual_views(visuals: Seq<Visual>) -> Seq<VisualView> {
    Seq::new(visuals.len(), |i: int| visuals[i]@)
}

/// The views of a sequence of cover candidates, in order.
pub open spec fn cover_views(covers: Seq<CoverCandidate>) -> Seq<CoverCandidateView> {
    Seq::new(covers.len(), |i: int| covers[i]@)
}

/// What probing a media file found.
#[derive(Debug)]
pub struct ProbedMedia {
    /// Size of the file in bytes.
    pub file_size: u64,
    /// The tags of the current metadata revision, in the file's order.
    pub tags: Vec<MediaTag>,
    /// Number of frames of the first audio track, where known.
    pub n_frames: Option<u64>,
    /// Sample rate of the first audio track, where known.
    pub sample_rate: Option<u32>,
    /// The embedded pictures, in the file's order.
    pub visuals: Vec<Visual>,
    /// The conventional cover files, in order of preference.
    pub covers: Vec<CoverCandidate>,
}

/// The mathematical view of a [`ProbedMedia`].
pub struct ProbedMediaView {
    pub file_size: u64,
    pub tags: Seq<MediaTagView>,
    pub n_frames: Option<u64>,
    pub sample_rate: Option<u32>,
    pub visuals: Seq<VisualView>,
    pub covers: Seq<CoverCandidateView>,
}

impl View for ProbedMedia {
    type V = ProbedMediaView;

    open spec fn view(&self) -> ProbedMediaView {
        ProbedMediaView {
            file_size: self.file_size,
            tags: tag_views(self.tags@),
            n_frames: self.n_frames,
            sample_rate: self.sample_rate,
            visuals: visual_views(self.visuals@),
            covers: cover_views(self.covers@),
        }
    }
}

/// How the attempt to open and probe a file ended.
#[derive(Debug)]
pub enum ProbeOutcome {
    /// No file at the path.
    Missing,
    /// The file could not be opened or read; the message says why.
    Unreadable(String),
    /// No supported container or codec was recognised; the message says why.
    Unsupported(String),
    /// The file was probed.
    Probed(ProbedMedia),
}

/// The mathematical view of a [`ProbeOutcome`].
pub enum ProbeOutcomeView {
    Missing,
    Unreadable(Seq<char>),
    Unsupported(Seq<char>),
    Probed(ProbedMediaView),
}

impl View for ProbeOutcome {
    type V = ProbeOutcomeView;

    open spec fn view(&self) -> ProbeOutcomeView {
        match *self {
            ProbeOutcome::Missing => ProbeOutcomeView::Missing,
            ProbeOutcome::Unreadable(why) => ProbeOutcomeView::Unreadable(why@),
            ProbeOutcome::Unsupported(why) => ProbeOutcomeView::Unsupported(why@),
            ProbeOutcome::Probed(media) => ProbeOutcomeView::Probed(media@),
        }
    }
}

/// A file that a scan found, with what probing it gave.
#[derive(Debug)]
pub struct ScannedFile {
    pub path: String,
    pub outcome: ProbeOutcome,
}

/// The mathematical view of a [`ScannedFile`].
pub struct ScannedFileView {
    pub path: Seq<char>,
    pub outcome: ProbeOutcomeView,
}

impl View for ScannedFile {
    type V = ScannedFileView;

    open spec fn view(&self) -> ScannedFileView {
        ScannedFileView { path: self.path@, outcome: self.outcome@ }
    }
}

/// The views of a sequence of scanned files, in order.
pub open spec fn scanned_views(files: Seq<ScannedFile>) -> Seq<ScannedFileView> {
    Seq::new(files.len(), |i: int| files[i]@)
}

/// The fields of a track that tags decide.
#[derive(Debug)]
pub struct ResolvedTags {
    pub title: String,
    pub artist: String,
    pub album: String,
    pub track_number: Option<u32>,
    pub disc_number: Option<u32>,
    pub release_year: Option<u32>,
    pub genre: Option<String>,
}

/// The mathematical view of a [`ResolvedTags`].
pub struct TagFields {
    pub title: Seq<char>,
    pub artist: Seq<char>,
    pub album: Seq<char>,
    pub track_number: Option<u32>,
    pub disc_number: Option<u32>,
    pub release_year: Option<u32>,
    pub genre: Option<Seq<char>>,
}

impl View for ResolvedTags {
    type V = TagFields;

    open spec fn view(&self) -> TagFields {
        TagFields {
            title: self.title@,
            artist: self.artist@,
            album: self.album@,
            track_number: self.track_number,
            disc_number: self.disc_number,
            release_year: self.release_year,
            genre: self.genre.deep_view(),
        }
    }
}

/// The fields before any tag is read: the fallback title, the placeholder
/// artist and album, and nothing else.
pub open spec fn initial_fields(default_title: Seq<char>) -> TagFields {
    TagFields {
        title: default_title,
        artist: "Unknown Artist"@,
        album: "Unknown Album"@,
        track_number: None,
        disc_number: None,
        release_year: None,
        genre: None,
    }
}

/// The fields after one more tag. A tag with one of the standard keys sets
/// its field whatever the field holds. Any other tag is matched by the
/// uppercase form of its raw name, and sets its field only while the field
/// still holds its initial value.
pub open spec fn apply_tag(
    fields: TagFields,
    std_key: Option<StandardTagKey>,
    upper_key: Seq<char>,
    value: Seq<char>,
    default_title: Seq<char>,
) -> TagFields {
    match std_key {
        Some(StandardTagKey::TrackTitle) => TagFields { title: value, ..fields },
        Some(StandardTagKey::Artist) => TagFields { artist: value, ..fields },
        Some(StandardTagKey::Album) => TagFields { album: value, ..fields },
        Some(StandardTagKey::TrackNumber) => TagFields {
            track_number: parsed_u32(value),
            ..fields
        },
        Some(StandardTagKey::DiscNumber) => TagFields { disc_number: parsed_u32(value), ..fields },
        Some(StandardTagKey::Date) => TagFields { release_year: parsed_year(value), ..fields },
        Some(StandardTagKey::Genre) => TagFields { genre: Some(value), ..fields },
        _ => {
            if upper_key == "TITLE"@ && fields.title == default_title {
                TagFields { title: value, ..fields }
            } else if upper_key == "ARTIST"@ && fields.artist == "Unknown Artist"@ {
                TagFields { artist: value, ..fields }
            } else if upper_key == "ALBUM"@ && fields.album == "Unknown Album"@ {
                TagFields { album: value, ..fields }
            } else if upper_key == "TRACKNUMBER"@ && fields.track_number is None {
                TagFields { track_number: parsed_u32(value), ..fields }
            } else if upper_key == "DISCNUMBER"@ && fields.disc_number is None {
                TagFields { disc_number: parsed_u32(value), ..fields }
            } else if upper_key == "DATE"@ && fields.release_year is None {
                TagFields { release_year: parsed_year(value), ..fields }
            } else if upper_key == "GENRE"@ && fields.genre is None {
                TagFields { genre: Some(value), ..fields }
            } else {
                fields
            }
        },
    }
}

/// The fields after all tags, read in order.
pub open spec fn apply_tags(
    fields: TagFields,
    tags: Seq<MediaTagView>,
    default_title: Seq<char>,
) -> TagFields
    decreases tags.len(),
{
    if tags.len() == 0 {
        fields
    } else {
        let tag = tags.last();
        apply_tag(
            apply_tags(fields, tags.drop_last(), default_title),
            tag.std_key,
            uppercase(tag.key),
            tag.value,
            default_title,
        )
    }
}

/// Whole seconds of audio: frames divided by the sample rate, rounded down
/// and capped at what 32 bits hold. With a sample rate of zero the quotient
/// is zero for no frames and the cap otherwise. Zero where either number is
/// not known.
pub open spec fn duration_seconds(n_frames: Option<u64>, sample_rate: Option<u32>) -> u32 {
    match (n_frames, sample_rate) {
        (Some(frames), Some(rate)) => {
            if rate == 0 {
                if frames == 0 {
                    0
                } else {
                    u32::MAX
                }
            } else if frames / (rate as u64) > u32::MAX {
                u32::MAX
            } else {
                (frames / (rate as u64)) as u32
            }
        },
        _ => 0,
    }
}

/// An embedded picture counts as artwork when its media type begins with
/// `image/`.
pub open spec fn is_image(visual: VisualView) -> bool {
    has_prefix(visual.media_type, "image/"@)
}

/// The position of the first image at or after `from`, or the number of
/// pictures where there is none.
pub open spec fn first_image_from(visuals: Seq<VisualView>, from: int) -> int
    decreases visuals.len() - from,
{
    if from >= visuals.len() {
        visuals.len() as int
    } else if is_image(visuals[from]) {
        from
    } else {
        first_image_from(visuals, from + 1)
    }
}

/// The position of the first existing cover at or after `from`, or the
/// number of candidates where there is none.
pub open spec fn first_cover_from(covers: Seq<CoverCandidateView>, from: int) -> int
    decreases covers.len() - from,
{
    if from >= covers.len() {
        covers.len() as int
    } else if covers[from].exists {
        from
    } else {
        first_cover_from(covers, from + 1)
    }
}

/// The artwork of a file: the first embedded image as thumbnail; failing
/// that, the first existing cover file as full art; failing that, none.
pub open spec fn resolved_artwork(
    visuals: Seq<VisualView>,
    covers: Seq<CoverCandidateView>,
) -> ArtworkView {
    let image = first_image_from(visuals, 0);
    let cover = first_cover_from(covers, 0);
    if image < visuals.len() {
        ArtworkView { thumbnail: Some(visuals[image].data), full_art: ArtworkSourceView::Absent }
    } else if cover < covers.len() {
        ArtworkView {
            thumbnail: None,
            full_art: ArtworkSourceView::Local { path: covers[cover].path },
        }
    } else {
        ArtworkView { thumbnail: None, full_art: ArtworkSourceView::Absent }
    }
}

/// The title of a file without a title tag: its file stem, or `Unknown`.
pub open spec fn default_title(path: Seq<char>) -> Seq<char> {
    match path_file_stem(path) {
        Some(stem) => stem,
        None => "Unknown"@,
    }
}

/// The format of a file: its lowercase extension, or `unknown`.
pub open spec fn file_format(path: Seq<char>) -> Seq<char> {
    match path_extension(path) {
        Some(ext) => lowercase(ext),
        None => lowercase("unknown"@),
    }
}

/// The track that a probed file becomes.
pub open spec fn extracted_track(path: Seq<char>, media: ProbedMediaView) -> TrackView {
    let fields = apply_tags(initial_fields(default_title(path)), media.tags, default_title(path));
    TrackView {
        id: stable_id(path),
        title: fields.title,
        artist: fields.artist,
        album: fields.album,
        duration: duration_seconds(media.n_frames, media.sample_rate),
        track_number: fields.track_number,
        disc_number: fields.disc_number,
        release_year: fields.release_year,
        genre: fields.genre,
        artwork: resolved_artwork(media.visuals, media.covers),
        source: PlaybackSourceView::Local {
            file_format: file_format(path),
            file_size: media.file_size,
            path: path,
        },
    }
}

/// The track that the file at `path` gives, where probing it succeeded.
pub open spec fn probed_track(path: Seq<char>, outcome: ProbeOutcomeView) -> Option<TrackView> {
    match outcome {
        ProbeOutcomeView::Probed(media) => Some(extracted_track(path, media)),
        _ => None,
    }
}

/// The tracks that scanned files give, in the order of the files; a file
/// that could not be probed gives none.
pub open spec fn scanned_tracks(files: Seq<ScannedFileView>) -> Seq<TrackView>
    decreases files.len(),
{
    if files.len() == 0 {
        Seq::empty()
    } else {
        let earlier = scanned_tracks(files.drop_last());
        match probed_track(files.last().path, files.last().outcome) {
            Some(track) => earlier.push(track),
            None => earlier,
        }
    }
}

/// The names of the conventional cover files, in order of preference.
pub open spec fn cover_filenames() -> Seq<Seq<char>> {
    seq![
        "cover.jpg"@,
        "cover.jpeg"@,
        "cover.png"@,
        "folder.jpg"@,
        "folder.jpeg"@,
        "folder.png"@,
        "album.jpg"@,
        "album.jpeg"@,
        "album.png"@,
        "front.jpg"@,
        "front.jpeg"@,
        "front.png"@,
    ]
}

/// Finds the media files of a library and turns what probing them found
/// into tracks.
pub struct FileScanner;

impl FileScanner {
    /// Whether a lowercase extension is one of the indexed audio formats.
    pub fn is_audio_extension(lowered: &str) -> (r: bool)
        ensures
            r == is_audio_extension(lowered@),
    {
        text_equals(lowered, "mp3") || text_equals(lowered, "flac") || text_equals(lowered, "m4a")
            || text_equals(lowered, "ogg") || text_equals(lowered, "wav")
    }

    /// Whether a path names a music file.
    pub fn is_music_file(path: &str) -> (r: bool)
        ensures
            r == is_music_path(path@),
    {
        match extension_of(path) {
            Some(ext) => {
                let lowered = ext.as_str().to_lowercase();
                Self::is_audio_extension(lowered.as_str())
            },
            None => false,
        }
    }

    /// Whether a path names a music file.
    pub fn is_music_file_public(path: &str) -> (r: bool)
        ensures
            r == is_music_path(path@),
    {
        Self::is_music_file(path)
    }

    /// The music files among the entries found under a root folder, in the
    /// order in which they were found.
    pub fn scan_directory(entries: &Vec<String>) -> (r: Result<Vec<String>, ServiceError>)
        ensures
            r matches Ok(files) && files.deep_view() == music_paths(entries.deep_view()),
    {
        let mut files: Vec<String> = Vec::new();
        let mut i: usize = 0;
        while i < entries.len()
            invariant
                i <= entries.len(),
                files.deep_view() == music_paths(entries.deep_view().take(i as int)),
            decreases entries.len() - i,
        {
            let ghost before = files.deep_view();
            assert(entries.deep_view().take(i + 1).drop_last() == entries.deep_view().take(
                i as int,
            ));
            assert(entries.deep_view().take(i + 1).last() == entries@[i as int]@);
            if Self::is_music_file(entries[i].as_str()) {
                files.push(entries[i].clone());
                assert(files.deep_view() =~= before.push(entries@[i as int]@));
            }
            i += 1;
        }
        assert(entries.deep_view().take(entries.len() as int) == entries.deep_view());
        Ok(files)
    }

    /// The names of the conventional cover files, in order of preference.
    pub fn cover_filenames() -> (r: Vec<String>)
        ensures
            r.deep_view() == cover_filenames(),
    {
        let mut names: Vec<String> = Vec::new();
        names.push(String::from_str("cover.jpg"));
        names.push(String::from_str("cover.jpeg"));
        names.push(String::from_str("cover.png"));
        names.push(String::from_str("folder.jpg"));
        names.push(String::from_str("folder.jpeg"));
        names.push(String::from_str("folder.png"));
        names.push(String::from_str("album.jpg"));
        names.push(String::from_str("album.jpeg"));
        names.push(String::from_str("album.png"));
        names.push(String::from_str("front.jpg"));
        names.push(String::from_str("front.jpeg"));
        names.push(String::from_str("front.png"));
        assert(names.deep_view() =~= cover_filenames());
        names
    }

    /// The fields before any tag is read.
    pub fn initial_fields(default_title: &str) -> (r: ResolvedTags)
        ensures
            r@ == initial_fields(default_title@),
    {
        ResolvedTags {
            title: String::from_str(default_title),
            artist: String::from_str("Unknown Artist"),
            album: String::from_str("Unknown Album"),
            track_number: None,
            disc_number: None,
            release_year: None,
            genre: None,
        }
    }

    /// Applies one tag to the fields resolved so far. `upper_key` is the
    /// uppercase form of the tag's raw name.
    pub fn apply_tag(
        fields: ResolvedTags,
        std_key: Option<StandardTagKey>,
        upper_key: &str,
        value: &str,
        default_title: &str,
    ) -> (r: ResolvedTags)
        ensures
            r@ == apply_tag(fields@, std_key, upper_key@, value@, default_title@),
    {
        let mut fields = fields;
        match std_key {
            Some(StandardTagKey::TrackTitle) => {
                fields.title = String::from_str(value);
            },
            Some(StandardTagKey::Artist) => {
                fields.artist = String::from_str(value);
            },
            Some(StandardTagKey::Album) => {
                fields.album = String::from_str(value);
            },
            Some(StandardTagKey::TrackNumber) => {
                fields.track_number = parse_u32(&chars_of(value));
            },
            Some(StandardTagKey::DiscNumber) => {
                fields.disc_number = parse_u32(&chars_of(value));
            },
            Some(StandardTagKey::Date) => {
                fields.release_year = parse_year(&chars_of(value));
            },
            Some(StandardTagKey::Genre) => {
                fields.genre = Some(String::from_str(value));
            },
            _ => {
                if text_equals(upper_key, "TITLE") && text_equals(
                    fields.title.as_str(),
                    default_title,
                ) {
                    fields.title = String::from_str(value);
                } else if text_equals(upper_key, "ARTIST") && text_equals(
                    fields.artist.as_str(),
                    "Unknown Artist",
                ) {
                    fields.artist = String::from_str(value);
                } else if text_equals(upper_key, "ALBUM") && text_equals(
                    fields.album.as_str(),
                    "Unknown Album",
                ) {
                    fields.album = String::from_str(value);
                } else if text_equals(upper_key, "TRACKNUMBER") && fields.track_number.is_none() {
                    fields.track_number = parse_u32(&chars_of(value));
                } else if text_equals(upper_key, "DISCNUMBER") && fields.disc_number.is_none() {
                    fields.disc_number = parse_u32(&chars_of(value));
                } else if text_equals(upper_key, "DATE") && fields.release_year.is_none() {
                    fields.release_year = parse_year(&chars_of(value));
                } else if text_equals(upper_key, "GENRE") && fields.genre.is_none() {
                    fields.genre = Some(String::from_str(value));
                }
            },
        }
        fields
    }

    /// Resolves the tags of a file, read in order, into the fields of its
    /// track.
    pub fn resolve_tags(tags: &Vec<MediaTag>, default_title: &str) -> (r: ResolvedTags)
        ensures
            r@ == apply_tags(initial_fields(default_title@), tag_views(tags@), default_title@),
    {
        let ghost all = tag_views(tags@);
        let mut fields = Self::initial_fields(default_title);
        let mut i: usize = 0;
        while i < tags.len()
            invariant
                i <= tags.len(),
                all == tag_views(tags@),
                fields@ == apply_tags(
                    initial_fields(default_title@),
                    all.take(i as int),
                    default_title@,
                ),
            decreases tags.len() - i,
        {
            assert(all.take(i + 1).drop_last() == all.take(i as int));
            assert(all.take(i + 1).last() == tags@[i as int]@);
            let upper_key = tags[i].key.as_str().to_uppercase();
            fields =
            Self::apply_tag(
                fields,
                tags[i].std_key,
                upper_key.as_str(),
                tags[i].value.as_str(),
                default_title,
            );
            i += 1;
        }
        assert(all.take(tags.len() as int) == all);
        fields
    }

    /// Whole seconds of audio in a stream of `n_frames` frames at
    /// `sample_rate` frames per second.
    pub fn duration_of(n_frames: Option<u64>, sample_rate: Option<u32>) -> (r: u32)
        ensures
            r == duration_seconds(n_frames, sample_rate),
    {
        match (n_frames, sample_rate) {
            (Some(frames), Some(rate)) => {
                if rate == 0 {
                    if frames == 0 {
                        0
                    } else {
                        u32::MAX
                    }
                } else {
                    let seconds: u64 = frames / (rate as u64);
                    if seconds > 0xffff_ffff {
                        u32::MAX
                    } else {
                        seconds as u32
                    }
                }
            },
            _ => 0,
        }
    }

    /// Picks the artwork of a file from its embedded pictures and the cover
    /// files beside it.
    pub fn resolve_artwork(visuals: &Vec<Visual>, covers: &Vec<CoverCandidate>) -> (r: Artwork)
        ensures
            r@ == resolved_artwork(visual_views(visuals@), cover_views(covers@)),
    {
        let ghost pictures = visual_views(visuals@);
        let ghost candidates = cover_views(covers@);
        let image_prefix = chars_of("image/");
        let mut i: usize = 0;
        while i < visuals.len()
            invariant
                i <= visuals.len(),
                image_prefix@ == "image/"@,
                pictures == visual_views(visuals@),
                first_image_from(pictures, 0) == first_image_from(pictures, i as int),
            decreases visuals.len() - i,
        {
            let media_type = chars_of(visuals[i].media_type.as_str());
            if starts_with_chars(&media_type, &image_prefix) {
                assert(is_image(pictures[i as int]));
                let data = copy_bytes(&visuals[i].data);
                assert(data.deep_view() =~= pictures[i as int].data);
                return Artwork { thumbnail: Some(data), full_art: ArtworkSource::Absent };
            }
            assert(!is_image(pictures[i as int]));
            i += 1;
        }
        let mut j: usize = 0;
        while j < covers.len()
            invariant
                j <= covers.len(),
                candidates == cover_views(covers@),
                pictures == visual_views(visuals@),
                first_image_from(pictures, 0) == visuals.len(),
                first_cover_from(candidates, 0) == first_cover_from(candidates, j as int),
            decreases covers.len() - j,
        {
            if covers[j].exists {
                assert(candidates[j as int].exists);
                return Artwork {
                    thumbnail: None,
                    full_art: ArtworkSource::Local { path: covers[j].path.clone() },
                };
            }
            assert(!candidates[j as int].exists);
            j += 1;
        }
        Artwork { thumbnail: None, full_art: ArtworkSource::Absent }
    }

    /// Builds the track of a probed file.
    pub fn build_track(path: &str, media: &ProbedMedia) -> (r: Track)
        ensures
            r@ == extracted_track(path@, media@),
    {
        let title = match file_stem_of(path) {
            Some(stem) => stem,
            None => String::from_str("Unknown"),
        };
        let fields = Self::resolve_tags(&media.tags, title.as_str());
        let format = match extension_of(path) {
            Some(ext) => ext.as_str().to_lowercase(),
            None => "unknown".to_lowercase(),
        };
        Track {
            id: stable_id_of(path),
            title: fields.title,
            artist: fields.artist,
            album: fields.album,
            duration: Self::duration_of(media.n_frames, media.sample_rate),
            track_number: fields.track_number,
            disc_number: fields.disc_number,
            release_year: fields.release_year,
            genre: fields.genre,
            artwork: Self::resolve_artwork(&media.visuals, &media.covers),
            source: PlaybackSource::Local {
                file_format: format,
                file_size: media.file_size,
                path: String::from_str(path),
            },
        }
    }

    /// Turns the outcome of probing the file at `path` into a track, or into
    /// the failure that says why there is none.
    pub fn process_file(path: &str, outcome: &ProbeOutcome) -> (r: Result<Track, ServiceError>)
        ensures
            match *outcome {
                ProbeOutcome::Missing => r matches Err(ServiceError::NotFound(m)) && m@ == path@,
                ProbeOutcome::Unreadable(why) => r matches Err(ServiceError::Unreadable(m)) && m@
                    == why@,
                ProbeOutcome::Unsupported(why) => r matches Err(ServiceError::UnsupportedFormat(m))
                    && m@ == why@,
                ProbeOutcome::Probed(media) => r matches Ok(track) && track@ == extracted_track(
                    path@,
                    media@,
                ),
            },
            match r {
                Ok(track) => probed_track(path@, outcome@) == Some(track@),
                Err(_) => probed_track(path@, outcome@) is None,
            },
    {
        match outcome {
            ProbeOutcome::Missing => Err(ServiceError::NotFound(String::from_str(path))),
            ProbeOutcome::Unreadable(why) => Err(ServiceError::Unreadable(why.clone())),
            ProbeOutcome::Unsupported(why) => Err(ServiceError::UnsupportedFormat(why.clone())),
            ProbeOutcome::Probed(media) => Ok(Self::build_track(path, media)),
        }
    }
}

} // verus!
