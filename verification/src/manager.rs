//! The registry of providers: it merges what the providers return.

use crate::catalog::{all_albums, all_artists, CatalogView};
use crate::error::ServiceError;
use crate::models::{
    album_views, artist_views, item_views, track_views, Album, AlbumView, Artist, ArtistView,
    PlayableItem, PlayableItemView, SearchResults, SearchWeights, Track, TrackView,
};
use crate::paging::page_of;
use crate::provider::{wrapped, LocalMusicProvider};
use crate::ranking::{lowered, picked, positions, ranked_albums, ranked_artists, ranked_tracks};
use crate::text::{
    comes_before, lemma_text_before_irreflexive, lemma_text_before_total,
    lemma_text_before_transitive, lowercase, same_chars, text_before,
};
use vstd::prelude::*;
use vstd::string::StringExecFns;

verus! {

/// The key by which merged results are ordered: the major text decides,
/// and the minor text where the major texts are equal.
#[derive(Debug)]
pub struct SortKey {
    pub major: Vec<char>,
    pub minor: Vec<char>,
}

/// The mathematical view of a [`SortKey`].
pub struct SortKeyView {
    pub major: Seq<char>,
    pub minor: Seq<char>,
}

impl View for SortKey {
    type V = SortKeyView;

    open spec fn view(&self) -> SortKeyView {
        SortKeyView { major: self.major@, minor: self.minor@ }
    }
}

/// The views of a sequence of keys, in order.
pub open spec fn key_views(keys: Seq<SortKey>) -> Seq<SortKeyView> {
    Seq::new(keys.len(), |i: int| keys[i]@)
}

/// Whether key `a` comes strictly before key `b`.
pub open spec fn key_before(a: SortKeyView, b: SortKeyView) -> bool {
    text_before(a.major, b.major) || (a.major == b.major && text_before(a.minor, b.minor))
}

/// Where a newcomer with the given key joins an order, looking from `from`
/// on: before the first entry whose key comes strictly after its own, or at
/// the end.
pub open spec fn sort_slot_from(
    keys: Seq<SortKeyView>,
    order: Seq<int>,
    key: SortKeyView,
    from: int,
) -> int
    decreases order.len() - from,
{
    if from >= order.len() || from < 0 {
        order.len() as int
    } else if key_before(key, keys[order[from]]) {
        from
    } else {
        sort_slot_from(keys, order, key, from + 1)
    }
}

/// The positions of the keys in sorted order. The order is stable: of two
/// entries with keys of which neither comes before the other, the earlier
/// one stays first.
pub open spec fn sorted_positions(keys: Seq<SortKeyView>) -> Seq<int>
    decreases keys.len(),
{
    if keys.len() == 0 {
        Seq::empty()
    } else {
        let earlier = sorted_positions(keys.drop_last());
        let last = keys.len() - 1;
        earlier.insert(sort_slot_from(keys, earlier, keys[last], 0), last)
    }
}

/// The order of keys is a strict total order: no key comes before itself,
/// the order is transitive, and of two different keys one comes first.
pub proof fn lemma_key_before_order(a: SortKeyView, b: SortKeyView, c: SortKeyView)
    ensures
        !key_before(a, a),
        key_before(a, b) && key_before(b, c) ==> key_before(a, c),
        key_before(a, b) || key_before(b, a) || a == b,
        !(key_before(a, b) && key_before(b, a)),
{
    lemma_text_before_irreflexive(a.major, 0);
    lemma_text_before_irreflexive(a.minor, 0);
    assert(a.major.take(0) =~= b.major.take(0));
    assert(a.minor.take(0) =~= b.minor.take(0));
    lemma_text_before_total(a.major, b.major, 0);
    lemma_text_before_total(a.minor, b.minor, 0);
    if key_before(a, b) && key_before(b, c) {
        if text_before(a.major, b.major) && text_before(b.major, c.major) {
            lemma_text_before_transitive(a.major, b.major, c.major, 0);
        } else if a.major == b.major && b.major == c.major {
            lemma_text_before_transitive(a.minor, b.minor, c.minor, 0);
        }
    }
    if key_before(a, b) && key_before(b, a) {
        if text_before(a.major, b.major) && text_before(b.major, a.major) {
            lemma_text_before_transitive(a.major, b.major, a.major, 0);
        } else if a.major == b.major {
            lemma_text_before_transitive(a.minor, b.minor, a.minor, 0);
        }
    }
}

/// Whether `order` lists the positions of the keys in sorted order: no
/// entry's key comes before the key of an entry ahead of it, and entries
/// with the same key keep the order of their positions.
pub open spec fn is_stable_sort(keys: Seq<SortKeyView>, order: Seq<int>) -> bool {
    &&& order.len() == keys.len()
    &&& forall|k: int| 0 <= k < order.len() ==> 0 <= #[trigger] order[k] < keys.len()
    &&& forall|k: int, l: int|
        0 <= k < l < order.len() ==> !key_before(
            keys[#[trigger] order[l]],
            keys[#[trigger] order[k]],
        ) && (keys[order[k]] == keys[order[l]] ==> order[k] < order[l])
}

/// The slot is where the newcomer belongs: no key before the slot comes
/// after the newcomer's key, and the key at the slot does.
pub proof fn lemma_sort_slot_bounds(
    keys: Seq<SortKeyView>,
    order: Seq<int>,
    key: SortKeyView,
    from: int,
)
    requires
        0 <= from <= order.len(),
    ensures
        from <= sort_slot_from(keys, order, key, from) <= order.len(),
        forall|k: int|
            from <= k < sort_slot_from(keys, order, key, from) ==> !key_before(
                key,
                keys[#[trigger] order[k]],
            ),
        sort_slot_from(keys, order, key, from) < order.len() ==> key_before(
            key,
            keys[order[sort_slot_from(keys, order, key, from)]],
        ),
    decreases order.len() - from,
{
    if from < order.len() && !key_before(key, keys[order[from]]) {
        lemma_sort_slot_bounds(keys, order, key, from + 1);
    }
}

/// The order that is built is sorted, and stable.
pub proof fn lemma_sorted_positions_sorted(keys: Seq<SortKeyView>)
    ensures
        is_stable_sort(keys, sorted_positions(keys)),
    decreases keys.len(),
{
    lemma_sorted_positions(keys);
    if keys.len() > 0 {
        let shorter = keys.drop_last();
        let earlier = sorted_positions(shorter);
        let last = keys.len() - 1;
        let key = keys[last];
        lemma_sorted_positions_sorted(shorter);
        lemma_sorted_positions(shorter);
        let slot = sort_slot_from(keys, earlier, key, 0);
        lemma_sort_slot_bounds(keys, earlier, key, 0);
        let order = earlier.insert(slot, last);
        assert(order == sorted_positions(keys));
        assert forall|k: int| 0 <= k < earlier.len() implies shorter[#[trigger] earlier[k]]
            == keys[earlier[k]] by {}
        assert forall|k: int, l: int| 0 <= k < l < order.len() implies !key_before(
            keys[#[trigger] order[l]],
            keys[#[trigger] order[k]],
        ) && (keys[order[k]] == keys[order[l]] ==> order[k] < order[l]) by {
            if l < slot {
                assert(order[k] == earlier[k] && order[l] == earlier[l]);
                assert(shorter[earlier[k]] == keys[earlier[k]]);
                assert(shorter[earlier[l]] == keys[earlier[l]]);
            } else if l == slot {
                assert(order[k] == earlier[k]);
                assert(!key_before(key, keys[earlier[k]]));
                assert(earlier[k] < last);
            } else if k < slot {
                assert(order[k] == earlier[k] && order[l] == earlier[l - 1]);
                assert(shorter[earlier[k]] == keys[earlier[k]]);
                assert(shorter[earlier[l - 1]] == keys[earlier[l - 1]]);
            } else if k == slot {
                assert(order[l] == earlier[l - 1]);
                let at_slot = keys[earlier[slot]];
                let later = keys[earlier[l - 1]];
                assert(key_before(key, at_slot));
                assert(shorter[earlier[slot]] == at_slot);
                assert(shorter[earlier[l - 1]] == later);
                if slot < l - 1 {
                    assert(!key_before(later, at_slot));
                }
                lemma_key_before_order(key, at_slot, later);
                lemma_key_before_order(later, key, at_slot);
                lemma_key_before_order(at_slot, later, key);
            } else {
                assert(order[k] == earlier[k - 1] && order[l] == earlier[l - 1]);
                assert(shorter[earlier[k - 1]] == keys[earlier[k - 1]]);
                assert(shorter[earlier[l - 1]] == keys[earlier[l - 1]]);
            }
        }
    }
}

/// The sorted order is a rearrangement: it holds every position once.
pub proof fn lemma_sorted_positions(keys: Seq<SortKeyView>)
    ensures
        sorted_positions(keys).len() == keys.len(),
        forall|k: int|
            0 <= k < keys.len() ==> 0 <= #[trigger] sorted_positions(keys)[k] < keys.len(),
        forall|i: int| 0 <= i < keys.len() ==> sorted_positions(keys).contains(i),
    decreases keys.len(),
{
    if keys.len() > 0 {
        let shorter = keys.drop_last();
        let earlier = sorted_positions(shorter);
        let last = keys.len() - 1;
        lemma_sorted_positions(shorter);
        let slot = sort_slot_from(keys, earlier, keys[last], 0);
        lemma_sort_slot_bounds(keys, earlier, keys[last], 0);
        let order = earlier.insert(slot, last);
        assert forall|k: int| 0 <= k < keys.len() implies 0 <= #[trigger] order[k]
            < keys.len() by {
            if k < slot {
                assert(order[k] == earlier[k]);
            } else if k > slot {
                assert(order[k] == earlier[k - 1]);
            }
        }
        assert forall|i: int| 0 <= i < keys.len() implies order.contains(i) by {
            if i == last {
                assert(order[slot] == last);
            } else {
                assert(earlier.contains(i));
                let k = choose|k: int| 0 <= k < earlier.len() && earlier[k] == i;
                if k < slot {
                    assert(order[k] == i);
                } else {
                    assert(order[k + 1] == i);
                }
            }
        }
    }
}

/// Whether key `a` comes strictly before key `b`.
pub fn key_comes_before(a: &SortKey, b: &SortKey) -> (r: bool)
    ensures
        r == key_before(a@, b@),
{
    if comes_before(&a.major, &b.major) {
        return true;
    }
    same_chars(&a.major, &b.major) && comes_before(&a.minor, &b.minor)
}

/// The positions of the keys in sorted order.
pub fn sort_positions(keys: &Vec<SortKey>) -> (r: Vec<usize>)
    ensures
        positions(r@) == sorted_positions(key_views(keys@)),
        is_stable_sort(key_views(keys@), positions(r@)),
        r.len() == keys.len(),
        forall|k: int| 0 <= k < r.len() ==> #[trigger] r@[k] < keys.len(),
{
    let ghost all = key_views(keys@);
    let mut order: Vec<usize> = Vec::new();
    let mut i: usize = 0;
    assert(positions(order@) =~= sorted_positions(all.take(0)));
    while i < keys.len()
        invariant
            i <= keys.len(),
            all == key_views(keys@),
            order.len() == i,
            positions(order@) == sorted_positions(all.take(i as int)),
            forall|k: int| 0 <= k < order.len() ==> #[trigger] order@[k] < i,
        decreases keys.len() - i,
    {
        let ghost shorter = all.take(i as int);
        let ghost longer = all.take(i + 1);
        let ghost earlier = positions(order@);
        assert(longer.drop_last() == shorter);
        let mut slot: usize = 0;
        while slot < order.len() && !key_comes_before(&keys[i], &keys[order[slot]])
            invariant
                slot <= order.len(),
                i < keys.len(),
                all == key_views(keys@),
                longer == all.take(i + 1),
                earlier == positions(order@),
                forall|k: int| 0 <= k < order.len() ==> #[trigger] order@[k] < i,
                sort_slot_from(longer, earlier, all[i as int], 0) == sort_slot_from(
                    longer,
                    earlier,
                    all[i as int],
                    slot as int,
                ),
            decreases order.len() - slot,
        {
            assert(earlier[slot as int] == order@[slot as int]);
            assert(longer[earlier[slot as int]] == keys@[order@[slot as int] as int]@);
            slot += 1;
        }
        proof {
            if slot < order.len() {
                assert(earlier[slot as int] == order@[slot as int]);
                assert(longer[earlier[slot as int]] == keys@[order@[slot as int] as int]@);
            }
            assert(longer[longer.len() - 1] == all[i as int]);
        }
        order.insert(slot, i);
        assert(positions(order@) =~= earlier.insert(slot as int, i as int));
        i += 1;
    }
    assert(all.take(keys.len() as int) == all);
    proof {
        lemma_sorted_positions_sorted(all);
    }
    order
}

/// The keys by which artists are ordered: the lowercase name.
pub open spec fn artist_keys(artists: Seq<ArtistView>) -> Seq<SortKeyView> {
    Seq::new(
        artists.len(),
        |i: int| SortKeyView { major: lowercase(artists[i].name), minor: Seq::empty() },
    )
}

/// The keys by which albums are ordered: the lowercase artist, then the
/// lowercase title.
pub open spec fn album_keys(albums: Seq<AlbumView>) -> Seq<SortKeyView> {
    Seq::new(
        albums.len(),
        |i: int|
            SortKeyView { major: lowercase(albums[i].artist), minor: lowercase(albums[i].title) },
    )
}

/// The artists without those that repeat the name of the artist just
/// before them.
pub open spec fn without_repeated_artists(artists: Seq<ArtistView>) -> Seq<ArtistView>
    decreases artists.len(),
{
    if artists.len() == 0 {
        artists
    } else if artists.len() >= 2 && artists[artists.len() - 1].name == artists[artists.len()
        - 2].name {
        without_repeated_artists(artists.drop_last())
    } else {
        without_repeated_artists(artists.drop_last()).push(artists.last())
    }
}

/// The albums without those that repeat the title and artist of the album
/// just before them.
pub open spec fn without_repeated_albums(albums: Seq<AlbumView>) -> Seq<AlbumView>
    decreases albums.len(),
{
    if albums.len() == 0 {
        albums
    } else if albums.len() >= 2 && albums[albums.len() - 1].title == albums[albums.len()
        - 2].title && albums[albums.len() - 1].artist == albums[albums.len() - 2].artist {
        without_repeated_albums(albums.drop_last())
    } else {
        without_repeated_albums(albums.drop_last()).push(albums.last())
    }
}

/// The artists of several providers as one list: ordered by lowercase name,
/// and of neighbours with the same name only the first.
pub open spec fn merged_artists(artists: Seq<ArtistView>) -> Seq<ArtistView> {
    without_repeated_artists(picked(artists, sorted_positions(artist_keys(artists))))
}

/// The albums of several providers as one list: ordered by lowercase artist
/// and title, and of neighbours with the same title and artist only the
/// first.
pub open spec fn merged_albums(albums: Seq<AlbumView>) -> Seq<AlbumView> {
    without_repeated_albums(picked(albums, sorted_positions(album_keys(albums))))
}

/// Merges the artists that the providers returned.
pub fn merge_artists(artists: &Vec<Artist>) -> (r: Vec<Artist>)
    ensures
        artist_views(r@) == merged_artists(artist_views(artists@)),
{
    let ghost all = artist_views(artists@);
    let mut keys: Vec<SortKey> = Vec::new();
    let mut i: usize = 0;
    while i < artists.len()
        invariant
            i <= artists.len(),
            all == artist_views(artists@),
            key_views(keys@) == artist_keys(all).take(i as int),
        decreases artists.len() - i,
    {
        let key = SortKey { major: lowered(artists[i].name.as_str()), minor: Vec::new() };
        assert(all[i as int] == artists@[i as int]@);
        assert(key@.minor =~= Seq::<char>::empty());
        assert(key@ == artist_keys(all)[i as int]);
        let ghost before = key_views(keys@);
        keys.push(key);
        assert(key_views(keys@) =~= before.push(artist_keys(all)[i as int]));
        assert(key_views(keys@) =~= artist_keys(all).take(i + 1));
        i += 1;
    }
    assert(artist_keys(all).take(artists.len() as int) == artist_keys(all));
    let order = sort_positions(&keys);
    let ghost sorted = picked(all, positions(order@));
    assert(forall|k: int| 0 <= k < order.len() ==> sorted[k] == all[order@[k] as int]);
    let mut out: Vec<Artist> = Vec::new();
    let mut k: usize = 0;
    assert(artist_views(out@) =~= without_repeated_artists(sorted.take(0)));
    while k < order.len()
        invariant
            k <= order.len(),
            order.len() == sorted.len(),
            all == artist_views(artists@),
            forall|j: int| 0 <= j < order.len() ==> #[trigger] order@[j] < artists.len(),
            forall|j: int| 0 <= j < order.len() ==> sorted[j] == all[order@[j] as int],
            artist_views(out@) == without_repeated_artists(sorted.take(k as int)),
        decreases order.len() - k,
    {
        let ghost head = sorted.take(k + 1);
        assert(head.drop_last() == sorted.take(k as int));
        assert(head.last() == sorted[k as int]);
        let ghost kept = artist_views(out@);
        let repeated = k > 0 && artists[order[k]].name == artists[order[k - 1]].name;
        proof {
            if k > 0 {
                assert(head[k - 1] == sorted[k - 1]);
            }
        }
        if !repeated {
            out.push(artists[order[k]].clone());
            assert(artist_views(out@) =~= kept.push(sorted[k as int]));
        }
        k += 1;
    }
    assert(sorted.take(order.len() as int) == sorted);
    out
}

/// Merges the albums that the providers returned.
pub fn merge_albums(albums: &Vec<Album>) -> (r: Vec<Album>)
    ensures
        album_views(r@) == merged_albums(album_views(albums@)),
{
    let ghost all = album_views(albums@);
    let mut keys: Vec<SortKey> = Vec::new();
    let mut i: usize = 0;
    while i < albums.len()
        invariant
            i <= albums.len(),
            all == album_views(albums@),
            key_views(keys@) == album_keys(all).take(i as int),
        decreases albums.len() - i,
    {
        let key = SortKey {
            major: lowered(albums[i].artist.as_str()),
            minor: lowered(albums[i].title.as_str()),
        };
        assert(all[i as int] == albums@[i as int]@);
        assert(key@ == album_keys(all)[i as int]);
        let ghost before = key_views(keys@);
        keys.push(key);
        assert(key_views(keys@) =~= before.push(album_keys(all)[i as int]));
        assert(key_views(keys@) =~= album_keys(all).take(i + 1));
        i += 1;
    }
    assert(album_keys(all).take(albums.len() as int) == album_keys(all));
    let order = sort_positions(&keys);
    let ghost sorted = picked(all, positions(order@));
    assert(forall|k: int| 0 <= k < order.len() ==> sorted[k] == all[order@[k] as int]);
    let mut out: Vec<Album> = Vec::new();
    let mut k: usize = 0;
    assert(album_views(out@) =~= without_repeated_albums(sorted.take(0)));
    while k < order.len()
        invariant
            k <= order.len(),
            order.len() == sorted.len(),
            all == album_views(albums@),
            forall|j: int| 0 <= j < order.len() ==> #[trigger] order@[j] < albums.len(),
            forall|j: int| 0 <= j < order.len() ==> sorted[j] == all[order@[j] as int],
            album_views(out@) == without_repeated_albums(sorted.take(k as int)),
        decreases order.len() - k,
    {
        let ghost head = sorted.take(k + 1);
        assert(head.drop_last() == sorted.take(k as int));
        assert(head.last() == sorted[k as int]);
        let ghost kept = album_views(out@);
        let repeated = k > 0 && albums[order[k]].title == albums[order[k - 1]].title
            && albums[order[k]].artist == albums[order[k - 1]].artist;
        proof {
            if k > 0 {
                assert(head[k - 1] == sorted[k - 1]);
            }
        }
        if !repeated {
            out.push(albums[order[k]].clone());
            assert(album_views(out@) =~= kept.push(sorted[k as int]));
        }
        k += 1;
    }
    assert(sorted.take(order.len() as int) == sorted);
    out
}

/// A registered provider, as the manager's contracts see it: its name and
/// the contents of its catalog.
pub struct ProviderEntry {
    pub name: Seq<char>,
    pub catalog: CatalogView,
}

/// Some entry has the name.
pub open spec fn has_entry(entries: Seq<ProviderEntry>, name: Seq<char>) -> bool {
    exists|i: int| 0 <= i < entries.len() && (#[trigger] entries[i]).name == name
}

/// The position of an entry with the name, where there is one.
pub open spec fn entry_slot(entries: Seq<ProviderEntry>, name: Seq<char>) -> int {
    choose|i: int| 0 <= i < entries.len() && (#[trigger] entries[i]).name == name
}

/// The entries with one put in: in place of the entry with the same name
/// where there is one, else at the end.
pub open spec fn put_entry(entries: Seq<ProviderEntry>, entry: ProviderEntry) -> Seq<
    ProviderEntry,
> {
    if has_entry(entries, entry.name) {
        entries.update(entry_slot(entries, entry.name), entry)
    } else {
        entries.push(entry)
    }
}

/// The tracks wrapped for playback under a provider's registered name.
pub open spec fn named_items(name: Seq<char>, tracks: Seq<TrackView>, now: i64) -> Seq<
    PlayableItemView,
> {
    Seq::new(
        tracks.len(),
        |i: int| PlayableItemView { track: tracks[i], provider: name, added_at: now },
    )
}

/// The tracks of all providers, provider after provider.
pub open spec fn gathered_items(entries: Seq<ProviderEntry>, now: i64) -> Seq<PlayableItemView>
    decreases entries.len(),
{
    if entries.len() == 0 {
        Seq::empty()
    } else {
        gathered_items(entries.drop_last(), now) + named_items(
            entries.last().name,
            entries.last().catalog.tracks,
            now,
        )
    }
}

/// The artists of all providers, provider after provider.
pub open spec fn gathered_artists(entries: Seq<ProviderEntry>) -> Seq<ArtistView>
    decreases entries.len(),
{
    if entries.len() == 0 {
        Seq::empty()
    } else {
        gathered_artists(entries.drop_last()) + all_artists(entries.last().catalog)
    }
}

/// The albums of all providers, provider after provider.
pub open spec fn gathered_albums(entries: Seq<ProviderEntry>) -> Seq<AlbumView>
    decreases entries.len(),
{
    if entries.len() == 0 {
        Seq::empty()
    } else {
        gathered_albums(entries.drop_last()) + all_albums(entries.last().catalog)
    }
}

/// The tracks that all providers find, provider after provider.
pub open spec fn found_items(
    entries: Seq<ProviderEntry>,
    query: Seq<char>,
    weight: u32,
    limit: int,
    offset: int,
    now: i64,
) -> Seq<PlayableItemView>
    decreases entries.len(),
{
    if entries.len() == 0 {
        Seq::empty()
    } else {
        found_items(entries.drop_last(), query, weight, limit, offset, now) + wrapped(
            page_of(ranked_tracks(entries.last().catalog.tracks, query, weight), limit, offset),
            now,
        )
    }
}

/// The albums that all providers find, provider after provider.
pub open spec fn found_album_lists(
    entries: Seq<ProviderEntry>,
    query: Seq<char>,
    weight: u32,
    limit: int,
    offset: int,
) -> Seq<AlbumView>
    decreases entries.len(),
{
    if entries.len() == 0 {
        Seq::empty()
    } else {
        found_album_lists(entries.drop_last(), query, weight, limit, offset) + page_of(
            ranked_albums(all_albums(entries.last().catalog), query, weight),
            limit,
            offset,
        )
    }
}

/// The artists that all providers find, provider after provider.
pub open spec fn found_artist_lists(
    entries: Seq<ProviderEntry>,
    query: Seq<char>,
    weight: u32,
    limit: int,
    offset: int,
) -> Seq<ArtistView>
    decreases entries.len(),
{
    if entries.len() == 0 {
        Seq::empty()
    } else {
        found_artist_lists(entries.drop_last(), query, weight, limit, offset) + page_of(
            ranked_artists(all_artists(entries.last().catalog), query, weight),
            limit,
            offset,
        )
    }
}

/// The weights of a search: those given, or else the default weights.
pub open spec fn chosen_weights(weights: Option<SearchWeights>) -> SearchWeights {
    match weights {
        Some(w) => w,
        None => SearchWeights { track_weight: 1000, album_weight: 1000, artist_weight: 1000 },
    }
}

/// Wraps the tracks of one provider for playback, under the provider's
/// name and with the moment `now`, and adds them to the items gathered so
/// far.
pub fn add_named_tracks(items: &mut Vec<PlayableItem>, name: &str, tracks: &Vec<Track>, now: i64)
    ensures
        item_views(final(items)@) == item_views(old(items)@) + named_items(
            name@,
            track_views(tracks@),
            now,
        ),
{
    let ghost before = item_views(items@);
    let ghost views = track_views(tracks@);
    let mut k: usize = 0;
    assert(item_views(items@) =~= before + named_items(name@, views, now).take(0));
    while k < tracks.len()
        invariant
            k <= tracks.len(),
            views == track_views(tracks@),
            item_views(items@) == before + named_items(name@, views, now).take(k as int),
        decreases tracks.len() - k,
    {
        let ghost so_far = item_views(items@);
        let item = PlayableItem {
            track: tracks[k].clone(),
            provider: String::from_str(name),
            added_at: now,
        };
        assert(item@ == named_items(name@, views, now)[k as int]);
        items.push(item);
        assert(item_views(items@) =~= so_far.push(item@));
        assert(item_views(items@) =~= before + named_items(name@, views, now).take(k + 1));
        k += 1;
    }
    assert(named_items(name@, views, now).take(tracks.len() as int) == named_items(
        name@,
        views,
        now,
    ));
}

/// Joins what one provider found to what was found so far, kind by kind.
pub fn join_results(all: &mut SearchResults, found: SearchResults)
    ensures
        item_views(final(all).tracks@) == item_views(old(all).tracks@) + item_views(found.tracks@),
        album_views(final(all).albums@) == album_views(old(all).albums@) + album_views(
            found.albums@,
        ),
        artist_views(final(all).artists@) == artist_views(old(all).artists@) + artist_views(
            found.artists@,
        ),
{
    let mut found = found;
    let ghost tracks_before = item_views(all.tracks@);
    let ghost albums_before = album_views(all.albums@);
    let ghost artists_before = artist_views(all.artists@);
    let ghost new_tracks = item_views(found.tracks@);
    let ghost new_albums = album_views(found.albums@);
    let ghost new_artists = artist_views(found.artists@);
    all.tracks.append(&mut found.tracks);
    all.albums.append(&mut found.albums);
    all.artists.append(&mut found.artists);
    assert(item_views(all.tracks@) =~= tracks_before + new_tracks);
    assert(album_views(all.albums@) =~= albums_before + new_albums);
    assert(artist_views(all.artists@) =~= artists_before + new_artists);
}

/// The registry of providers, each under a name of its own.
#[derive(Debug)]
pub struct ServiceManager {
    names: Vec<String>,
    providers: Vec<LocalMusicProvider>,
}

impl ServiceManager {
    /// The registered providers, in the order in which their names were
    /// first registered.
    pub closed spec fn entries(&self) -> Seq<ProviderEntry> {
        Seq::new(
            self.names@.len(),
            |i: int| ProviderEntry { name: self.names@[i]@, catalog: self.providers@[i].catalog() },
        )
    }

    /// Every provider has one name, no two share a name, and every
    /// provider's catalog obeys its rules.
    pub closed spec fn wf(&self) -> bool {
        &&& self.names@.len() == self.providers@.len()
        &&& forall|i: int, j: int|
            #![trigger self.names@[i], self.names@[j]]
            0 <= i < j < self.names@.len() ==> self.names@[i]@ != self.names@[j]@
        &&& forall|i: int| 0 <= i < self.providers@.len() ==> (#[trigger] self.providers@[i]).wf()
    }

    /// A registry without providers.
    pub fn new() -> (r: ServiceManager)
        ensures
            r.wf(),
            r.entries() == Seq::<ProviderEntry>::empty(),
    {
        let manager = ServiceManager { names: Vec::new(), providers: Vec::new() };
        assert(manager.entries() =~= Seq::<ProviderEntry>::empty());
        manager
    }

    /// Registers a provider under a name. A provider that was registered
    /// under the same name before is replaced.
    pub fn register_provider(&mut self, name: &str, provider: LocalMusicProvider)
        requires
            old(self).wf(),
            provider.wf(),
        ensures
            final(self).wf(),
            final(self).entries() == put_entry(
                old(self).entries(),
                ProviderEntry { name: name@, catalog: provider.catalog() },
            ),
    {
        let key = String::from_str(name);
        let ghost before = self.entries();
        let ghost entry = ProviderEntry { name: name@, catalog: provider.catalog() };
        let mut i: usize = 0;
        while i < self.names.len()
            invariant
                i <= self.names.len(),
                self.wf(),
                *self == *old(self),
                before == self.entries(),
                provider.wf(),
                entry == (ProviderEntry { name: name@, catalog: provider.catalog() }),
                key@ == name@,
                forall|k: int| 0 <= k < i ==> self.names@[k]@ != name@,
            decreases self.names.len() - i,
        {
            if self.names[i] == key {
                proof {
                    assert(before[i as int].name == name@);
                    let slot = entry_slot(before, name@);
                    assert(before[slot].name == name@);
                    assert(slot == i);
                }
                self.providers.set(i, provider);
                assert(self.entries() =~= before.update(i as int, entry));
                return ;
            }
            i += 1;
        }
        assert(!has_entry(before, name@)) by {
            if has_entry(before, name@) {
                let slot = entry_slot(before, name@);
                assert(before[slot].name == name@);
                assert(self.names@[slot]@ == name@);
            }
        }
        self.names.push(key);
        self.providers.push(provider);
        assert(self.entries() =~= before.push(entry));
    }

    /// The tracks of all providers, each wrapped for playback under the
    /// name of its provider and with the moment `now`.
    pub fn get_all_tracks(&self, now: i64) -> (r: Result<Vec<PlayableItem>, ServiceError>)
        requires
            self.wf(),
        ensures
            r matches Ok(items) && item_views(items@) == gathered_items(self.entries(), now),
    {
        let ghost entries = self.entries();
        let mut out: Vec<PlayableItem> = Vec::new();
        let mut i: usize = 0;
        assert(item_views(out@) =~= gathered_items(entries.take(0), now));
        while i < self.providers.len()
            invariant
                i <= self.providers.len(),
                self.wf(),
                entries == self.entries(),
                item_views(out@) == gathered_items(entries.take(i as int), now),
            decreases self.providers.len() - i,
        {
            assert(entries.take(i + 1).drop_last() == entries.take(i as int));
            assert(entries.take(i + 1).last() == entries[i as int]);
            match self.providers[i].get_tracks() {
                Ok(tracks) => {
                    add_named_tracks(&mut out, self.names[i].as_str(), &tracks, now);
                },
                Err(_) => {},
            }
            i += 1;
        }
        assert(entries.take(self.providers.len() as int) == entries);
        Ok(out)
    }

    /// The artists of all providers as one list, ordered by lowercase name,
    /// and of neighbours with the same name only the first.
    pub fn get_all_artists(&self) -> (r: Result<Vec<Artist>, ServiceError>)
        requires
            self.wf(),
        ensures
            r matches Ok(artists) && artist_views(artists@) == merged_artists(
                gathered_artists(self.entries()),
            ),
    {
        let ghost entries = self.entries();
        let mut all: Vec<Artist> = Vec::new();
        let mut i: usize = 0;
        assert(artist_views(all@) =~= gathered_artists(entries.take(0)));
        while i < self.providers.len()
            invariant
                i <= self.providers.len(),
                self.wf(),
                entries == self.entries(),
                artist_views(all@) == gathered_artists(entries.take(i as int)),
            decreases self.providers.len() - i,
        {
            assert(entries.take(i + 1).drop_last() == entries.take(i as int));
            assert(entries.take(i + 1).last() == entries[i as int]);
            match self.providers[i].get_artists() {
                Ok(found) => {
                    let mut found = found;
                    let ghost before = artist_views(all@);
                    let ghost added = artist_views(found@);
                    all.append(&mut found);
                    assert(artist_views(all@) =~= before + added);
                },
                Err(_) => {},
            }
            i += 1;
        }
        assert(entries.take(self.providers.len() as int) == entries);
        Ok(merge_artists(&all))
    }

    /// The albums of all providers as one list, ordered by lowercase artist
    /// and title, and of neighbours with the same title and artist only the
    /// first.
    pub fn get_all_albums(&self) -> (r: Result<Vec<Album>, ServiceError>)
        requires
            self.wf(),
        ensures
            r matches Ok(albums) && album_views(albums@) == merged_albums(
                gathered_albums(self.entries()),
            ),
    {
        let ghost entries = self.entries();
        let mut all: Vec<Album> = Vec::new();
        let mut i: usize = 0;
        assert(album_views(all@) =~= gathered_albums(entries.take(0)));
        while i < self.providers.len()
            invariant
                i <= self.providers.len(),
                self.wf(),
                entries == self.entries(),
                album_views(all@) == gathered_albums(entries.take(i as int)),
            decreases self.providers.len() - i,
        {
            assert(entries.take(i + 1).drop_last() == entries.take(i as int));
            assert(entries.take(i + 1).last() == entries[i as int]);
            match self.providers[i].get_albums() {
                Ok(found) => {
                    let mut found = found;
                    let ghost before = album_views(all@);
                    let ghost added = album_views(found@);
                    all.append(&mut found);
                    assert(album_views(all@) =~= before + added);
                },
                Err(_) => {},
            }
            i += 1;
        }
        assert(entries.take(self.providers.len() as int) == entries);
        Ok(merge_albums(&all))
    }

    /// Searches every provider and joins what they find, kind by kind, in
    /// the order of the providers. Without weights the default weights
    /// apply.
    pub fn search_all(
        &self,
        query: &str,
        weights: Option<SearchWeights>,
        limit: usize,
        offset: usize,
        now: i64,
    ) -> (r: Result<SearchResults, ServiceError>)
        requires
            self.wf(),
        ensures
            r matches Ok(found) && item_views(found.tracks@) == found_items(
                self.entries(),
                query@,
                chosen_weights(weights).track_weight,
                limit as int,
                offset as int,
                now,
            ) && album_views(found.albums@) == found_album_lists(
                self.entries(),
                query@,
                chosen_weights(weights).album_weight,
                limit as int,
                offset as int,
            ) && artist_views(found.artists@) == found_artist_lists(
                self.entries(),
                query@,
                chosen_weights(weights).artist_weight,
                limit as int,
                offset as int,
            ),
    {
        let weights = match weights {
            Some(w) => w,
            None => SearchWeights::default(),
        };
        let ghost entries = self.entries();
        let mut all = SearchResults { tracks: Vec::new(), albums: Vec::new(), artists: Vec::new() };
        let mut i: usize = 0;
        assert(item_views(all.tracks@) =~= found_items(
            entries.take(0),
            query@,
            weights.track_weight,
            limit as int,
            offset as int,
            now,
        ));
        assert(album_views(all.albums@) =~= found_album_lists(
            entries.take(0),
            query@,
            weights.album_weight,
            limit as int,
            offset as int,
        ));
        assert(artist_views(all.artists@) =~= found_artist_lists(
            entries.take(0),
            query@,
            weights.artist_weight,
            limit as int,
            offset as int,
        ));
        while i < self.providers.len()
            invariant
                i <= self.providers.len(),
                self.wf(),
                entries == self.entries(),
                item_views(all.tracks@) == found_items(
                    entries.take(i as int),
                    query@,
                    weights.track_weight,
                    limit as int,
                    offset as int,
                    now,
                ),
                album_views(all.albums@) == found_album_lists(
                    entries.take(i as int),
                    query@,
                    weights.album_weight,
                    limit as int,
                    offset as int,
                ),
                artist_views(all.artists@) == found_artist_lists(
                    entries.take(i as int),
                    query@,
                    weights.artist_weight,
                    limit as int,
                    offset as int,
                ),
            decreases self.providers.len() - i,
        {
            assert(entries.take(i + 1).drop_last() == entries.take(i as int));
            assert(entries.take(i + 1).last() == entries[i as int]);
            match self.providers[i].search_all(query, &weights, limit, offset, now) {
                Ok(found) => {
                    join_results(&mut all, found);
                },
                Err(_) => {},
            }
            i += 1;
        }
        assert(entries.take(self.providers.len() as int) == entries);
        Ok(all)
    }
}

} // verus!
