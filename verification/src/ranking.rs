//! The ranking engine: scores of tracks, albums and artists against a
//! query, and the order in which the matching ones are returned.

use crate::models::{
    album_views, artist_views, track_views, Album, AlbumView, Artist, ArtistView, PlayableItem,
    ScoredResult, SearchResultType, SearchResults, Track, TrackView,
};
use crate::paging::{page, page_of};
use crate::text::{
    chars_of, comes_before, contains_chars, decimal_of, decimal_text, has_prefix, is_substring,
    lemma_substring_transitive, lemma_text_before_irreflexive, lemma_text_before_total,
    lemma_text_before_transitive, lemma_words_occur,
    lowercase, occurs_at, same_chars, split_words, starts_with_chars, text_before, words_of,
};
use vstd::prelude::*;

verus! {

/// A text field of a candidate, in lowercase, with the bonus that an exact
/// match of the field earns.
#[derive(Debug)]
pub struct FieldWeight {
    pub text: Vec<char>,
    pub base: u16,
}

/// The mathematical view of a [`FieldWeight`].
pub struct ScoredField {
    pub text: Seq<char>,
    pub base: u16,
}

impl View for FieldWeight {
    type V = ScoredField;

    open spec fn view(&self) -> ScoredField {
        ScoredField { text: self.text@, base: self.base }
    }
}

/// The views of a sequence of fields, in order.
pub open spec fn field_views(fields: Seq<FieldWeight>) -> Seq<ScoredField> {
    Seq::new(fields.len(), |i: int| fields[i]@)
}

/// The bonus for each distinct word of a query of several words that
/// matches some field.
pub open spec fn coverage_bonus() -> nat {
    100
}

/// What one field earns against one term. The signals add up: the whole
/// bonus where the field equals the term, three quarters of it where the
/// field begins with the term, half of it where the field contains the term.
pub open spec fn field_score(text: Seq<char>, term: Seq<char>, base: nat) -> nat {
    (if text == term {
        base
    } else {
        0
    }) + (if has_prefix(text, term) {
        base * 3 / 4
    } else {
        0
    }) + (if is_substring(text, term) {
        base / 2
    } else {
        0
    })
}

/// What all fields together earn against one term.
pub open spec fn term_score(fields: Seq<ScoredField>, term: Seq<char>) -> nat
    decreases fields.len(),
{
    if fields.len() == 0 {
        0
    } else {
        term_score(fields.drop_last(), term) + field_score(
            fields.last().text,
            term,
            fields.last().base as nat,
        )
    }
}

/// Whether some field contains the term.
pub open spec fn term_matches(fields: Seq<ScoredField>, term: Seq<char>) -> bool {
    exists|i: int| 0 <= i < fields.len() && is_substring((#[trigger] fields[i]).text, term)
}

/// What all fields together earn against each of the words, summed.
pub open spec fn words_score(fields: Seq<ScoredField>, words: Seq<Seq<char>>) -> nat
    decreases words.len(),
{
    if words.len() == 0 {
        0
    } else {
        words_score(fields, words.drop_last()) + term_score(fields, words.last())
    }
}

/// How many distinct words match some field: a word counts where it
/// matches and no earlier word is the same.
pub open spec fn covered_words(fields: Seq<ScoredField>, words: Seq<Seq<char>>) -> nat
    decreases words.len(),
{
    if words.len() == 0 {
        0
    } else {
        covered_words(fields, words.drop_last()) + (if term_matches(fields, words.last())
            && !words.drop_last().contains(words.last()) {
            1nat
        } else {
            0nat
        })
    }
}

/// The score of a candidate with the given lowercase fields against a
/// lowercase query: what the fields earn against the whole query; and, for
/// a query of two or more words, what they earn against each word, and the
/// coverage bonus for each distinct word that matches.
pub open spec fn raw_score(fields: Seq<ScoredField>, query: Seq<char>) -> nat {
    let words = words_of(query);
    term_score(fields, query) + (if words.len() >= 2 {
        words_score(fields, words) + coverage_bonus() * covered_words(fields, words)
    } else {
        0
    })
}

/// A score multiplied by a weight given in thousandths, rounded down.
pub open spec fn weighted(score: nat, weight: u32) -> nat {
    score * (weight as nat) / 1000
}

/// The most that one field can earn against one term.
pub open spec fn field_cap() -> nat {
    147456
}

/// One field earns at most the cap.
pub proof fn lemma_field_score_cap(text: Seq<char>, term: Seq<char>, base: u16)
    ensures
        field_score(text, term, base as nat) <= field_cap(),
{
}

/// The fields together earn at most the cap for each of them.
pub proof fn lemma_term_score_cap(fields: Seq<ScoredField>, term: Seq<char>)
    ensures
        term_score(fields, term) <= fields.len() * field_cap(),
    decreases fields.len(),
{
    if fields.len() > 0 {
        lemma_term_score_cap(fields.drop_last(), term);
        lemma_field_score_cap(fields.last().text, term, fields.last().base);
        assert(fields.len() * field_cap() == (fields.len() - 1) * field_cap() + field_cap())
            by (nonlinear_arith);
    }
}

/// What one field earns against one term.
pub fn field_score_of(text: &Vec<char>, term: &Vec<char>, base: u16) -> (r: u64)
    ensures
        r == field_score(text@, term@, base as nat),
        r <= field_cap(),
{
    let whole: u64 = base as u64;
    let mut score: u64 = 0;
    if same_chars(text, term) {
        score = score + whole;
    }
    if starts_with_chars(text, term) {
        score = score + whole * 3 / 4;
    }
    if contains_chars(text, term) {
        score = score + whole / 2;
    }
    score
}

/// What the fields together earn against one term.
pub fn term_score_of(fields: &Vec<FieldWeight>, term: &Vec<char>) -> (r: u64)
    requires
        fields.len() <= 8,
    ensures
        r == term_score(field_views(fields@), term@),
        r <= 8 * field_cap(),
{
    let ghost all = field_views(fields@);
    let mut total: u64 = 0;
    let mut i: usize = 0;
    while i < fields.len()
        invariant
            i <= fields.len() <= 8,
            all == field_views(fields@),
            total == term_score(all.take(i as int), term@),
            total <= i * field_cap(),
        decreases fields.len() - i,
    {
        assert(all.take(i + 1).drop_last() == all.take(i as int));
        assert(all.take(i + 1).last() == fields@[i as int]@);
        let part = field_score_of(&fields[i].text, term, fields[i].base);
        total = total + part;
        i += 1;
    }
    assert(all.take(fields.len() as int) == all);
    total
}

/// Whether some field contains the term.
pub fn term_matches_of(fields: &Vec<FieldWeight>, term: &Vec<char>) -> (r: bool)
    ensures
        r == term_matches(field_views(fields@), term@),
{
    let ghost all = field_views(fields@);
    let mut i: usize = 0;
    while i < fields.len()
        invariant
            i <= fields.len(),
            all == field_views(fields@),
            forall|k: int| 0 <= k < i ==> !is_substring((#[trigger] all[k]).text, term@),
        decreases fields.len() - i,
    {
        if contains_chars(&fields[i].text, term) {
            assert(is_substring(all[i as int].text, term@));
            return true;
        }
        i += 1;
    }
    false
}

/// Whether one of the first `upto` words is the same as the word at `upto`.
fn seen_before(words: &Vec<Vec<char>>, upto: usize) -> (r: bool)
    requires
        upto < words.len(),
    ensures
        r == words.deep_view().take(upto as int).contains(words.deep_view()[upto as int]),
{
    let ghost all = words.deep_view();
    let mut k: usize = 0;
    while k < upto
        invariant
            k <= upto < words.len(),
            all == words.deep_view(),
            forall|j: int| 0 <= j < k ==> all[j] != all[upto as int],
        decreases upto - k,
    {
        assert(all[k as int] =~= words@[k as int]@);
        assert(all[upto as int] =~= words@[upto as int]@);
        if same_chars(&words[k], &words[upto]) {
            assert(all.take(upto as int)[k as int] == all[upto as int]);
            return true;
        }
        k += 1;
    }
    assert forall|j: int| 0 <= j < all.take(upto as int).len() implies all.take(upto as int)[j]
        != all[upto as int] by {
        assert(all.take(upto as int)[j] == all[j]);
    }
    false
}

/// The score of a candidate with the given lowercase fields against a
/// lowercase query.
pub fn score_fields(fields: &Vec<FieldWeight>, query: &Vec<char>) -> (r: u128)
    requires
        fields.len() <= 8,
    ensures
        r == raw_score(field_views(fields@), query@),
        r <= 0x40_0000_0000_0000_0000_0000,
{
    let ghost all = field_views(fields@);
    let whole: u128 = term_score_of(fields, query) as u128;
    let words = split_words(query);
    let ghost texts = words.deep_view();
    if words.len() < 2 {
        return whole;
    }
    let mut summed: u128 = 0;
    let mut covered: u128 = 0;
    let mut k: usize = 0;
    while k < words.len()
        invariant
            k <= words.len(),
            fields.len() <= 8,
            all == field_views(fields@),
            texts == words.deep_view(),
            summed == words_score(all, texts.take(k as int)),
            covered == covered_words(all, texts.take(k as int)),
            summed <= k * (8 * field_cap()),
            covered <= k,
        decreases words.len() - k,
    {
        assert(texts.take(k + 1).drop_last() == texts.take(k as int));
        assert(texts.take(k + 1).last() == texts[k as int]);
        assert(texts[k as int] =~= words@[k as int]@);
        let part = term_score_of(fields, &words[k]);
        assert(summed + part <= (k + 1) * (8 * field_cap())) by (nonlinear_arith)
            requires
                summed <= k * (8 * field_cap()),
                part <= 8 * field_cap(),
        ;
        assert((k + 1) * (8 * field_cap()) <= 0x1_0000_0000_0000_0000 * (8 * field_cap()))
            by (nonlinear_arith)
            requires
                k + 1 <= 0x1_0000_0000_0000_0000,
        ;
        summed = summed + part as u128;
        if term_matches_of(fields, &words[k]) && !seen_before(&words, k) {
            covered = covered + 1;
        }
        k += 1;
    }
    assert(texts.take(words.len() as int) == texts);
    assert(summed <= 0x1_0000_0000_0000_0000 * (8 * field_cap())) by (nonlinear_arith)
        requires
            summed <= k * (8 * field_cap()),
            k <= 0xffff_ffff_ffff_ffff,
    ;
    whole + summed + 100 * covered
}

/// A candidate of a search: whether any signal matched, its weighted
/// score, and the text of its primary field.
#[derive(Debug)]
pub struct Candidate {
    pub matched: bool,
    pub score: u128,
    pub key: Vec<char>,
}

/// The mathematical view of a [`Candidate`].
pub struct CandidateView {
    pub matched: bool,
    pub score: u128,
    pub key: Seq<char>,
}

impl View for Candidate {
    type V = CandidateView;

    open spec fn view(&self) -> CandidateView {
        CandidateView { matched: self.matched, score: self.score, key: self.key@ }
    }
}

/// The views of a sequence of candidates, in order.
pub open spec fn candidate_views(candidates: Seq<Candidate>) -> Seq<CandidateView> {
    Seq::new(candidates.len(), |i: int| candidates[i]@)
}

/// Whether candidate `x` at position `a` is returned before candidate `y`
/// at position `b`: the higher score first; of equal scores the one whose
/// primary field comes first in dictionary order; and of candidates equal
/// in both the one at the earlier position.
pub open spec fn goes_before(x: CandidateView, a: int, y: CandidateView, b: int) -> bool {
    x.score > y.score || (x.score == y.score && (text_before(x.key, y.key) || (x.key == y.key && a
        < b)))
}

/// Whether the candidate at `a` is returned before the candidate at `b`.
pub open spec fn outranks(candidates: Seq<CandidateView>, a: int, b: int) -> bool {
    goes_before(candidates[a], a, candidates[b], b)
}

/// The order of candidates is a strict total order on distinct positions.
pub proof fn lemma_goes_before_order(
    x: CandidateView,
    a: int,
    y: CandidateView,
    b: int,
    z: CandidateView,
    c: int,
)
    ensures
        !goes_before(x, a, x, a),
        goes_before(x, a, y, b) && goes_before(y, b, z, c) ==> goes_before(x, a, z, c),
        a != b ==> goes_before(x, a, y, b) || goes_before(y, b, x, a),
        !(goes_before(x, a, y, b) && goes_before(y, b, x, a)),
{
    lemma_text_before_irreflexive(x.key, 0);
    assert(x.key.take(0) =~= y.key.take(0));
    lemma_text_before_total(x.key, y.key, 0);
    if text_before(x.key, y.key) && text_before(y.key, z.key) {
        lemma_text_before_transitive(x.key, y.key, z.key, 0);
    }
    if text_before(x.key, y.key) && text_before(y.key, x.key) {
        lemma_text_before_transitive(x.key, y.key, x.key, 0);
    }
}

/// Where a newcomer joins an order, looking from `from` on: before the
/// first candidate that it goes before, or at the end.
pub open spec fn slot_from(
    candidates: Seq<CandidateView>,
    order: Seq<int>,
    newcomer: int,
    from: int,
) -> int
    decreases order.len() - from,
{
    if from >= order.len() || from < 0 {
        order.len() as int
    } else if outranks(candidates, newcomer, order[from]) {
        from
    } else {
        slot_from(candidates, order, newcomer, from + 1)
    }
}

/// The positions of the matched candidates in the order in which they are
/// returned. It is built candidate by candidate: each matched one joins
/// before the first of the earlier ones that it goes before.
pub open spec fn ranked(candidates: Seq<CandidateView>) -> Seq<int>
    decreases candidates.len(),
{
    if candidates.len() == 0 {
        Seq::empty()
    } else {
        let earlier = ranked(candidates.drop_last());
        let last = candidates.len() - 1;
        if candidates[last].matched {
            earlier.insert(slot_from(candidates, earlier, last, 0), last)
        } else {
            earlier
        }
    }
}

/// Whether `order` lists exactly the matched candidates, each once, every
/// one before all those that it outranks.
pub open spec fn is_ranking(candidates: Seq<CandidateView>, order: Seq<int>) -> bool {
    &&& forall|k: int|
        0 <= k < order.len() ==> 0 <= #[trigger] order[k] < candidates.len()
            && candidates[order[k]].matched
    &&& forall|i: int|
        0 <= i < candidates.len() && (#[trigger] candidates[i]).matched ==> order.contains(i)
    &&& forall|k: int, l: int|
        0 <= k < l < order.len() ==> outranks(candidates, #[trigger] order[k], #[trigger] order[l])
}

/// The slot lies within the order; the newcomer goes before nothing that
/// stands before the slot, and before what stands at it.
pub proof fn lemma_slot_from(candidates: Seq<CandidateView>, order: Seq<int>, newcomer: int, from: int)
    requires
        0 <= from <= order.len(),
    ensures
        from <= slot_from(candidates, order, newcomer, from) <= order.len(),
        forall|k: int|
            from <= k < slot_from(candidates, order, newcomer, from) ==> !outranks(
                candidates,
                newcomer,
                #[trigger] order[k],
            ),
        slot_from(candidates, order, newcomer, from) < order.len() ==> outranks(
            candidates,
            newcomer,
            order[slot_from(candidates, order, newcomer, from)],
        ),
    decreases order.len() - from,
{
    if from < order.len() && !outranks(candidates, newcomer, order[from]) {
        lemma_slot_from(candidates, order, newcomer, from + 1);
    }
}

/// The order that is built is a ranking: it lists exactly the matched
/// candidates, the higher score first, of equal scores the one whose
/// primary field comes first, and of candidates equal in both the earlier
/// one. A candidate that no signal matched is not in it.
pub proof fn lemma_ranked_is_ranking(candidates: Seq<CandidateView>)
    ensures
        is_ranking(candidates, ranked(candidates)),
    decreases candidates.len(),
{
    if candidates.len() > 0 {
        let shorter = candidates.drop_last();
        let earlier = ranked(shorter);
        let last = candidates.len() - 1;
        lemma_ranked_is_ranking(shorter);
        assert forall|k: int| 0 <= k < earlier.len() implies 0 <= #[trigger] earlier[k] < last
            && candidates[earlier[k]].matched by {
            assert(shorter[earlier[k]] == candidates[earlier[k]]);
        }
        assert forall|k: int, l: int| 0 <= k < l < earlier.len() implies outranks(
            candidates,
            #[trigger] earlier[k],
            #[trigger] earlier[l],
        ) by {
            assert(outranks(shorter, earlier[k], earlier[l]));
            assert(shorter[earlier[k]] == candidates[earlier[k]]);
            assert(shorter[earlier[l]] == candidates[earlier[l]]);
        }
        if candidates[last].matched {
            let slot = slot_from(candidates, earlier, last, 0);
            lemma_slot_from(candidates, earlier, last, 0);
            let order = earlier.insert(slot, last);
            assert(order == ranked(candidates));
            assert forall|i: int|
                0 <= i < candidates.len() && (#[trigger] candidates[i]).matched implies order.contains(
                i,
            ) by {
                if i == last {
                    assert(order[slot] == last);
                } else {
                    assert(shorter[i].matched);
                    assert(earlier.contains(i));
                    let k = choose|k: int| 0 <= k < earlier.len() && earlier[k] == i;
                    if k < slot {
                        assert(order[k] == i);
                    } else {
                        assert(order[k + 1] == i);
                    }
                }
            }
            assert forall|k: int, l: int| 0 <= k < l < order.len() implies outranks(
                candidates,
                #[trigger] order[k],
                #[trigger] order[l],
            ) by {
                if l < slot {
                    assert(order[k] == earlier[k] && order[l] == earlier[l]);
                } else if l == slot {
                    assert(order[k] == earlier[k]);
                    assert(!outranks(candidates, last, earlier[k]));
                    lemma_goes_before_order(
                        candidates[earlier[k]],
                        earlier[k],
                        candidates[last],
                        last,
                        candidates[last],
                        last,
                    );
                } else if k < slot {
                    assert(order[k] == earlier[k] && order[l] == earlier[l - 1]);
                } else if k == slot {
                    assert(order[l] == earlier[l - 1]);
                    assert(outranks(candidates, last, earlier[slot]));
                    if slot < l - 1 {
                        assert(outranks(candidates, earlier[slot], earlier[l - 1]));
                        lemma_goes_before_order(
                            candidates[last],
                            last,
                            candidates[earlier[slot]],
                            earlier[slot],
                            candidates[earlier[l - 1]],
                            earlier[l - 1],
                        );
                    }
                } else {
                    assert(order[k] == earlier[k - 1] && order[l] == earlier[l - 1]);
                }
            }
            assert forall|k: int| 0 <= k < order.len() implies 0 <= #[trigger] order[k]
                < candidates.len() && candidates[order[k]].matched by {
                if k < slot {
                    assert(order[k] == earlier[k]);
                } else if k > slot {
                    assert(order[k] == earlier[k - 1]);
                }
            }
        } else {
            let order = earlier;
            assert forall|i: int|
                0 <= i < candidates.len() && (#[trigger] candidates[i]).matched implies order.contains(
                i,
            ) by {
                assert(shorter[i].matched);
            }
        }
    }
}

/// The positions that a list of indices holds.
pub open spec fn positions(order: Seq<usize>) -> Seq<int> {
    Seq::new(order.len(), |k: int| order[k] as int)
}

/// Whether candidate `x` at position `a` is returned before candidate `y`
/// at position `b`.
pub fn comes_first(x: &Candidate, a: usize, y: &Candidate, b: usize) -> (r: bool)
    ensures
        r == goes_before(x@, a as int, y@, b as int),
{
    if x.score != y.score {
        return x.score > y.score;
    }
    if comes_before(&x.key, &y.key) {
        return true;
    }
    same_chars(&x.key, &y.key) && a < b
}

/// Orders the matched candidates: the higher score first, of equal scores
/// the one whose primary field comes first in dictionary order, and of
/// candidates equal in both the earlier one.
pub fn rank(candidates: &Vec<Candidate>) -> (r: Vec<usize>)
    ensures
        positions(r@) == ranked(candidate_views(candidates@)),
        is_ranking(candidate_views(candidates@), positions(r@)),
{
    let ghost all = candidate_views(candidates@);
    let mut order: Vec<usize> = Vec::new();
    let mut i: usize = 0;
    assert(positions(order@) =~= ranked(all.take(0)));
    while i < candidates.len()
        invariant
            i <= candidates.len(),
            all == candidate_views(candidates@),
            positions(order@) == ranked(all.take(i as int)),
            forall|k: int| 0 <= k < order.len() ==> #[trigger] order@[k] < i,
        decreases candidates.len() - i,
    {
        let ghost shorter = all.take(i as int);
        let ghost longer = all.take(i + 1);
        let ghost earlier = positions(order@);
        assert(longer.drop_last() == shorter);
        if candidates[i].matched {
            let mut slot: usize = 0;
            while slot < order.len() && !comes_first(
                &candidates[i],
                i,
                &candidates[order[slot]],
                order[slot],
            )
                invariant
                    slot <= order.len(),
                    i < candidates.len(),
                    all == candidate_views(candidates@),
                    longer == all.take(i + 1),
                    earlier == positions(order@),
                    forall|k: int| 0 <= k < order.len() ==> #[trigger] order@[k] < i,
                    slot_from(longer, earlier, i as int, 0) == slot_from(
                        longer,
                        earlier,
                        i as int,
                        slot as int,
                    ),
                decreases order.len() - slot,
            {
                assert(earlier[slot as int] == order@[slot as int]);
                assert(longer[earlier[slot as int]] == candidates@[order@[slot as int] as int]@);
                assert(longer[i as int] == candidates@[i as int]@);
                slot += 1;
            }
            proof {
                if slot < order.len() {
                    assert(earlier[slot as int] == order@[slot as int]);
                    assert(longer[earlier[slot as int]] == candidates@[order@[slot as int] as int]@);
                    assert(longer[i as int] == candidates@[i as int]@);
                }
                assert(slot == slot_from(longer, earlier, i as int, 0));
            }
            order.insert(slot, i);
            assert(positions(order@) =~= earlier.insert(slot as int, i as int));
        }
        i += 1;
    }
    assert(all.take(candidates.len() as int) == all);
    proof {
        lemma_ranked_is_ranking(all);
    }
    order
}

/// The fields of an item with a primary and a secondary text, both in
/// lowercase: the primary at a thousand points, the secondary at a fifth
/// of that, and left out where it is empty.
pub open spec fn item_fields(primary: Seq<char>, secondary: Seq<char>) -> Seq<ScoredField> {
    if secondary.len() > 0 {
        seq![
            ScoredField { text: primary, base: 1000 },
            ScoredField { text: secondary, base: 200 },
        ]
    } else {
        seq![ScoredField { text: primary, base: 1000 }]
    }
}

/// The fields of a track, in lowercase: the title is primary, artist and
/// album are secondary.
pub open spec fn track_fields(
    title: Seq<char>,
    artist: Seq<char>,
    album: Seq<char>,
) -> Seq<ScoredField> {
    seq![
        ScoredField { text: title, base: 1200 },
        ScoredField { text: artist, base: 150 },
        ScoredField { text: album, base: 100 },
    ]
}

/// The field of an artist, in lowercase: the name.
pub open spec fn artist_fields(name: Seq<char>) -> Seq<ScoredField> {
    seq![ScoredField { text: name, base: 1200 }]
}

/// The fields of an album, in lowercase: the title is primary, the artist
/// secondary.
pub open spec fn album_fields(title: Seq<char>, artist: Seq<char>) -> Seq<ScoredField> {
    seq![ScoredField { text: title, base: 1200 }, ScoredField { text: artist, base: 150 }]
}

/// What an album earns where the query is its release year, written in
/// decimal.
pub open spec fn year_bonus(year: Option<u32>, query: Seq<char>) -> nat {
    match year {
        Some(y) => if query == decimal_text(y as nat) {
            200
        } else {
            0
        },
        None => 0,
    }
}

/// The weighted score of an item with a primary and a secondary text.
pub open spec fn item_score(
    primary: Seq<char>,
    secondary: Seq<char>,
    query: Seq<char>,
    weight: u32,
) -> nat {
    weighted(
        raw_score(item_fields(lowercase(primary), lowercase(secondary)), lowercase(query)),
        weight,
    )
}

/// The score of a track against a query.
pub open spec fn track_score(track: TrackView, query: Seq<char>) -> nat {
    raw_score(
        track_fields(lowercase(track.title), lowercase(track.artist), lowercase(track.album)),
        lowercase(query),
    )
}

/// The score of an artist against a query.
pub open spec fn artist_score(artist: ArtistView, query: Seq<char>) -> nat {
    raw_score(artist_fields(lowercase(artist.name)), lowercase(query))
}

/// The score of an album against a query.
pub open spec fn album_score(album: AlbumView, query: Seq<char>) -> nat {
    raw_score(album_fields(lowercase(album.title), lowercase(album.artist)), lowercase(query))
        + year_bonus(album.year, lowercase(query))
}

/// A text in lowercase, as characters.
pub fn lowered(text: &str) -> (r: Vec<char>)
    ensures
        r@ == lowercase(text@),
{
    let lower = text.to_lowercase();
    chars_of(lower.as_str())
}

/// A copy of a run of characters.
fn copy_chars(chars: &Vec<char>) -> (r: Vec<char>)
    ensures
        r@ == chars@,
{
    let mut out: Vec<char> = Vec::new();
    let mut i: usize = 0;
    while i < chars.len()
        invariant
            i <= chars.len(),
            out@ == chars@.take(i as int),
        decreases chars.len() - i,
    {
        out.push(chars[i]);
        i += 1;
    }
    out
}

/// The weighted score of an item whose texts and query are in lowercase.
pub fn score_item_lowered(
    primary: &Vec<char>,
    secondary: &Vec<char>,
    query: &Vec<char>,
    weight: u32,
) -> (r: u128)
    ensures
        r == weighted(raw_score(item_fields(primary@, secondary@), query@), weight),
{
    let mut fields: Vec<FieldWeight> = Vec::new();
    fields.push(FieldWeight { text: copy_chars(primary), base: 1000 });
    if secondary.len() > 0 {
        fields.push(FieldWeight { text: copy_chars(secondary), base: 200 });
    }
    assert(field_views(fields@) =~= item_fields(primary@, secondary@));
    let raw = score_fields(&fields, query);
    assert(raw * weight <= 0x40_0000_0000_0000_0000_0000 * 0x1_0000_0000) by (nonlinear_arith)
        requires
            raw <= 0x40_0000_0000_0000_0000_0000,
            weight <= 0x1_0000_0000,
    ;
    raw * (weight as u128) / 1000
}

/// The score of a track whose texts, like the query, are in lowercase.
pub fn score_track_lowered(
    title: &Vec<char>,
    artist: &Vec<char>,
    album: &Vec<char>,
    query: &Vec<char>,
) -> (r: u128)
    ensures
        r == raw_score(track_fields(title@, artist@, album@), query@),
        r <= 0x40_0000_0000_0000_0000_0000,
{
    let mut fields: Vec<FieldWeight> = Vec::new();
    fields.push(FieldWeight { text: copy_chars(title), base: 1200 });
    fields.push(FieldWeight { text: copy_chars(artist), base: 150 });
    fields.push(FieldWeight { text: copy_chars(album), base: 100 });
    assert(field_views(fields@) =~= track_fields(title@, artist@, album@));
    score_fields(&fields, query)
}

/// The score of an artist whose name, like the query, is in lowercase.
pub fn score_artist_lowered(name: &Vec<char>, query: &Vec<char>) -> (r: u128)
    ensures
        r == raw_score(artist_fields(name@), query@),
        r <= 0x40_0000_0000_0000_0000_0000,
{
    let mut fields: Vec<FieldWeight> = Vec::new();
    fields.push(FieldWeight { text: copy_chars(name), base: 1200 });
    assert(field_views(fields@) =~= artist_fields(name@));
    score_fields(&fields, query)
}

/// The score of an album whose texts, like the query, are in lowercase.
pub fn score_album_lowered(
    title: &Vec<char>,
    artist: &Vec<char>,
    year: Option<u32>,
    query: &Vec<char>,
) -> (r: u128)
    ensures
        r == raw_score(album_fields(title@, artist@), query@) + year_bonus(year, query@),
        r <= 0x40_0000_0000_0000_0000_0000 + 200,
{
    let mut fields: Vec<FieldWeight> = Vec::new();
    fields.push(FieldWeight { text: copy_chars(title), base: 1200 });
    fields.push(FieldWeight { text: copy_chars(artist), base: 150 });
    assert(field_views(fields@) =~= album_fields(title@, artist@));
    let raw = score_fields(&fields, query);
    let bonus: u128 = match year {
        Some(y) => {
            let digits = decimal_of(y);
            if same_chars(query, &digits) {
                200
            } else {
                0
            }
        },
        None => 0,
    };
    raw + bonus
}

/// The weighted score of an item with a primary and a secondary text
/// against a query. Texts are compared in lowercase; the weight is in
/// thousandths.
pub fn score_item(primary: &str, secondary: &str, query: &str, weight: u32) -> (r: u128)
    ensures
        r == item_score(primary@, secondary@, query@, weight),
{
    score_item_lowered(&lowered(primary), &lowered(secondary), &lowered(query), weight)
}

/// The score of a track against a query.
pub fn score_track(track: &Track, query: &str) -> (r: u128)
    ensures
        r == track_score(track@, query@),
{
    score_track_lowered(
        &lowered(track.title.as_str()),
        &lowered(track.artist.as_str()),
        &lowered(track.album.as_str()),
        &lowered(query),
    )
}

/// The score of an artist against a query.
pub fn score_artist(artist: &Artist, query: &str) -> (r: u128)
    ensures
        r == artist_score(artist@, query@),
{
    score_artist_lowered(&lowered(artist.name.as_str()), &lowered(query))
}

/// The score of an album against a query.
pub fn score_album(album: &Album, query: &str) -> (r: u128)
    ensures
        r == album_score(album@, query@),
{
    score_album_lowered(
        &lowered(album.title.as_str()),
        &lowered(album.artist.as_str()),
        album.year,
        &lowered(query),
    )
}

/// The candidate that an entity with the given score and primary field is:
/// matched where the score is positive, and scored by the weighted score.
pub open spec fn candidate_of(score: nat, weight: u32, key: Seq<char>) -> CandidateView {
    CandidateView { matched: score > 0, score: weighted(score, weight) as u128, key }
}

/// The candidates that the tracks are for a query.
pub open spec fn track_candidates(
    tracks: Seq<TrackView>,
    query: Seq<char>,
    weight: u32,
) -> Seq<CandidateView> {
    Seq::new(
        tracks.len(),
        |i: int| candidate_of(track_score(tracks[i], query), weight, tracks[i].title),
    )
}

/// The candidates that the albums are for a query.
pub open spec fn album_candidates(
    albums: Seq<AlbumView>,
    query: Seq<char>,
    weight: u32,
) -> Seq<CandidateView> {
    Seq::new(
        albums.len(),
        |i: int| candidate_of(album_score(albums[i], query), weight, albums[i].title),
    )
}

/// The candidates that the artists are for a query.
pub open spec fn artist_candidates(
    artists: Seq<ArtistView>,
    query: Seq<char>,
    weight: u32,
) -> Seq<CandidateView> {
    Seq::new(
        artists.len(),
        |i: int| candidate_of(artist_score(artists[i], query), weight, artists[i].name),
    )
}

/// The items at the given positions, in the order of the positions.
pub open spec fn picked<T>(items: Seq<T>, order: Seq<int>) -> Seq<T> {
    Seq::new(order.len(), |k: int| items[order[k]])
}

/// The tracks that match a query, best first.
pub open spec fn ranked_tracks(tracks: Seq<TrackView>, query: Seq<char>, weight: u32) -> Seq<
    TrackView,
> {
    picked(tracks, ranked(track_candidates(tracks, query, weight)))
}

/// The albums that match a query, best first.
pub open spec fn ranked_albums(albums: Seq<AlbumView>, query: Seq<char>, weight: u32) -> Seq<
    AlbumView,
> {
    picked(albums, ranked(album_candidates(albums, query, weight)))
}

/// The artists that match a query, best first.
pub open spec fn ranked_artists(artists: Seq<ArtistView>, query: Seq<char>, weight: u32) -> Seq<
    ArtistView,
> {
    picked(artists, ranked(artist_candidates(artists, query, weight)))
}

/// The candidate of an entity with the given score and primary field.
fn weigh(score: u128, weight: u32, key: &str) -> (r: Candidate)
    requires
        score <= 0x40_0000_0000_0000_0000_0000 + 200,
    ensures
        r@ == candidate_of(score as nat, weight, key@),
{
    assert(score * weight <= (0x40_0000_0000_0000_0000_0000 + 200) * 0x1_0000_0000)
        by (nonlinear_arith)
        requires
            score <= 0x40_0000_0000_0000_0000_0000 + 200,
            weight <= 0x1_0000_0000,
    ;
    Candidate { matched: score > 0, score: score * (weight as u128) / 1000, key: chars_of(key) }
}

/// The window of an order: the positions of at most `limit` candidates
/// after the first `offset`.
fn window_of(order: Vec<usize>, limit: usize, offset: usize) -> (r: Vec<usize>)
    ensures
        positions(r@) == page_of(positions(order@), limit as int, offset as int),
{
    let ghost all = order@;
    let window = page(order, limit, offset);
    assert(positions(window@) =~= page_of(positions(all), limit as int, offset as int));
    window
}

/// Ranks tracks against a query: scores every track, drops those that no
/// signal matched, orders the rest by weighted score, then by title, then
/// by position, and only then cuts the window of at most `limit`
/// after the first `offset`.
pub fn rank_tracks(tracks: &Vec<Track>, query: &str, weight: u32, limit: usize, offset: usize) -> (r:
    Vec<Track>)
    ensures
        track_views(r@) == page_of(
            ranked_tracks(track_views(tracks@), query@, weight),
            limit as int,
            offset as int,
        ),
{
    let ghost all = track_views(tracks@);
    let ghost wanted = track_candidates(all, query@, weight);
    let lowered_query = lowered(query);
    let mut candidates: Vec<Candidate> = Vec::new();
    let mut i: usize = 0;
    while i < tracks.len()
        invariant
            i <= tracks.len(),
            all == track_views(tracks@),
            wanted == track_candidates(all, query@, weight),
            lowered_query@ == lowercase(query@),
            candidate_views(candidates@) == wanted.take(i as int),
        decreases tracks.len() - i,
    {
        let t = &tracks[i];
        assert(t@ == all[i as int]);
        let score = score_track_lowered(
            &lowered(t.title.as_str()),
            &lowered(t.artist.as_str()),
            &lowered(t.album.as_str()),
            &lowered_query,
        );
        let ghost so_far = candidate_views(candidates@);
        candidates.push(weigh(score, weight, t.title.as_str()));
        assert(candidate_views(candidates@) =~= so_far.push(wanted[i as int]));
        assert(candidate_views(candidates@) =~= wanted.take(i + 1));
        i += 1;
    }
    assert(wanted.take(tracks.len() as int) == wanted);
    let order = rank(&candidates);
    let ghost full = positions(order@);
    let window = window_of(order, limit, offset);
    let ghost cut = positions(window@);
    let mut out: Vec<Track> = Vec::new();
    let mut k: usize = 0;
    while k < window.len()
        invariant
            k <= window.len(),
            all == track_views(tracks@),
            cut == positions(window@),
            forall|j: int| 0 <= j < cut.len() ==> 0 <= #[trigger] cut[j] < tracks.len(),
            out.len() == k,
            forall|j: int| 0 <= j < k ==> out@[j]@ == all[cut[j]],
        decreases window.len() - k,
    {
        assert(cut[k as int] == window@[k as int]);
        out.push(tracks[window[k]].clone());
        k += 1;
    }
    assert(track_views(out@) =~= picked(all, cut));
    assert(picked(all, cut) =~= page_of(picked(all, full), limit as int, offset as int));
    out
}

/// Ranks albums against a query, as tracks are ranked.
pub fn rank_albums(albums: &Vec<Album>, query: &str, weight: u32, limit: usize, offset: usize) -> (r:
    Vec<Album>)
    ensures
        album_views(r@) == page_of(
            ranked_albums(album_views(albums@), query@, weight),
            limit as int,
            offset as int,
        ),
{
    let ghost all = album_views(albums@);
    let ghost wanted = album_candidates(all, query@, weight);
    let lowered_query = lowered(query);
    let mut candidates: Vec<Candidate> = Vec::new();
    let mut i: usize = 0;
    while i < albums.len()
        invariant
            i <= albums.len(),
            all == album_views(albums@),
            wanted == album_candidates(all, query@, weight),
            lowered_query@ == lowercase(query@),
            candidate_views(candidates@) == wanted.take(i as int),
        decreases albums.len() - i,
    {
        let a = &albums[i];
        assert(a@ == all[i as int]);
        let score = score_album_lowered(
            &lowered(a.title.as_str()),
            &lowered(a.artist.as_str()),
            a.year,
            &lowered_query,
        );
        let ghost so_far = candidate_views(candidates@);
        candidates.push(weigh(score, weight, a.title.as_str()));
        assert(candidate_views(candidates@) =~= so_far.push(wanted[i as int]));
        assert(candidate_views(candidates@) =~= wanted.take(i + 1));
        i += 1;
    }
    assert(wanted.take(albums.len() as int) == wanted);
    let order = rank(&candidates);
    let ghost full = positions(order@);
    let window = window_of(order, limit, offset);
    let ghost cut = positions(window@);
    let mut out: Vec<Album> = Vec::new();
    let mut k: usize = 0;
    while k < window.len()
        invariant
            k <= window.len(),
            all == album_views(albums@),
            cut == positions(window@),
            forall|j: int| 0 <= j < cut.len() ==> 0 <= #[trigger] cut[j] < albums.len(),
            out.len() == k,
            forall|j: int| 0 <= j < k ==> out@[j]@ == all[cut[j]],
        decreases window.len() - k,
    {
        assert(cut[k as int] == window@[k as int]);
        out.push(albums[window[k]].clone());
        k += 1;
    }
    assert(album_views(out@) =~= picked(all, cut));
    assert(picked(all, cut) =~= page_of(picked(all, full), limit as int, offset as int));
    out
}

/// Ranks artists against a query, as tracks are ranked.
pub fn rank_artists(
    artists: &Vec<Artist>,
    query: &str,
    weight: u32,
    limit: usize,
    offset: usize,
) -> (r: Vec<Artist>)
    ensures
        artist_views(r@) == page_of(
            ranked_artists(artist_views(artists@), query@, weight),
            limit as int,
            offset as int,
        ),
{
    let ghost all = artist_views(artists@);
    let ghost wanted = artist_candidates(all, query@, weight);
    let lowered_query = lowered(query);
    let mut candidates: Vec<Candidate> = Vec::new();
    let mut i: usize = 0;
    while i < artists.len()
        invariant
            i <= artists.len(),
            all == artist_views(artists@),
            wanted == artist_candidates(all, query@, weight),
            lowered_query@ == lowercase(query@),
            candidate_views(candidates@) == wanted.take(i as int),
        decreases artists.len() - i,
    {
        let a = &artists[i];
        assert(a@ == all[i as int]);
        let score = score_artist_lowered(&lowered(a.name.as_str()), &lowered_query);
        let ghost so_far = candidate_views(candidates@);
        candidates.push(weigh(score, weight, a.name.as_str()));
        assert(candidate_views(candidates@) =~= so_far.push(wanted[i as int]));
        assert(candidate_views(candidates@) =~= wanted.take(i + 1));
        i += 1;
    }
    assert(wanted.take(artists.len() as int) == wanted);
    let order = rank(&candidates);
    let ghost full = positions(order@);
    let window = window_of(order, limit, offset);
    let ghost cut = positions(window@);
    let mut out: Vec<Artist> = Vec::new();
    let mut k: usize = 0;
    while k < window.len()
        invariant
            k <= window.len(),
            all == artist_views(artists@),
            cut == positions(window@),
            forall|j: int| 0 <= j < cut.len() ==> 0 <= #[trigger] cut[j] < artists.len(),
            out.len() == k,
            forall|j: int| 0 <= j < k ==> out@[j]@ == all[cut[j]],
        decreases window.len() - k,
    {
        assert(cut[k as int] == window@[k as int]);
        out.push(artists[window[k]].clone());
        k += 1;
    }
    assert(artist_views(out@) =~= picked(all, cut));
    assert(picked(all, cut) =~= page_of(picked(all, full), limit as int, offset as int));
    out
}

/// Which of the three kinds of hit the top result is.
pub enum TopKind {
    Track,
    Artist,
    Album,
}

/// The kind and score of the top result, given the scores of the first
/// track, the first artist and the first album where there are any. The
/// track stands unless the artist scores strictly more; either stands
/// unless the album scores strictly more.
pub open spec fn top_choice(track: Option<nat>, artist: Option<nat>, album: Option<nat>) -> Option<
    (TopKind, nat),
> {
    let after_track: Option<(TopKind, nat)> = match track {
        Some(score) => Some((TopKind::Track, score)),
        None => None,
    };
    let after_artist = challenged(after_track, TopKind::Artist, artist);
    challenged(after_artist, TopKind::Album, album)
}

/// The better of the best so far and a challenger: the challenger where
/// there is no best yet or where it scores strictly more.
pub open spec fn challenged(
    best: Option<(TopKind, nat)>,
    kind: TopKind,
    challenger: Option<nat>,
) -> Option<(TopKind, nat)> {
    match challenger {
        Some(score) => match best {
            Some((_, held)) => if score > held {
                Some((kind, score))
            } else {
                best
            },
            None => Some((kind, score)),
        },
        None => best,
    }
}

/// The score of the first of the tracks, where there is one.
pub open spec fn first_track_score(items: Seq<PlayableItem>, query: Seq<char>) -> Option<nat> {
    if items.len() > 0 {
        Some(track_score(items[0]@.track, query))
    } else {
        None
    }
}

/// The score of the first of the artists, where there is one.
pub open spec fn first_artist_score(artists: Seq<Artist>, query: Seq<char>) -> Option<nat> {
    if artists.len() > 0 {
        Some(artist_score(artists[0]@, query))
    } else {
        None
    }
}

/// The score of the first of the albums, where there is one.
pub open spec fn first_album_score(albums: Seq<Album>, query: Seq<char>) -> Option<nat> {
    if albums.len() > 0 {
        Some(album_score(albums[0]@, query))
    } else {
        None
    }
}

/// Whether a scored result is the first hit of the given kind of the
/// results, with the given score.
pub open spec fn is_top_of(
    result: ScoredResult,
    results: SearchResults,
    kind: TopKind,
    score: nat,
) -> bool {
    &&& result.score == score
    &&& match (kind, result.result_type) {
        (TopKind::Track, SearchResultType::Track(item)) => results.tracks@.len() > 0 && item@
            == results.tracks@[0]@,
        (TopKind::Artist, SearchResultType::Artist(artist)) => results.artists@.len() > 0
            && artist@ == results.artists@[0]@,
        (TopKind::Album, SearchResultType::Album(album)) => results.albums@.len() > 0 && album@
            == results.albums@[0]@,
        _ => false,
    }
}

/// Picks the top result of a search: the best of the first track, the
/// first artist and the first album. Nothing where the search found
/// nothing.
pub fn determine_top_result(results: &SearchResults, query: &str) -> (r: Option<ScoredResult>)
    ensures
        match top_choice(
            first_track_score(results.tracks@, query@),
            first_artist_score(results.artists@, query@),
            first_album_score(results.albums@, query@),
        ) {
            Some((kind, score)) => r matches Some(top) && is_top_of(top, *results, kind, score),
            None => r is None,
        },
{
    let mut best: Option<ScoredResult> = None;
    let mut best_score: u128 = 0;
    if results.tracks.len() > 0 {
        let item = &results.tracks[0];
        let score = score_track(&item.track, query);
        best_score = score;
        best = Some(ScoredResult { score, result_type: SearchResultType::Track(item.clone()) });
    }
    if results.artists.len() > 0 {
        let artist = &results.artists[0];
        let score = score_artist(artist, query);
        if best.is_none() || score > best_score {
            best_score = score;
            best = Some(
                ScoredResult { score, result_type: SearchResultType::Artist(artist.clone()) },
            );
        }
    }
    if results.albums.len() > 0 {
        let album = &results.albums[0];
        let score = score_album(album, query);
        if best.is_none() || score > best_score {
            best = Some(ScoredResult { score, result_type: SearchResultType::Album(album.clone()) });
        }
    }
    best
}

/// A field that equals the term also begins with it, and a field that
/// begins with the term also contains it.
pub proof fn lemma_signals_nest(text: Seq<char>, term: Seq<char>)
    ensures
        text == term ==> has_prefix(text, term),
        has_prefix(text, term) ==> is_substring(text, term),
{
    if text == term {
        assert(text.subrange(0, text.len() as int) =~= text);
    }
    if has_prefix(text, term) {
        assert(occurs_at(text, term, 0));
    }
}

/// What a field earns is graded by how well it matches: an exact match
/// earns strictly more than a match at the beginning only, that strictly
/// more than a match elsewhere only, and that strictly more than no match,
/// which earns nothing.
pub proof fn lemma_field_score_grades(text: Seq<char>, term: Seq<char>, base: nat)
    requires
        base >= 2,
    ensures
        text == term ==> field_score(text, term, base) == base + base * 3 / 4 + base / 2,
        text != term && has_prefix(text, term) ==> field_score(text, term, base) == base * 3 / 4
            + base / 2,
        !has_prefix(text, term) && is_substring(text, term) ==> field_score(text, term, base)
            == base / 2,
        !is_substring(text, term) ==> field_score(text, term, base) == 0,
        base + base * 3 / 4 + base / 2 > base * 3 / 4 + base / 2 > base / 2 > 0,
{
    lemma_signals_nest(text, term);
}

/// For the same match, a field earns no more at a lower base than at a
/// higher one, and strictly less where it matches at all and the higher
/// base is at least twice the lower.
pub proof fn lemma_lower_base_earns_less(text: Seq<char>, term: Seq<char>, low: nat, high: nat)
    requires
        low <= high,
    ensures
        field_score(text, term, low) <= field_score(text, term, high),
        is_substring(text, term) && 2 <= 2 * low <= high ==> field_score(text, term, low)
            < field_score(text, term, high),
{
    lemma_signals_nest(text, term);
}

/// What the fields of a track earn against one term is what its title, its
/// artist and its album earn.
pub proof fn lemma_track_term_score(
    title: Seq<char>,
    artist: Seq<char>,
    album: Seq<char>,
    term: Seq<char>,
)
    ensures
        term_score(track_fields(title, artist, album), term) == field_score(title, term, 1200)
            + field_score(artist, term, 150) + field_score(album, term, 100),
{
    let fields = track_fields(title, artist, album);
    let two = fields.drop_last();
    let one = two.drop_last();
    assert(one.drop_last() =~= Seq::<ScoredField>::empty());
    assert(term_score(one.drop_last(), term) == 0);
    assert(one.last() == fields[0]);
    assert(term_score(one, term) == field_score(title, term, 1200));
    assert(two.last() == fields[1]);
    assert(term_score(two, term) == term_score(one, term) + field_score(artist, term, 150));
    assert(fields.last() == fields[2]);
}

/// What the fields of an album earn against one term is what its title and
/// its artist earn.
pub proof fn lemma_album_term_score(title: Seq<char>, artist: Seq<char>, term: Seq<char>)
    ensures
        term_score(album_fields(title, artist), term) == field_score(title, term, 1200)
            + field_score(artist, term, 150),
{
    let fields = album_fields(title, artist);
    let one = fields.drop_last();
    assert(one.drop_last() =~= Seq::<ScoredField>::empty());
    assert(term_score(one.drop_last(), term) == 0);
    assert(one.last() == fields[0]);
    assert(term_score(one, term) == field_score(title, term, 1200));
    assert(fields.last() == fields[1]);
}

/// What the fields of an item earn against one term is what its primary
/// text earns and, where it is not empty, what its secondary text earns.
pub proof fn lemma_item_term_score(primary: Seq<char>, secondary: Seq<char>, term: Seq<char>)
    ensures
        term_score(item_fields(primary, secondary), term) == field_score(primary, term, 1000) + (
        if secondary.len() > 0 {
            field_score(secondary, term, 200)
        } else {
            0
        }),
{
    let fields = item_fields(primary, secondary);
    if secondary.len() > 0 {
        let one = fields.drop_last();
        assert(one.drop_last() =~= Seq::<ScoredField>::empty());
        assert(term_score(one.drop_last(), term) == 0);
        assert(one.last() == fields[0]);
        assert(term_score(one, term) == field_score(primary, term, 1000));
        assert(fields.last() == fields[1]);
    } else {
        assert(fields.drop_last() =~= Seq::<ScoredField>::empty());
        assert(term_score(fields.drop_last(), term) == 0);
        assert(fields.last() == fields[0]);
    }
}

/// Secondary fields never outweigh a match of the primary field. Against
/// any one term the artist and the album of a track earn together at most
/// 562 points, whatever they hold; a title that contains the term earns at
/// least 600. So a match in the title, be it only somewhere inside, earns
/// more than exact matches in both artist and album.
pub proof fn lemma_track_secondaries_below_title(
    title: Seq<char>,
    artist: Seq<char>,
    album: Seq<char>,
    term: Seq<char>,
)
    ensures
        field_score(artist, term, 150) + field_score(album, term, 100) <= 562,
        is_substring(title, term) ==> field_score(title, term, 1200) >= 600,
        is_substring(title, term) ==> field_score(artist, term, 150) + field_score(
            album,
            term,
            100,
        ) < field_score(title, term, 1200),
{
}

/// Against any one term the artist of an album and its release year earn
/// together at most 537 points; a title that contains the term earns at
/// least 600.
pub proof fn lemma_album_secondaries_below_title(
    title: Seq<char>,
    artist: Seq<char>,
    year: Option<u32>,
    term: Seq<char>,
)
    ensures
        field_score(artist, term, 150) + year_bonus(year, term) <= 537,
        is_substring(title, term) ==> field_score(title, term, 1200) >= 600,
        is_substring(title, term) ==> field_score(artist, term, 150) + year_bonus(year, term)
            < field_score(title, term, 1200),
{
}

/// Against any one term the secondary text of an item earns at most 450
/// points; a primary text that contains the term earns at least 500.
pub proof fn lemma_item_secondary_below_primary(
    primary: Seq<char>,
    secondary: Seq<char>,
    term: Seq<char>,
)
    ensures
        field_score(secondary, term, 200) <= 450,
        is_substring(primary, term) ==> field_score(primary, term, 1000) >= 500,
        is_substring(primary, term) ==> field_score(secondary, term, 200) < field_score(
            primary,
            term,
            1000,
        ),
{
}

/// Over the words of a query, a track whose title contains every word
/// earns at least what a track earns whose title contains none of them, and
/// covers at least as many words.
pub proof fn lemma_title_words_outweigh(
    title: Seq<char>,
    artist: Seq<char>,
    album: Seq<char>,
    other_title: Seq<char>,
    other_artist: Seq<char>,
    other_album: Seq<char>,
    words: Seq<Seq<char>>,
)
    requires
        forall|k: int| 0 <= k < words.len() ==> is_substring(title, #[trigger] words[k]),
        forall|k: int| 0 <= k < words.len() ==> !is_substring(other_title, #[trigger] words[k]),
    ensures
        words_score(track_fields(title, artist, album), words) >= words_score(
            track_fields(other_title, other_artist, other_album),
            words,
        ),
        covered_words(track_fields(title, artist, album), words) >= covered_words(
            track_fields(other_title, other_artist, other_album),
            words,
        ),
    decreases words.len(),
{
    if words.len() > 0 {
        let rest = words.drop_last();
        let word = words.last();
        assert forall|k: int| 0 <= k < rest.len() implies is_substring(title, #[trigger] rest[k]) by {
            assert(rest[k] == words[k]);
        }
        assert forall|k: int| 0 <= k < rest.len() implies !is_substring(
            other_title,
            #[trigger] rest[k],
        ) by {
            assert(rest[k] == words[k]);
        }
        lemma_title_words_outweigh(
            title,
            artist,
            album,
            other_title,
            other_artist,
            other_album,
            rest,
        );
        assert(word == words[words.len() - 1]);
        lemma_track_term_score(title, artist, album, word);
        lemma_track_term_score(other_title, other_artist, other_album, word);
        lemma_track_secondaries_below_title(title, other_artist, other_album, word);
        lemma_signals_nest(other_title, word);
        let fields = track_fields(title, artist, album);
        assert(is_substring(fields[0].text, word));
        assert(term_matches(fields, word));
    }
}

/// A track whose title contains the query scores strictly more than a
/// track whose title contains neither the query nor any of its words,
/// whatever the artists and albums of the two tracks hold.
pub proof fn lemma_title_match_outweighs_secondary_matches(
    title: Seq<char>,
    artist: Seq<char>,
    album: Seq<char>,
    other_title: Seq<char>,
    other_artist: Seq<char>,
    other_album: Seq<char>,
    query: Seq<char>,
)
    requires
        is_substring(title, query),
        !is_substring(other_title, query),
        forall|k: int|
            0 <= k < words_of(query).len() ==> !is_substring(
                other_title,
                #[trigger] words_of(query)[k],
            ),
    ensures
        raw_score(track_fields(title, artist, album), query) > raw_score(
            track_fields(other_title, other_artist, other_album),
            query,
        ),
{
    lemma_track_term_score(title, artist, album, query);
    lemma_track_term_score(other_title, other_artist, other_album, query);
    lemma_track_secondaries_below_title(title, other_artist, other_album, query);
    lemma_signals_nest(other_title, query);
    lemma_words_occur(query);
    assert forall|k: int| 0 <= k < words_of(query).len() implies is_substring(
        title,
        #[trigger] words_of(query)[k],
    ) by {
        lemma_substring_transitive(title, query, words_of(query)[k]);
    }
    lemma_title_words_outweigh(
        title,
        artist,
        album,
        other_title,
        other_artist,
        other_album,
        words_of(query),
    );
    let mine = covered_words(track_fields(title, artist, album), words_of(query));
    let theirs = covered_words(
        track_fields(other_title, other_artist, other_album),
        words_of(query),
    );
    assert(coverage_bonus() * mine >= coverage_bonus() * theirs) by (nonlinear_arith)
        requires
            mine >= theirs,
    ;
}

/// A track of which some field contains the query scores more than
/// nothing, and so is a candidate.
pub proof fn lemma_matching_track_scores(
    title: Seq<char>,
    artist: Seq<char>,
    album: Seq<char>,
    query: Seq<char>,
)
    requires
        is_substring(title, query) || is_substring(artist, query) || is_substring(album, query),
    ensures
        raw_score(track_fields(title, artist, album), query) > 0,
{
    lemma_track_term_score(title, artist, album, query);
}

/// An artist whose name contains the query scores more than nothing.
pub proof fn lemma_matching_artist_scores(name: Seq<char>, query: Seq<char>)
    requires
        is_substring(name, query),
    ensures
        raw_score(artist_fields(name), query) > 0,
{
    let fields = artist_fields(name);
    assert(fields.drop_last() =~= Seq::<ScoredField>::empty());
    assert(term_score(fields.drop_last(), query) == 0);
    assert(fields.last() == fields[0]);
}

/// Fields of which none contains the term earn nothing against it.
pub proof fn lemma_unmatched_term_scores_nothing(fields: Seq<ScoredField>, term: Seq<char>)
    requires
        !term_matches(fields, term),
    ensures
        term_score(fields, term) == 0,
    decreases fields.len(),
{
    if fields.len() > 0 {
        let rest = fields.drop_last();
        assert(!term_matches(rest, term)) by {
            if term_matches(rest, term) {
                let i = choose|i: int|
                    0 <= i < rest.len() && is_substring((#[trigger] rest[i]).text, term);
                assert(is_substring(fields[i].text, term));
            }
        }
        lemma_unmatched_term_scores_nothing(rest, term);
        assert(!is_substring(fields[fields.len() - 1].text, term));
        lemma_signals_nest(fields.last().text, term);
    }
}

/// Fields of which none contains any of the words earn nothing against the
/// words, and cover none of them.
pub proof fn lemma_unmatched_words_score_nothing(fields: Seq<ScoredField>, words: Seq<Seq<char>>)
    requires
        forall|k: int| 0 <= k < words.len() ==> !term_matches(fields, #[trigger] words[k]),
    ensures
        words_score(fields, words) == 0,
        covered_words(fields, words) == 0,
    decreases words.len(),
{
    if words.len() > 0 {
        let rest = words.drop_last();
        assert forall|k: int| 0 <= k < rest.len() implies !term_matches(
            fields,
            #[trigger] rest[k],
        ) by {
            assert(rest[k] == words[k]);
        }
        lemma_unmatched_words_score_nothing(fields, rest);
        assert(!term_matches(fields, words[words.len() - 1]));
        lemma_unmatched_term_scores_nothing(fields, words.last());
    }
}

/// A candidate that no signal matches scores nothing, and so is no
/// candidate at all: where no field contains the query, nor any of its
/// words, the score is zero.
pub proof fn lemma_no_signal_no_score(fields: Seq<ScoredField>, query: Seq<char>)
    requires
        !term_matches(fields, query),
        forall|k: int|
            0 <= k < words_of(query).len() ==> !term_matches(fields, #[trigger] words_of(query)[k]),
    ensures
        raw_score(fields, query) == 0,
        forall|key: Seq<char>| !(#[trigger] candidate_of(raw_score(fields, query), 1000, key)).matched,
{
    lemma_unmatched_term_scores_nothing(fields, query);
    lemma_unmatched_words_score_nothing(fields, words_of(query));
}

/// A ranking holds every matched candidate exactly once, and nothing else.
pub proof fn lemma_ranked_holds_matches_once(candidates: Seq<CandidateView>)
    ensures
        forall|k: int|
            0 <= k < ranked(candidates).len() ==> 0 <= #[trigger] ranked(candidates)[k]
                < candidates.len() && candidates[ranked(candidates)[k]].matched,
        forall|i: int|
            0 <= i < candidates.len() && (#[trigger] candidates[i]).matched ==> ranked(
                candidates,
            ).contains(i),
        forall|k: int, l: int|
            0 <= k < l < ranked(candidates).len() ==> #[trigger] ranked(candidates)[k]
                != #[trigger] ranked(candidates)[l],
{
    lemma_ranked_is_ranking(candidates);
    let order = ranked(candidates);
    assert forall|k: int, l: int| 0 <= k < l < order.len() implies #[trigger] order[k]
        != #[trigger] order[l] by {
        assert(outranks(candidates, order[k], order[l]));
        lemma_goes_before_order(
            candidates[order[k]],
            order[k],
            candidates[order[l]],
            order[l],
            candidates[order[k]],
            order[k],
        );
    }
}

/// A search for tracks returns every track that scores against the query,
/// each once, and no track that does not: a track that no signal matches
/// is not ranked behind the others but left out.
pub proof fn lemma_ranked_tracks_are_the_matches(
    tracks: Seq<TrackView>,
    query: Seq<char>,
    weight: u32,
)
    ensures
        ranked_tracks(tracks, query, weight).len() == ranked(
            track_candidates(tracks, query, weight),
        ).len(),
        forall|k: int|
            0 <= k < ranked_tracks(tracks, query, weight).len() ==> 0 <= #[trigger] ranked(
                track_candidates(tracks, query, weight),
            )[k] < tracks.len() && ranked_tracks(tracks, query, weight)[k] == tracks[ranked(
                track_candidates(tracks, query, weight),
            )[k]] && track_score(ranked_tracks(tracks, query, weight)[k], query) > 0,
        forall|i: int|
            0 <= i < tracks.len() && track_score(#[trigger] tracks[i], query) > 0 ==> ranked(
                track_candidates(tracks, query, weight),
            ).contains(i),
        forall|k: int, l: int|
            0 <= k < l < ranked_tracks(tracks, query, weight).len() ==> #[trigger] ranked(
                track_candidates(tracks, query, weight),
            )[k] != #[trigger] ranked(track_candidates(tracks, query, weight))[l],
{
    let candidates = track_candidates(tracks, query, weight);
    lemma_ranked_holds_matches_once(candidates);
    let order = ranked(candidates);
    assert forall|i: int|
        0 <= i < tracks.len() && track_score(#[trigger] tracks[i], query) > 0 implies order.contains(
        i,
    ) by {
        assert(candidates[i].matched);
    }
}

/// A search for the name of an artist finds the tracks of that artist, and
/// none that are unrelated. A track whose artist contains the query, both
/// in lowercase, is among the ranked tracks; a track of which no field
/// contains the query or any of its words is not. So every track of the
/// artist comes before every unrelated track: the unrelated ones are not
/// returned at all.
pub proof fn lemma_artist_query_finds_the_artists_tracks(
    tracks: Seq<TrackView>,
    query: Seq<char>,
    weight: u32,
    mine: int,
    unrelated: int,
)
    requires
        0 <= mine < tracks.len(),
        0 <= unrelated < tracks.len(),
        is_substring(lowercase(tracks[mine].artist), lowercase(query)),
        !is_substring(lowercase(tracks[unrelated].title), lowercase(query)),
        !is_substring(lowercase(tracks[unrelated].artist), lowercase(query)),
        !is_substring(lowercase(tracks[unrelated].album), lowercase(query)),
        forall|k: int|
            0 <= k < words_of(lowercase(query)).len() ==> !is_substring(
                lowercase(tracks[unrelated].title),
                #[trigger] words_of(lowercase(query))[k],
            ) && !is_substring(
                lowercase(tracks[unrelated].artist),
                words_of(lowercase(query))[k],
            ) && !is_substring(lowercase(tracks[unrelated].album), words_of(lowercase(query))[k]),
    ensures
        ranked(track_candidates(tracks, query, weight)).contains(mine),
        !ranked(track_candidates(tracks, query, weight)).contains(unrelated),
{
    let q = lowercase(query);
    let candidates = track_candidates(tracks, query, weight);
    let order = ranked(candidates);
    lemma_ranked_tracks_are_the_matches(tracks, query, weight);
    let t = tracks[mine];
    lemma_matching_track_scores(lowercase(t.title), lowercase(t.artist), lowercase(t.album), q);
    assert(track_score(tracks[mine], query) > 0);
    let u = tracks[unrelated];
    let fields = track_fields(lowercase(u.title), lowercase(u.artist), lowercase(u.album));
    assert forall|term: Seq<char>|
        !is_substring(lowercase(u.title), term) && !is_substring(lowercase(u.artist), term)
            && !is_substring(lowercase(u.album), term) implies !term_matches(fields, term) by {
        if term_matches(fields, term) {
            let i = choose|i: int|
                0 <= i < fields.len() && is_substring((#[trigger] fields[i]).text, term);
            assert(i == 0 || i == 1 || i == 2);
        }
    }
    assert(!term_matches(fields, q));
    assert forall|k: int| 0 <= k < words_of(q).len() implies !term_matches(
        fields,
        #[trigger] words_of(q)[k],
    ) by {}
    lemma_no_signal_no_score(fields, q);
    assert(track_score(tracks[unrelated], query) == 0);
    if order.contains(unrelated) {
        let k = choose|k: int| 0 <= k < order.len() && order[k] == unrelated;
        assert(candidates[order[k]].matched);
    }
}

/// A search for artists returns each of the listed artists at most once,
/// and returns every one whose name contains the query, both in lowercase.
pub proof fn lemma_ranked_artists_are_the_matches(
    artists: Seq<ArtistView>,
    query: Seq<char>,
    weight: u32,
)
    ensures
        forall|k: int|
            0 <= k < ranked_artists(artists, query, weight).len() ==> 0 <= #[trigger] ranked(
                artist_candidates(artists, query, weight),
            )[k] < artists.len() && ranked_artists(artists, query, weight)[k] == artists[ranked(
                artist_candidates(artists, query, weight),
            )[k]],
        forall|i: int|
            0 <= i < artists.len() && is_substring(
                lowercase((#[trigger] artists[i]).name),
                lowercase(query),
            ) ==> ranked(artist_candidates(artists, query, weight)).contains(i),
        forall|k: int, l: int|
            0 <= k < l < ranked_artists(artists, query, weight).len() ==> #[trigger] ranked(
                artist_candidates(artists, query, weight),
            )[k] != #[trigger] ranked(artist_candidates(artists, query, weight))[l],
{
    let candidates = artist_candidates(artists, query, weight);
    lemma_ranked_holds_matches_once(candidates);
    let order = ranked(candidates);
    assert forall|i: int|
        0 <= i < artists.len() && is_substring(
            lowercase((#[trigger] artists[i]).name),
            lowercase(query),
        ) implies order.contains(i) by {
        lemma_matching_artist_scores(lowercase(artists[i].name), lowercase(query));
        assert(candidates[i].matched);
    }
}

/// Ranked results are paged only after they are scored and ordered, so
/// consecutive pages neither overlap nor leave a gap: the page after a page
/// continues where it ends.
pub proof fn lemma_ranked_pages_adjoin(
    tracks: Seq<TrackView>,
    query: Seq<char>,
    weight: u32,
    limit: int,
    offset: int,
)
    requires
        0 <= limit,
        0 <= offset,
    ensures
        page_of(ranked_tracks(tracks, query, weight), limit, offset) + page_of(
            ranked_tracks(tracks, query, weight),
            limit,
            offset + limit,
        ) == page_of(ranked_tracks(tracks, query, weight), 2 * limit, offset),
{
    crate::paging::lemma_pages_adjoin(ranked_tracks(tracks, query, weight), limit, offset);
}

} // verus!
