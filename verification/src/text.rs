//! Character-level text operations shared by the catalog, the scanner and
//! the ranking engine.

use vstd::prelude::*;

verus! {

/// The Unicode lowercase form of a text, as `str::to_lowercase` computes it.
pub uninterp spec fn lowercase(text: Seq<char>) -> Seq<char>;

/// The Unicode uppercase form of a text, as `str::to_uppercase` computes it.
pub uninterp spec fn uppercase(text: Seq<char>) -> Seq<char>;

/// `str::to_lowercase` returns the lowercase form of its argument; the
/// mapping itself (the Unicode case tables) is left abstract.
pub assume_specification[ str::to_lowercase ](s: &str) -> (r: String)
    ensures
        r@ == lowercase(s@),
;

/// `str::to_uppercase` returns the uppercase form of its argument; the
/// mapping itself (the Unicode case tables) is left abstract.
pub assume_specification[ str::to_uppercase ](s: &str) -> (r: String)
    ensures
        r@ == uppercase(s@),
;

/// `String::push` appends exactly one character to the end of the string.
pub assume_specification[ String::push ](s: &mut String, c: char)
    ensures
        final(s)@ == old(s)@.push(c),
;

/// `needle` occurs in `hay` starting at position `at`.
pub open spec fn occurs_at(hay: Seq<char>, needle: Seq<char>, at: int) -> bool {
    &&& 0 <= at
    &&& at + needle.len() <= hay.len()
    &&& hay.subrange(at, at + needle.len()) == needle
}

/// `needle` occurs somewhere in `hay` as a contiguous run of characters.
pub open spec fn is_substring(hay: Seq<char>, needle: Seq<char>) -> bool {
    exists|at: int| occurs_at(hay, needle, at)
}

/// `hay` begins with `needle`.
pub open spec fn has_prefix(hay: Seq<char>, needle: Seq<char>) -> bool {
    occurs_at(hay, needle, 0)
}

/// The characters of a string slice, in order.
pub fn chars_of(s: &str) -> (r: Vec<char>)
    ensures
        r@ == s@,
{
    broadcast use vstd::string::group_string_axioms;

    let mut out: Vec<char> = Vec::new();
    for c in it: s.chars()
        invariant
            it.seq() == s@,
            out@ == s@.take(it.index() as int),
    {
        out.push(c);
    }
    out
}

/// The string made of the given characters, in order.
pub fn string_of(chars: &Vec<char>) -> (r: String)
    ensures
        r@ == chars@,
{
    let mut out = String::new();
    let mut i: usize = 0;
    while i < chars.len()
        invariant
            i <= chars.len(),
            out@ == chars@.take(i as int),
        decreases chars.len() - i,
    {
        out.push(chars[i]);
        i += 1;
    }
    out
}

/// Whether two character vectors hold the same text.
pub fn same_chars(a: &Vec<char>, b: &Vec<char>) -> (r: bool)
    ensures
        r == (a@ == b@),
{
    if a.len() != b.len() {
        return false;
    }
    let mut i: usize = 0;
    while i < a.len()
        invariant
            i <= a.len(),
            a.len() == b.len(),
            a@.take(i as int) == b@.take(i as int),
        decreases a.len() - i,
    {
        if a[i] != b[i] {
            return false;
        }
        assert(a@.take(i + 1) == a@.take(i as int).push(a@[i as int]));
        assert(b@.take(i + 1) == b@.take(i as int).push(b@[i as int]));
        i += 1;
    }
    assert(a@ == a@.take(a.len() as int));
    assert(b@ == b@.take(b.len() as int));
    true
}

/// Whether `needle` occurs in `hay` at position `at`.
pub fn matches_at(hay: &Vec<char>, needle: &Vec<char>, at: usize) -> (r: bool)
    requires
        at + needle.len() <= hay.len(),
    ensures
        r == occurs_at(hay@, needle@, at as int),
{
    let ghost window = hay@.subrange(at as int, at + needle.len());
    let mut j: usize = 0;
    while j < needle.len()
        invariant
            j <= needle.len(),
            at + needle.len() <= hay.len(),
            window == hay@.subrange(at as int, at + needle.len()),
            window.take(j as int) == needle@.take(j as int),
        decreases needle.len() - j,
    {
        if hay[at + j] != needle[j] {
            assert(window[j as int] != needle@[j as int]);
            return false;
        }
        assert(window.take(j + 1) == window.take(j as int).push(window[j as int]));
        assert(needle@.take(j + 1) == needle@.take(j as int).push(needle@[j as int]));
        j += 1;
    }
    assert(window == window.take(needle.len() as int));
    assert(needle@ == needle@.take(needle.len() as int));
    true
}

/// Whether `hay` begins with `needle`.
pub fn starts_with_chars(hay: &Vec<char>, needle: &Vec<char>) -> (r: bool)
    ensures
        r == has_prefix(hay@, needle@),
{
    if needle.len() > hay.len() {
        return false;
    }
    matches_at(hay, needle, 0)
}

/// Whether `needle` occurs anywhere in `hay`.
pub fn contains_chars(hay: &Vec<char>, needle: &Vec<char>) -> (r: bool)
    ensures
        r == is_substring(hay@, needle@),
{
    if needle.len() > hay.len() {
        return false;
    }
    let last: usize = hay.len() - needle.len();
    let mut at: usize = 0;
    loop
        invariant
            at <= last,
            last == hay.len() - needle.len(),
            needle.len() <= hay.len(),
            forall|k: int| 0 <= k < at ==> !occurs_at(hay@, needle@, k),
        decreases last - at,
    {
        if matches_at(hay, needle, at) {
            return true;
        }
        if at == last {
            return false;
        }
        at += 1;
    }
}

/// A character with the ASCII capitals `A` to `Z` turned into small
/// letters, and every other character left as it is.
pub open spec fn ascii_lower(c: char) -> char {
    if 'A' <= c && c <= 'Z' {
        ((c as u8) + 32) as char
    } else {
        c
    }
}

/// A text with its ASCII capitals turned into small letters.
pub open spec fn ascii_fold(s: Seq<char>) -> Seq<char> {
    Seq::new(s.len(), |i: int| ascii_lower(s[i]))
}

/// `needle` occurs in `hay` when ASCII letters are compared without regard
/// to case.
pub open spec fn contains_ignoring_ascii_case(hay: Seq<char>, needle: Seq<char>) -> bool {
    is_substring(ascii_fold(hay), ascii_fold(needle))
}

/// The characters of a string slice, with ASCII capitals turned into small
/// letters.
pub fn fold_ascii(s: &str) -> (r: Vec<char>)
    ensures
        r@ == ascii_fold(s@),
{
    let chars = chars_of(s);
    let mut out: Vec<char> = Vec::new();
    let mut i: usize = 0;
    while i < chars.len()
        invariant
            i <= chars.len(),
            chars@ == s@,
            out@ == ascii_fold(s@).take(i as int),
        decreases chars.len() - i,
    {
        let c: char = chars[i];
        let lowered: char = if c >= 'A' && c <= 'Z' {
            ((c as u8) + 32) as char
        } else {
            c
        };
        out.push(lowered);
        assert(out@ =~= ascii_fold(s@).take(i + 1));
        i += 1;
    }
    assert(ascii_fold(s@).take(chars.len() as int) =~= ascii_fold(s@));
    out
}

/// Whether two string slices hold the same text.
pub fn text_equals(a: &str, b: &str) -> (r: bool)
    ensures
        r == (a@ == b@),
{
    let a_chars = chars_of(a);
    let b_chars = chars_of(b);
    same_chars(&a_chars, &b_chars)
}

/// An ASCII decimal digit.
pub open spec fn is_digit(c: char) -> bool {
    '0' <= c && c <= '9'
}

/// The value of an ASCII decimal digit.
pub open spec fn digit_value(c: char) -> nat {
    (c as nat - 48) as nat
}

/// Every character is an ASCII decimal digit.
pub open spec fn all_digits(s: Seq<char>) -> bool {
    forall|i: int| 0 <= i < s.len() ==> is_digit(#[trigger] s[i])
}

/// The number that a run of decimal digits denotes.
pub open spec fn decimal_value(s: Seq<char>) -> nat
    decreases s.len(),
{
    if s.len() == 0 {
        0
    } else {
        decimal_value(s.drop_last()) * 10 + digit_value(s.last())
    }
}

/// The digits of an unsigned number: the text without one leading `+`.
pub open spec fn unsigned_body(s: Seq<char>) -> Seq<char> {
    if s.len() > 0 && s[0] == '+' {
        s.skip(1)
    } else {
        s
    }
}

/// The 32-bit unsigned number that a text denotes: an optional `+`, then one
/// or more decimal digits whose value fits; anything else denotes nothing.
pub open spec fn parsed_u32(s: Seq<char>) -> Option<u32> {
    let body = unsigned_body(s);
    if body.len() > 0 && all_digits(body) && decimal_value(body) <= u32::MAX {
        Some(decimal_value(body) as u32)
    } else {
        None
    }
}

/// A run of digits denotes at least what any of its prefixes denotes.
pub proof fn lemma_decimal_prefix_le(s: Seq<char>, n: int)
    requires
        all_digits(s),
        0 <= n <= s.len(),
    ensures
        decimal_value(s.take(n)) <= decimal_value(s),
    decreases s.len() - n,
{
    if n == s.len() {
        assert(s.take(n) == s);
    } else {
        lemma_decimal_prefix_le(s, n + 1);
        assert(s.take(n + 1).drop_last() == s.take(n));
    }
}

/// Reads a 32-bit unsigned decimal number.
pub fn parse_u32(text: &Vec<char>) -> (r: Option<u32>)
    ensures
        r == parsed_u32(text@),
{
    let start: usize = if text.len() > 0 && text[0] == '+' {
        1
    } else {
        0
    };
    let ghost body = unsigned_body(text@);
    assert(body == text@.skip(start as int));
    if start == text.len() {
        return None;
    }
    let mut value: u64 = 0;
    let mut i: usize = start;
    while i < text.len()
        invariant
            start <= i <= text.len(),
            body == text@.skip(start as int),
            body == unsigned_body(text@),
            all_digits(body.take(i - start)),
            value == decimal_value(body.take(i - start)),
            value <= u32::MAX,
        decreases text.len() - i,
    {
        let c: char = text[i];
        if !(c >= '0' && c <= '9') {
            assert(!is_digit(body[i - start]));
            return None;
        }
        let digit: u64 = (c as u64) - 48;
        value = value * 10 + digit;
        proof {
            let next = body.take(i - start + 1);
            assert(next.drop_last() == body.take(i - start));
            assert(next.last() == c);
            assert(all_digits(next)) by {
                assert forall|k: int| 0 <= k < next.len() implies is_digit(#[trigger] next[k]) by {
                    if k < next.len() - 1 {
                        assert(next[k] == body.take(i - start)[k]);
                    }
                }
            }
        }
        if value > 0xffff_ffff {
            proof {
                if all_digits(body) {
                    lemma_decimal_prefix_le(body, i - start + 1);
                }
            }
            return None;
        }
        i += 1;
    }
    assert(body.take(body.len() as int) == body);
    Some(value as u32)
}

/// The position of the first `-` in a text, or its length where it has none.
pub open spec fn first_dash(s: Seq<char>) -> int
    decreases s.len(),
{
    if s.len() == 0 {
        0
    } else if s[0] == '-' {
        0
    } else {
        1 + first_dash(s.drop_first())
    }
}

/// The year that a date text denotes: the number before its first `-`.
pub open spec fn parsed_year(s: Seq<char>) -> Option<u32> {
    parsed_u32(s.take(first_dash(s)))
}

/// The first dash lies within the text, and no dash comes before it.
pub proof fn lemma_first_dash(s: Seq<char>)
    ensures
        0 <= first_dash(s) <= s.len(),
        first_dash(s) < s.len() ==> s[first_dash(s)] == '-',
        forall|i: int| 0 <= i < first_dash(s) ==> s[i] != '-',
    decreases s.len(),
{
    if s.len() > 0 && s[0] != '-' {
        let rest = s.drop_first();
        lemma_first_dash(rest);
        assert forall|i: int| 0 <= i < first_dash(s) implies s[i] != '-' by {
            if i > 0 {
                assert(s[i] == rest[i - 1]);
            }
        }
    }
}

/// Reads the year of a date such as `2001-05-17`.
pub fn parse_year(text: &Vec<char>) -> (r: Option<u32>)
    ensures
        r == parsed_year(text@),
{
    let mut head: Vec<char> = Vec::new();
    let mut i: usize = 0;
    proof {
        lemma_first_dash(text@);
    }
    while i < text.len() && text[i] != '-'
        invariant
            i <= text.len(),
            i <= first_dash(text@) <= text.len(),
            first_dash(text@) < text.len() ==> text@[first_dash(text@)] == '-',
            forall|k: int| 0 <= k < first_dash(text@) ==> text@[k] != '-',
            head@ == text@.take(i as int),
        decreases text.len() - i,
    {
        head.push(text[i]);
        assert(head@ == text@.take(i + 1));
        i += 1;
    }
    assert(i == first_dash(text@));
    parse_u32(&head)
}

/// A character with the Unicode property White_Space.
pub open spec fn is_space(c: char) -> bool {
    let code = c as u32;
    ||| (0x09 <= code && code <= 0x0d)
    ||| code == 0x20
    ||| code == 0x85
    ||| code == 0xa0
    ||| code == 0x1680
    ||| (0x2000 <= code && code <= 0x200a)
    ||| code == 0x2028
    ||| code == 0x2029
    ||| code == 0x202f
    ||| code == 0x205f
    ||| code == 0x3000
}

/// The word being read, as a list of at most one word: nothing while no
/// character of a word has been read.
pub open spec fn finished_word(current: Seq<char>) -> Seq<Seq<char>> {
    if current.len() > 0 {
        seq![current]
    } else {
        Seq::empty()
    }
}

/// The words of a text from position `from` on, where `current` holds the
/// characters already read of the word that is being read.
pub open spec fn words_from(s: Seq<char>, from: int, current: Seq<char>) -> Seq<Seq<char>>
    decreases s.len() - from,
{
    if from >= s.len() || from < 0 {
        finished_word(current)
    } else if is_space(s[from]) {
        finished_word(current) + words_from(s, from + 1, Seq::empty())
    } else {
        words_from(s, from + 1, current.push(s[from]))
    }
}

/// The words of a text: its maximal runs of characters that are not
/// whitespace, in order.
pub open spec fn words_of(s: Seq<char>) -> Seq<Seq<char>> {
    words_from(s, 0, Seq::empty())
}

/// What occurs in a text that occurs in another text occurs in that other
/// text.
pub proof fn lemma_substring_transitive(outer: Seq<char>, middle: Seq<char>, inner: Seq<char>)
    requires
        is_substring(outer, middle),
        is_substring(middle, inner),
    ensures
        is_substring(outer, inner),
{
    let i = choose|i: int| occurs_at(outer, middle, i);
    let j = choose|j: int| occurs_at(middle, inner, j);
    let window = outer.subrange(i + j, i + j + inner.len());
    let inside = middle.subrange(j, j + inner.len());
    assert forall|k: int| 0 <= k < window.len() implies #[trigger] window[k] == inside[k] by {
        assert(outer.subrange(i, i + middle.len())[j + k] == middle[j + k]);
    }
    assert(window =~= inside);
    assert(occurs_at(outer, inner, i + j));
}

/// The words read from `from` on occur in the text, where the word being
/// read is the run of characters that ends at `from`.
pub proof fn lemma_words_from_occur(s: Seq<char>, from: int, current: Seq<char>)
    requires
        0 <= from <= s.len(),
        current.len() <= from,
        current == s.subrange(from - current.len(), from),
    ensures
        forall|k: int|
            0 <= k < words_from(s, from, current).len() ==> is_substring(
                s,
                #[trigger] words_from(s, from, current)[k],
            ),
    decreases s.len() - from,
{
    let words = words_from(s, from, current);
    assert(occurs_at(s, current, from - current.len()));
    assert(is_substring(s, current));
    if from >= s.len() {
        assert forall|k: int| 0 <= k < words.len() implies is_substring(s, #[trigger] words[k]) by {
            assert(words[k] == current);
        }
    } else if is_space(s[from]) {
        let rest = words_from(s, from + 1, Seq::empty());
        assert(Seq::<char>::empty() =~= s.subrange(from + 1, from + 1));
        lemma_words_from_occur(s, from + 1, Seq::empty());
        assert forall|k: int| 0 <= k < words.len() implies is_substring(s, #[trigger] words[k]) by {
            if k < finished_word(current).len() {
                assert(words[k] == current);
            } else {
                assert(words[k] == rest[k - finished_word(current).len()]);
            }
        }
    } else {
        let longer = current.push(s[from]);
        assert(longer =~= s.subrange(from - current.len(), from + 1));
        lemma_words_from_occur(s, from + 1, longer);
        assert(words == words_from(s, from + 1, longer));
    }
}

/// Every word of a text occurs in the text.
pub proof fn lemma_words_occur(s: Seq<char>)
    ensures
        forall|k: int| 0 <= k < words_of(s).len() ==> is_substring(s, #[trigger] words_of(s)[k]),
{
    assert(Seq::<char>::empty() =~= s.subrange(0, 0));
    lemma_words_from_occur(s, 0, Seq::empty());
}

/// Whether a character is whitespace.
pub fn is_space_char(c: char) -> (r: bool)
    ensures
        r == is_space(c),
{
    let code: u32 = c as u32;
    (0x09 <= code && code <= 0x0d) || code == 0x20 || code == 0x85 || code == 0xa0 || code
        == 0x1680 || (0x2000 <= code && code <= 0x200a) || code == 0x2028 || code == 0x2029
        || code == 0x202f || code == 0x205f || code == 0x3000
}

/// Splits a text into its words.
pub fn split_words(text: &Vec<char>) -> (r: Vec<Vec<char>>)
    ensures
        r.deep_view() == words_of(text@),
{
    let mut words: Vec<Vec<char>> = Vec::new();
    let mut current: Vec<char> = Vec::new();
    let mut i: usize = 0;
    assert(words.deep_view() + words_from(text@, 0, current@) =~= words_of(text@));
    while i < text.len()
        invariant
            i <= text.len(),
            words.deep_view() + words_from(text@, i as int, current@) == words_of(text@),
        decreases text.len() - i,
    {
        let ghost done = words.deep_view();
        let ghost word = current@;
        if is_space_char(text[i]) {
            if current.len() > 0 {
                words.push(current);
                current = Vec::new();
                assert(words@[words.len() - 1].deep_view() =~= word);
                assert(words.deep_view() =~= done + finished_word(word));
            }
            assert(current@ =~= Seq::<char>::empty());
            assert(words.deep_view() + words_from(text@, i + 1, current@) =~= done + words_from(
                text@,
                i as int,
                word,
            ));
        } else {
            current.push(text[i]);
        }
        i += 1;
    }
    let ghost done = words.deep_view();
    let ghost word = current@;
    if current.len() > 0 {
        words.push(current);
        assert(words@[words.len() - 1].deep_view() =~= word);
        assert(words.deep_view() =~= done + finished_word(word));
    } else {
        assert(words.deep_view() =~= done + finished_word(word));
    }
    words
}

/// The decimal digits of a number, without leading zeros; `0` for zero.
pub open spec fn decimal_text(n: nat) -> Seq<char>
    decreases n,
{
    if n < 10 {
        seq![(48 + n) as char]
    } else {
        decimal_text(n / 10).push((48 + n % 10) as char)
    }
}

/// The decimal digits of a number are digits, there is at least one, and
/// they denote the number.
pub proof fn lemma_decimal_text(n: nat)
    ensures
        decimal_text(n).len() > 0,
        all_digits(decimal_text(n)),
        decimal_value(decimal_text(n)) == n,
    decreases n,
{
    if n < 10 {
        let s = decimal_text(n);
        assert(s.drop_last() =~= Seq::<char>::empty());
        assert(decimal_value(s.drop_last()) == 0);
    } else {
        lemma_decimal_text(n / 10);
        let head = decimal_text(n / 10);
        let s = decimal_text(n);
        assert(s.drop_last() =~= head);
        assert forall|i: int| 0 <= i < s.len() implies is_digit(#[trigger] s[i]) by {
            if i < head.len() {
                assert(s[i] == head[i]);
            }
        }
    }
}

/// Writes a number in decimal.
pub fn decimal_of_u64(n: u64) -> (r: Vec<char>)
    ensures
        r@ == decimal_text(n as nat),
    decreases n,
{
    if n < 10 {
        let mut out: Vec<char> = Vec::new();
        out.push((48 + n as u8) as char);
        assert(out@ =~= seq![(48 + n) as char]);
        out
    } else {
        let mut out = decimal_of_u64(n / 10);
        out.push((48 + (n % 10) as u8) as char);
        out
    }
}

/// Writes a number in decimal.
pub fn decimal_of(n: u32) -> (r: Vec<char>)
    ensures
        r@ == decimal_text(n as nat),
{
    decimal_of_u64(n as u64)
}

/// Whether text `a` comes strictly before text `b`, comparing character by
/// character from position `from` on: at the first difference the lower
/// character decides, and a text comes before its own continuations.
pub open spec fn text_before_from(a: Seq<char>, b: Seq<char>, from: int) -> bool
    decreases a.len() - from,
{
    if from >= b.len() || from < 0 {
        false
    } else if from >= a.len() {
        true
    } else if a[from] != b[from] {
        a[from] < b[from]
    } else {
        text_before_from(a, b, from + 1)
    }
}

/// Whether text `a` comes strictly before text `b` in dictionary order of
/// their characters.
pub open spec fn text_before(a: Seq<char>, b: Seq<char>) -> bool {
    text_before_from(a, b, 0)
}

/// No text comes before itself.
pub proof fn lemma_text_before_irreflexive(a: Seq<char>, from: int)
    requires
        0 <= from,
    ensures
        !text_before_from(a, a, from),
    decreases a.len() - from,
{
    if from < a.len() {
        lemma_text_before_irreflexive(a, from + 1);
    }
}

/// The order of texts is transitive.
pub proof fn lemma_text_before_transitive(a: Seq<char>, b: Seq<char>, c: Seq<char>, from: int)
    requires
        0 <= from,
        text_before_from(a, b, from),
        text_before_from(b, c, from),
    ensures
        text_before_from(a, c, from),
    decreases a.len() - from,
{
    if from < a.len() && from < b.len() && from < c.len() && a[from] == b[from] && b[from]
        == c[from] {
        lemma_text_before_transitive(a, b, c, from + 1);
    }
}

/// The order of texts is total: of two texts that agree before `from`, one
/// comes before the other unless they are the same text.
pub proof fn lemma_text_before_total(a: Seq<char>, b: Seq<char>, from: int)
    requires
        0 <= from <= a.len(),
        from <= b.len(),
        a.take(from) == b.take(from),
    ensures
        text_before_from(a, b, from) || text_before_from(b, a, from) || a == b,
    decreases a.len() - from,
{
    if from < a.len() && from < b.len() {
        if a[from] == b[from] {
            assert(a.take(from + 1) =~= a.take(from).push(a[from]));
            assert(b.take(from + 1) =~= b.take(from).push(b[from]));
            lemma_text_before_total(a, b, from + 1);
        }
    } else if from == a.len() && from == b.len() {
        assert(a =~= a.take(from));
        assert(b =~= b.take(from));
    }
}

/// Whether text `a` comes strictly before text `b`.
pub fn comes_before(a: &Vec<char>, b: &Vec<char>) -> (r: bool)
    ensures
        r == text_before(a@, b@),
{
    let mut i: usize = 0;
    loop
        invariant
            i <= a.len(),
            i <= b.len(),
            text_before(a@, b@) == text_before_from(a@, b@, i as int),
        decreases a.len() - i,
    {
        if i >= b.len() {
            return false;
        }
        if i >= a.len() {
            return true;
        }
        if a[i] != b[i] {
            return a[i] < b[i];
        }
        i += 1;
    }
}

} // verus!
