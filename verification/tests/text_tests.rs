use nova_library::identity::{album_id_of, hex_of, stable_id_of};
use nova_library::paging::page;
use nova_library::text::{
    chars_of, contains_chars, decimal_of, decimal_of_u64, fold_ascii, parse_u32, parse_year, same_chars,
    split_words, starts_with_chars, string_of, text_equals,
};

fn cs(text: &str) -> Vec<char> {
    text.chars().collect()
}

#[test]
fn chars_and_strings_round_trip() {
    assert_eq!(chars_of("héllo"), vec!['h', 'é', 'l', 'l', 'o']);
    assert_eq!(string_of(&cs("héllo")), "héllo".to_string());
    assert_eq!(chars_of(""), Vec::<char>::new());
}

#[test]
fn text_equality_is_exact() {
    assert!(text_equals("abc", "abc"));
    assert!(!text_equals("abc", "Abc"));
    assert!(!text_equals("abc", "abcd"));
    assert!(same_chars(&cs(""), &cs("")));
}

#[test]
fn substring_and_prefix_search() {
    assert!(contains_chars(&cs("xabcx"), &cs("abc")));
    assert!(contains_chars(&cs("abc"), &cs("abc")));
    assert!(contains_chars(&cs("abc"), &cs("")));
    assert!(contains_chars(&cs(""), &cs("")));
    assert!(!contains_chars(&cs("ab"), &cs("abc")));
    assert!(!contains_chars(&cs("abxc"), &cs("abc")));
    assert!(contains_chars(&cs("aab"), &cs("ab")));
    assert!(starts_with_chars(&cs("abcdef"), &cs("abc")));
    assert!(!starts_with_chars(&cs("xabc"), &cs("abc")));
    assert!(!starts_with_chars(&cs("ab"), &cs("abc")));
}

#[test]
fn ascii_folding_touches_ascii_capitals_only() {
    assert_eq!(fold_ascii("AbC xyZ 09"), cs("abc xyz 09"));
    assert_eq!(fold_ascii("ÀÉ"), cs("ÀÉ"));
    assert_eq!(fold_ascii("@[`{"), cs("@[`{"));
}

#[test]
fn unsigned_numbers_are_read_as_decimal() {
    assert_eq!(parse_u32(&cs("0")), Some(0));
    assert_eq!(parse_u32(&cs("7")), Some(7));
    assert_eq!(parse_u32(&cs("007")), Some(7));
    assert_eq!(parse_u32(&cs("+12")), Some(12));
    assert_eq!(parse_u32(&cs("4294967295")), Some(4294967295));
    assert_eq!(parse_u32(&cs("4294967296")), None);
    assert_eq!(parse_u32(&cs("99999999999999999999999")), None);
    assert_eq!(parse_u32(&cs("")), None);
    assert_eq!(parse_u32(&cs("+")), None);
    assert_eq!(parse_u32(&cs("-1")), None);
    assert_eq!(parse_u32(&cs("1/12")), None);
    assert_eq!(parse_u32(&cs(" 1")), None);
    assert_eq!(parse_u32(&cs("12a")), None);
}

#[test]
fn unsigned_numbers_agree_with_the_standard_parser() {
    for text in ["0", "42", "+42", "-42", "", "+", "4294967295", "4294967296", "0x10", "1 ", "٣"] {
        assert_eq!(parse_u32(&cs(text)), text.parse::<u32>().ok());
    }
}

#[test]
fn years_are_read_before_the_first_dash() {
    assert_eq!(parse_year(&cs("2001-05-17")), Some(2001));
    assert_eq!(parse_year(&cs("1999")), Some(1999));
    assert_eq!(parse_year(&cs("-1999")), None);
    assert_eq!(parse_year(&cs("20x1-01")), None);
    assert_eq!(parse_year(&cs("")), None);
    assert_eq!(parse_year(&cs("2001--")), Some(2001));
}

#[test]
fn words_are_runs_without_whitespace() {
    assert_eq!(split_words(&cs("band x")), vec![cs("band"), cs("x")]);
    assert_eq!(split_words(&cs("  band \t x\n")), vec![cs("band"), cs("x")]);
    assert_eq!(split_words(&cs("")), Vec::<Vec<char>>::new());
    assert_eq!(split_words(&cs("   ")), Vec::<Vec<char>>::new());
    assert_eq!(split_words(&cs("one")), vec![cs("one")]);
    assert_eq!(split_words(&cs("a\u{00a0}b\u{3000}c")), vec![cs("a"), cs("b"), cs("c")]);
}

#[test]
fn words_agree_with_the_standard_splitter() {
    for text in ["a b", " a  b ", "a\u{2003}b", "a\u{0085}b", "a\u{200b}b", "x\u{1680}y z"] {
        let expected: Vec<Vec<char>> = text.split_whitespace().map(|w| w.chars().collect()).collect();
        assert_eq!(split_words(&cs(text)), expected);
    }
}

#[test]
fn numbers_are_written_in_decimal() {
    assert_eq!(decimal_of(0), cs("0"));
    assert_eq!(decimal_of(9), cs("9"));
    assert_eq!(decimal_of(10), cs("10"));
    assert_eq!(decimal_of(1999), cs("1999"));
    assert_eq!(decimal_of(4294967295), cs("4294967295"));
}

#[test]
fn bytes_are_written_in_lowercase_hexadecimal() {
    assert_eq!(hex_of(&vec![0x00, 0x0f, 0xa0, 0xff]), "000fa0ff".to_string());
    assert_eq!(hex_of(&Vec::new()), String::new());
}

#[test]
fn stable_identifiers_are_sha1_digests_in_hexadecimal() {
    assert_eq!(stable_id_of("hello world"), "2aae6c35c94fcfb415dbe95f408b9ce91ee846ed".to_string());
    assert_eq!(stable_id_of(""), "da39a3ee5e6b4b0d3255bfef95601890afd80709".to_string());
    assert_eq!(stable_id_of("abc"), "a9993e364706816aba3e25717850c26c9cd0d89d".to_string());
    assert_ne!(stable_id_of("/music/a.mp3"), "/music/a.mp3".to_string());
}

#[test]
fn stable_identifiers_depend_on_the_text_alone() {
    assert_eq!(stable_id_of("/music/a.mp3"), stable_id_of("/music/a.mp3"));
    assert_ne!(stable_id_of("/music/a.mp3"), stable_id_of("/music/b.mp3"));
}

#[test]
fn album_identifiers_digest_the_length_of_the_title_the_title_and_the_artist() {
    assert_eq!(album_id_of("LP 1", "Band X"), stable_id_of("4:LP 1:Band X"));
    assert_eq!(album_id_of("", ""), stable_id_of("0::"));
    assert_eq!(album_id_of("été", "x"), stable_id_of("3:été:x"));
    assert_eq!(album_id_of("Twelve chars", "a"), stable_id_of("12:Twelve chars:a"));
    assert_ne!(album_id_of("LP 1", "Band X"), album_id_of("LP 1", "Band Y"));
}

#[test]
fn albums_that_differ_only_in_where_a_colon_stands_have_different_identifiers() {
    assert_ne!(album_id_of("a:b", "c"), album_id_of("a", "b:c"));
    assert_ne!(album_id_of("1:a", "b"), album_id_of("", "1:a:b"));
    assert_ne!(album_id_of("", "a"), album_id_of("a", ""));
}

#[test]
fn identifiers_have_forty_characters() {
    assert_eq!(stable_id_of("").chars().count(), 40);
    assert_eq!(stable_id_of("/music/a.mp3").chars().count(), 40);
    assert_eq!(album_id_of("LP 1", "Band X").chars().count(), 40);
}

#[test]
fn numbers_of_any_size_are_written_in_decimal() {
    assert_eq!(decimal_of_u64(0), cs("0"));
    assert_eq!(decimal_of_u64(18446744073709551615), cs("18446744073709551615"));
}

#[test]
fn pages_are_windows_after_an_offset() {
    let items = vec![1, 2, 3, 4, 5, 6, 7];
    assert_eq!(page(items.clone(), 3, 0), vec![1, 2, 3]);
    assert_eq!(page(items.clone(), 3, 3), vec![4, 5, 6]);
    assert_eq!(page(items.clone(), 3, 6), vec![7]);
    assert_eq!(page(items.clone(), 3, 7), Vec::<i32>::new());
    assert_eq!(page(items.clone(), 3, 100), Vec::<i32>::new());
    assert_eq!(page(items.clone(), 0, 2), Vec::<i32>::new());
    assert_eq!(page(items.clone(), usize::MAX, 5), vec![6, 7]);
    assert_eq!(page(items, usize::MAX, usize::MAX), Vec::<i32>::new());
}

#[test]
fn consecutive_pages_neither_overlap_nor_leave_gaps() {
    let items: Vec<u32> = (0..23).collect();
    for limit in 0..6usize {
        for offset in 0..26usize {
            let mut joined = page(items.clone(), limit, offset);
            joined.extend(page(items.clone(), limit, offset + limit));
            assert_eq!(joined, page(items.clone(), 2 * limit, offset));
        }
    }
}
