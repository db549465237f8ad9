use ohara::digest::sha256_hex;
use ohara::order::{sort_picked, Descending};
use ohara::tally::{count, counts};
use ohara::text::{
    contains, decimal_signed_string, decimal_string, ends_with, hex_string, insert_ascending,
    is_blank, is_whitespace, join_strings, less, lines_of, lowercase_ascii, same_ignoring_ascii_case,
    split_at_char, starts_with, to_ascii_lower, trim, uppercase_ascii, utf8_len, without, words_of,
};

fn strings(items: &[&str]) -> Vec<String> {
    items.iter().map(|s| s.to_string()).collect()
}

const SAMPLES: [&str; 12] = [
    "",
    " ",
    "plain",
    "  padded\t\n",
    "a b  c",
    "line\nline\r\n",
    "\r\n\r",
    "São Paulo",
    "\u{a0}no-break\u{2003}",
    "\u{3000}ideographic",
    "tail\n",
    "x\u{85}y",
];

#[test]
fn blanks_are_the_white_space_characters() {
    for c in '\0'..=char::MAX {
        assert_eq!(is_whitespace(c), c.is_whitespace(), "{c:?}");
        assert_eq!(to_ascii_lower(c), c.to_ascii_lowercase());
    }
}

#[test]
fn texts_are_cut_and_joined() {
    for s in SAMPLES {
        assert_eq!(trim(s), s.trim());
        assert_eq!(is_blank(s), s.trim().is_empty());
        assert_eq!(lines_of(s), s.lines().collect::<Vec<_>>());
        assert_eq!(words_of(s), s.split_whitespace().collect::<Vec<_>>());
        assert_eq!(split_at_char(s, ' '), s.split(' ').collect::<Vec<_>>());
        assert_eq!(lowercase_ascii(s), s.to_ascii_lowercase());
        assert_eq!(uppercase_ascii(s), s.to_ascii_uppercase());
        assert_eq!(utf8_len(s), s.len() as u128);
    }
    assert_eq!(join_strings(&strings(&["a", "b", "c"]), ", "), "a, b, c");
    assert_eq!(join_strings(&Vec::new(), ", "), "");
}

#[test]
fn texts_are_compared_and_searched() {
    for a in SAMPLES {
        for b in SAMPLES {
            assert_eq!(less(a, b), a < b);
            assert_eq!(contains(a, b), a.contains(b));
            assert_eq!(starts_with(a, b), a.starts_with(b));
            assert_eq!(ends_with(a, b), a.ends_with(b));
            assert_eq!(same_ignoring_ascii_case(a, b), a.eq_ignore_ascii_case(b));
        }
    }
    assert!(same_ignoring_ascii_case("Robots", "rOBOTS"));
}

#[test]
fn numbers_are_written_in_digits() {
    for n in [0, 7, 10, 2_400, u64::MAX] {
        assert_eq!(decimal_string(n), n.to_string());
    }
    for n in [0, -1, i64::MIN, i64::MAX] {
        assert_eq!(decimal_signed_string(n), n.to_string());
    }
    assert_eq!(hex_string(&[0, 15, 16, 255]), "000f10ff");
}

#[test]
fn digests_are_those_of_sha_256() {
    assert_eq!(
        sha256_hex("abc"),
        "ba7816bf8f01cfea414140de5dae2223b00361a396177a9cb410ff61f20015ad"
    );
    assert_eq!(
        sha256_hex(""),
        "e3b0c44298fc1c149afbf4c8996fb92427ae41e4649b934ca495991b7852b855"
    );
}

#[test]
fn sets_of_texts_stay_ascending() {
    let mut items: Vec<String> = Vec::new();
    for item in ["b", "a", "c", "a"] {
        insert_ascending(&mut items, item.to_string());
    }
    assert_eq!(items, ["a", "b", "c"]);
    assert_eq!(without(&items, "b"), ["a", "c"]);
    assert_eq!(without(&items, "z"), items);
}

#[test]
fn picked_rows_are_ordered_by_their_keys() {
    let keys: Vec<Descending> =
        ["a", "c", "b"].iter().map(|s| Descending { text: s.to_string() }).collect();
    assert_eq!(sort_picked(&keys, &vec![true, true, true]), [1, 2, 0]);
    assert_eq!(sort_picked(&keys, &vec![true, false, true]), [2, 0]);
}

#[test]
fn labels_are_counted() {
    let labels = strings(&["b", "a", "b"]);
    assert_eq!(count(&labels, "b"), 2);
    assert_eq!(counts(&labels), vec![("a".to_string(), 1), ("b".to_string(), 2)]);
}
