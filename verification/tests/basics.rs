//! Texts, lines, order, tables, doubles and paths.

use rigcoder_bench::double::Double;
use rigcoder_bench::lines;
use rigcoder_bench::order;
use rigcoder_bench::place;
use rigcoder_bench::table::Table;
use rigcoder_bench::text;

fn double(x: f64) -> Double {
    Double { bits: x.to_bits() }
}

const NUMBERS: [f64; 9] = [
    f64::NEG_INFINITY,
    -1.5,
    -f64::MIN_POSITIVE,
    -0.0,
    0.0,
    1.0,
    1.5,
    f64::INFINITY,
    f64::NAN,
];

#[test]
fn doubles_compare_as_numbers() {
    for a in NUMBERS {
        for b in NUMBERS {
            assert_eq!(double(a).is_below(double(b)), a < b, "{a} {b}");
            assert_eq!(double(a).is_at_least(double(b)), a >= b, "{a} {b}");
            assert_eq!(double(a).is_equal(double(b)), a == b, "{a} {b}");
            assert_eq!(
                double(a).is_totally_below(double(b)),
                a.total_cmp(&b) == std::cmp::Ordering::Less,
                "{a} {b}"
            );
        }
        assert_eq!(double(a).finite(), a.is_finite());
        assert_eq!(double(a).not_a_number(), a.is_nan());
    }
}

#[test]
fn lines_are_cut_as_texts_are() {
    for s in ["", "\n", "a", "a\n", "a\nb", "a\r\nb\r", "\r\n", "\n\n", "a\rb\n"] {
        let expected: Vec<&str> = s.lines().collect();
        assert_eq!(lines::lines(s), expected, "{s:?}");
        let expected: Vec<&str> = s.split('\n').collect();
        assert_eq!(lines::split(s, '\n'), expected, "{s:?}");
        let expected: Vec<&str> = s.split_inclusive('\n').collect();
        assert_eq!(lines::break_lines(s), expected, "{s:?}");
    }
    assert_eq!(lines::replace("aaa", "aa", "b"), "ba");
    assert_eq!(lines::replace_char("a'b'", '\'', "__"), "a__b__");
    assert_eq!(lines::join(&["a".to_owned(), "b".to_owned()], ", "), "a, b");
    assert_eq!(lines::join_strs(&[], ", "), "");
}

#[test]
fn numbers_are_written_out() {
    for n in [0, 7, 10, 999, u64::MAX] {
        assert_eq!(lines::number(n), n.to_string());
    }
    assert_eq!(lines::wide_number(u128::MAX), u128::MAX.to_string());
    for n in [0, -1, 137, i32::MIN, i32::MAX] {
        assert_eq!(lines::signed_number(n), n.to_string());
    }
    assert_eq!(lines::padded(7), "007");
    assert_eq!(lines::padded(1000), "1000");
}

#[test]
fn texts_are_searched_and_trimmed() {
    for s in ["", " a ", "\u{a0}x\u{3000}", "\t\n", "界 ", "a\u{200b}"] {
        assert_eq!(text::trim(s), s.trim(), "{s:?}");
        assert_eq!(text::bytes_in(s), s.len());
    }
    assert!(text::contains("abcabd", "abd"));
    assert!(!text::contains("ab", "abc"));
    assert!(text::contains("", ""));
    assert!(text::begins_with("abc", "ab") && !text::begins_with("a", "ab"));
    assert!(text::has_char("a/b", '/') && !text::has_char("", '/'));
    assert!(text::ends_with_char("a/", '/') && text::begins_with_char("/a", '/'));
    for c in ['a', ' ', '\u{85}', '\u{2003}', '\u{180e}', '\u{feff}', '\u{1680}'] {
        assert_eq!(text::white(c), c.is_whitespace(), "{c:?}");
    }
}

#[test]
fn texts_are_ordered_by_their_characters() {
    let words = ["", "a", "ab", "b", "B", "界", "é", "\u{10ffff}", "\u{ffff}"];
    for a in words {
        for b in words {
            assert_eq!(order::comes_before(a, b), a < b, "{a} {b}");
        }
    }
}

#[test]
fn tables_stay_in_order_and_hold_one_value_each() {
    let mut t: Table<u64> = Table::new();
    for (name, value) in [("b", 1), ("a", 2), ("c", 3), ("a", 4)] {
        t.set(name, value);
    }
    let names: Vec<&str> = t.entries.iter().map(|(name, _)| name.as_str()).collect();
    assert_eq!(names, ["a", "b", "c"]);
    assert_eq!(t.get("a"), Some(4));
    assert_eq!(t.get("d"), None);
}

#[test]
fn places_are_joined_and_named() {
    assert_eq!(place::join("/r", "a/b"), "/r/a/b");
    assert_eq!(place::join("/r/", "a"), "/r/a");
    assert_eq!(place::join("/r", "/abs"), "/abs");
    for path in ["/a/b", "a", "/", "a/", "a/..", "a/.", ""] {
        let expected = std::path::Path::new(path)
            .file_name()
            .map(|name| name.to_string_lossy().into_owned());
        assert_eq!(place::file_name(path), expected, "{path}");
    }
}
