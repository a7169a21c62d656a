use riot::ordering::compare_python_versions;
use riot::spec_tree::dedup_preserving_order;
use riot::version::{
    compare_texts, compare_versions, normalize_pys, parse_version_components,
    python_versions_compatible, sort_versions, sorted_order, VersionOrder,
};
use std::cmp::Ordering;

fn texts(items: &[&str]) -> Vec<String> {
    items.iter().map(|s| s.to_string()).collect()
}

#[test]
fn components_of_dotted_versions() {
    assert_eq!(parse_version_components(""), Some(vec![]));
    assert_eq!(parse_version_components("3"), Some(vec![3]));
    assert_eq!(parse_version_components("3.10"), Some(vec![3, 10]));
    assert_eq!(parse_version_components("3.10.1"), Some(vec![3, 10, 1]));
    assert_eq!(parse_version_components("03.007"), Some(vec![3, 7]));
    assert_eq!(parse_version_components("+3.+1"), Some(vec![3, 1]));
}

#[test]
fn components_of_other_texts() {
    assert_eq!(parse_version_components("3."), None);
    assert_eq!(parse_version_components(".3"), None);
    assert_eq!(parse_version_components("3..1"), None);
    assert_eq!(parse_version_components("pypy3"), None);
    assert_eq!(parse_version_components("3.x"), None);
    assert_eq!(parse_version_components("-3"), None);
    assert_eq!(parse_version_components("+"), None);
    assert_eq!(parse_version_components("3 "), None);
}

#[test]
fn components_at_the_limit_of_32_bits() {
    assert_eq!(parse_version_components("4294967295"), Some(vec![u32::MAX]));
    assert_eq!(parse_version_components("4294967296"), None);
    assert_eq!(parse_version_components("99999999999999999999999"), None);
    assert_eq!(parse_version_components("000000000004294967295"), Some(vec![u32::MAX]));
}

#[test]
fn components_agree_with_the_standard_parser() {
    for text in ["0", "7", "+7", "-7", "", "12a", "4294967295", "4294967296", "++1", "1+"] {
        let expected = text.parse::<u32>().ok();
        let got = if text.is_empty() { None } else { parse_version_components(text) };
        assert_eq!(got.map(|c| c[0]), expected, "{text}");
    }
}

#[test]
fn versions_compare_by_number() {
    assert_eq!(compare_python_versions("3.9", "3.10"), Ordering::Less);
    assert_eq!(compare_python_versions("3.10", "3.9"), Ordering::Greater);
    assert_eq!(compare_python_versions("3.10", "3.10"), Ordering::Equal);
    assert_eq!(compare_python_versions("3", "3.0"), Ordering::Equal);
    assert_eq!(compare_python_versions("3", "3.0.1"), Ordering::Less);
    assert_eq!(compare_python_versions("", "3"), Ordering::Less);
    assert_eq!(compare_python_versions("", "0.0"), Ordering::Equal);
}

#[test]
fn versions_that_are_no_numbers_compare_as_text() {
    assert_eq!(compare_python_versions("pypy3", "3.10"), Ordering::Greater);
    assert_eq!(compare_python_versions("3.10", "pypy3"), Ordering::Less);
    assert_eq!(compare_python_versions("3.9a", "3.10"), Ordering::Greater);
    assert_eq!(compare_python_versions("a", "ab"), Ordering::Less);
    assert_eq!(compare_python_versions("ab", "a"), Ordering::Greater);
    assert_eq!(compare_python_versions("abc", "abc"), Ordering::Equal);
}

#[test]
fn compare_versions_agrees_with_compare_python_versions() {
    let samples = ["", "3", "3.9", "3.10", "3.10.1", "pypy", "3.x", "é", "z"];
    for a in samples {
        for b in samples {
            let expected = match compare_python_versions(a, b) {
                Ordering::Less => VersionOrder::Less,
                Ordering::Equal => VersionOrder::Equal,
                Ordering::Greater => VersionOrder::Greater,
            };
            assert_eq!(compare_versions(a, b), expected);
        }
    }
}

#[test]
fn texts_compare_like_strings() {
    let samples = ["", "a", "ab", "b", "é", "z", "Z", "10", "9", "\u{10000}", "\u{ffff}"];
    for a in samples {
        for b in samples {
            let expected = match a.cmp(b) {
                Ordering::Less => VersionOrder::Less,
                Ordering::Equal => VersionOrder::Equal,
                Ordering::Greater => VersionOrder::Greater,
            };
            assert_eq!(compare_texts(a, b), expected, "{a:?} {b:?}");
        }
    }
}

#[test]
fn compatible_versions() {
    assert!(python_versions_compatible("3.10", "3"));
    assert!(python_versions_compatible("3", "3.10"));
    assert!(python_versions_compatible("3.10", "3.10.1"));
    assert!(python_versions_compatible("3.10", "3.10"));
    assert!(python_versions_compatible("", "3.10"));
    assert!(python_versions_compatible("3.10", ""));
    assert!(python_versions_compatible("03", "3.1"));
}

#[test]
fn incompatible_versions() {
    assert!(!python_versions_compatible("3.9", "3.10"));
    assert!(!python_versions_compatible("3.1", "3.10"));
    assert!(!python_versions_compatible("3.11", "3.9"));
    assert!(!python_versions_compatible("2", "3"));
}

#[test]
fn compatibility_of_texts_is_by_prefix() {
    assert!(python_versions_compatible("pypy3", "pypy"));
    assert!(python_versions_compatible("pypy", "pypy3"));
    assert!(python_versions_compatible("pypy3", "pypy3"));
    assert!(!python_versions_compatible("pypy3", "pypy2"));
    assert!(!python_versions_compatible("pypy", "3"));
    assert!(python_versions_compatible("3.x", "3"));
}

#[test]
fn normalize_drops_empty_sorts_and_drops_repeats() {
    assert_eq!(
        normalize_pys(texts(&["3.10", "", "3.9", "3.10", "3.8"])),
        texts(&["3.8", "3.9", "3.10"])
    );
    assert_eq!(normalize_pys(texts(&[])), texts(&[]));
    assert_eq!(normalize_pys(texts(&["", ""])), texts(&[]));
    assert_eq!(normalize_pys(texts(&["3.12"])), texts(&["3.12"]));
}

#[test]
fn normalize_keeps_versions_that_are_equal_but_written_otherwise() {
    assert_eq!(normalize_pys(texts(&["3.0", "3", "3.0"])), texts(&["3.0", "3", "3.0"]));
    assert_eq!(normalize_pys(texts(&["3", "3", "3.0"])), texts(&["3", "3.0"]));
}

#[test]
fn sort_versions_is_stable() {
    assert_eq!(
        sort_versions(&texts(&["3.10", "3.9", "3", "3.0", "2.7"])),
        texts(&["2.7", "3", "3.0", "3.9", "3.10"])
    );
}

#[test]
fn sorted_order_gives_places() {
    assert_eq!(sorted_order(&texts(&["b", "a", "c", "a"])), vec![1, 3, 0, 2]);
    assert_eq!(sorted_order(&texts(&[])), Vec::<usize>::new());
    assert_eq!(sorted_order(&texts(&["10", "9", "1"])), vec![2, 0, 1]);
}

#[test]
fn dedup_keeps_first_occurrences() {
    assert_eq!(
        dedup_preserving_order(texts(&["b", "a", "b", "c", "a"])),
        texts(&["b", "a", "c"])
    );
    assert_eq!(dedup_preserving_order(texts(&[])), texts(&[]));
    assert_eq!(dedup_preserving_order(texts(&["x", "x", "x"])), texts(&["x"]));
}
