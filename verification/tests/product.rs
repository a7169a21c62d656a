use indexmap::IndexMap;
use riot::product::expand_product;

fn variants(entries: &[(&str, &[&str])]) -> IndexMap<String, Vec<String>> {
    let mut m = IndexMap::new();
    for (k, v) in entries {
        m.insert(k.to_string(), v.iter().map(|s| s.to_string()).collect());
    }
    m
}

fn flat(maps: &[IndexMap<String, String>]) -> Vec<Vec<(String, String)>> {
    maps.iter()
        .map(|m| m.iter().map(|(k, v)| (k.clone(), v.clone())).collect())
        .collect()
}

fn combo(entries: &[(&str, &str)]) -> Vec<(String, String)> {
    entries.iter().map(|(k, v)| (k.to_string(), v.to_string())).collect()
}

#[test]
fn product_of_nothing_is_one_empty_combination() {
    let maps = expand_product(&variants(&[])).unwrap();
    assert_eq!(flat(&maps), vec![combo(&[])]);
}

#[test]
fn product_of_one_key() {
    let maps = expand_product(&variants(&[("a", &["1", "2", "3"])])).unwrap();
    assert_eq!(
        flat(&maps),
        vec![combo(&[("a", "1")]), combo(&[("a", "2")]), combo(&[("a", "3")])]
    );
}

#[test]
fn product_cycles_the_last_key_fastest() {
    let maps =
        expand_product(&variants(&[("a", &["1", "2"]), ("b", &["x"]), ("c", &["p", "q"])])).unwrap();
    assert_eq!(
        flat(&maps),
        vec![
            combo(&[("a", "1"), ("b", "x"), ("c", "p")]),
            combo(&[("a", "1"), ("b", "x"), ("c", "q")]),
            combo(&[("a", "2"), ("b", "x"), ("c", "p")]),
            combo(&[("a", "2"), ("b", "x"), ("c", "q")]),
        ]
    );
}

#[test]
fn product_with_an_empty_list_is_empty() {
    let maps = expand_product(&variants(&[("a", &["1", "2"]), ("b", &[])])).unwrap();
    assert!(maps.is_empty());
    let maps = expand_product(&variants(&[("a", &[])])).unwrap();
    assert!(maps.is_empty());
}

#[test]
fn product_counts_all_combinations() {
    let maps = expand_product(&variants(&[
        ("a", &["1", "2", "3"]),
        ("b", &["1", "2"]),
        ("c", &["1", "2", "3", "4"]),
    ]))
    .unwrap();
    assert_eq!(maps.len(), 24);
    let mut seen = std::collections::HashSet::new();
    for m in &maps {
        assert_eq!(m.keys().cloned().collect::<Vec<_>>(), vec!["a", "b", "c"]);
        assert!(seen.insert(flat(std::slice::from_ref(m))));
    }
}
