use indexmap::IndexMap;
use riot::hashing::{
    add_quote, extract_hash, fold_digest, format_hex, interpreter_repr, pip_deps, RiotHasher,
};

fn quote_text(text: &str) -> String {
    let mut quotes = IndexMap::new();
    add_quote(&mut quotes, text);
    assert_eq!(quotes.len(), 1);
    quotes[text].clone()
}

fn environment_hash_of(name: &str, python: &str, pkgs: &IndexMap<String, String>) -> String {
    pyo3::Python::initialize();
    riot::hashing::environment_hash_of(&quote_text(name), &quote_text(python), pkgs)
}

fn context_hash(
    command: Option<&String>,
    env: &IndexMap<String, String>,
    create: bool,
    skip_dev_install: bool,
) -> String {
    pyo3::Python::initialize();
    let quoted = command.map(|text| quote_text(text));
    RiotHasher::context_hash(quoted.as_ref(), env, create, skip_dev_install)
}

fn pairs(entries: &[(&str, &str)]) -> IndexMap<String, String> {
    let mut m = IndexMap::new();
    for (k, v) in entries {
        m.insert(k.to_string(), v.to_string());
    }
    m
}

#[test]
fn hash_of_two_parts() {
    let parts = vec!["a".to_string(), "b".to_string()];
    assert_eq!(RiotHasher::hash_parts(&parts), "110b5d7");
}

#[test]
fn hash_of_no_parts() {
    assert_eq!(RiotHasher::hash_parts(&Vec::new()), "28d5f96");
}

#[test]
fn hash_parts_concatenates() {
    let split = vec!["ab".to_string(), "c".to_string()];
    let joined = vec!["abc".to_string()];
    assert_eq!(RiotHasher::hash_parts(&split), RiotHasher::hash_parts(&joined));
}

#[test]
fn environment_hash_matches_reference() {
    let pkgs = pairs(&[("a", "==1"), ("b", "==3")]);
    assert_eq!(environment_hash_of("test", "3.10", &pkgs), "1f6bcbd");
    let pkgs = pairs(&[("a", "==2"), ("b", "==3")]);
    assert_eq!(environment_hash_of("test", "3.10", &pkgs), "42567ea");
}

#[test]
fn environment_hash_quotes_like_python() {
    assert_eq!(environment_hash_of("it's", "3.9", &pairs(&[])), "1659be9");
}

#[test]
fn context_hash_matches_reference() {
    let command = "pytest {cmdargs}".to_string();
    let env = pairs(&[("A", "1")]);
    assert_eq!(context_hash(Some(&command), &env, false, false), "8872f9b");
    assert_eq!(context_hash(None, &pairs(&[]), false, false), "c1b47d4");
    let command = "pytest".to_string();
    let env = pairs(&[("A", "1"), ("B", "x y")]);
    assert_eq!(context_hash(Some(&command), &env, true, false), "aae54d8");
}

#[test]
fn context_hash_depends_on_flags() {
    let env = pairs(&[]);
    let a = context_hash(None, &env, false, false);
    let b = context_hash(None, &env, true, false);
    let c = context_hash(None, &env, false, true);
    assert_ne!(a, b);
    assert_ne!(a, c);
    assert_ne!(b, c);
}

#[test]
fn hashes_are_stable() {
    let pkgs = pairs(&[("pytest", ">=7"), ("requests", "")]);
    let first = environment_hash_of("suite", "3.12", &pkgs);
    let second = environment_hash_of("suite", "3.12", &pkgs);
    assert_eq!(first, second);
    assert_eq!(first.len(), 7);
    assert!(first.chars().all(|c| c.is_ascii_hexdigit() && !c.is_ascii_uppercase()));
}

#[test]
fn generated_inputs_do_not_collide() {
    let mut seen = std::collections::HashSet::new();
    for i in 0..60 {
        for j in 0..4 {
            let pkgs = pairs(&[("a", &format!("=={i}")), ("b", &format!("=={j}"))]);
            let hash = environment_hash_of("lib", "3.11", &pkgs);
            assert!(seen.insert(hash));
        }
    }
    let mut seen = std::collections::HashSet::new();
    for i in 0..200 {
        let env = pairs(&[("KEY", &format!("{i}"))]);
        assert!(seen.insert(context_hash(None, &env, false, false)));
    }
}

#[test]
fn pip_deps_quotes_each_package() {
    assert_eq!(pip_deps(&pairs(&[])), "");
    assert_eq!(pip_deps(&pairs(&[("a", "==1")])), "'a==1'");
    assert_eq!(pip_deps(&pairs(&[("a", "==1"), ("b", "")])), "'a==1' 'b'");
}

#[test]
fn interpreter_repr_quotes_hint() {
    assert_eq!(interpreter_repr("'3.10'"), "Interpreter(_hint='3.10')");
    assert_eq!(interpreter_repr(""), "Interpreter(_hint=)");
}

#[test]
fn format_hex_writes_prefix_and_digits() {
    assert_eq!(format_hex(0), "0x0");
    assert_eq!(format_hex(255), "0xff");
    assert_eq!(format_hex(0x1234_abcd), "0x1234abcd");
    assert_eq!(format_hex(u128::MAX), format!("{:#x}", u128::MAX));
}

#[test]
fn extract_hash_drops_prefix_and_cuts() {
    assert_eq!(extract_hash("0x123456789abc"), "1234567");
    assert_eq!(extract_hash("0x1234"), "1234");
    assert_eq!(extract_hash("0x"), "");
    assert_eq!(extract_hash(""), "");
}

#[test]
fn fold_digest_of_small_digests() {
    assert_eq!(fold_digest(&[]), "0");
    assert_eq!(fold_digest(&[0x12]), "12");
    assert_eq!(fold_digest(&[0x12, 0x34, 0x56, 0x78, 0x9a]), "1234567");
    let all_ones = [0xffu8; 32];
    let expected = {
        let m: u128 = (1u128 << 61) - 1;
        let mut r: u128 = 0;
        for b in all_ones {
            r = ((r << 8) + b as u128) % m;
        }
        format!("{r:x}").chars().take(7).collect::<String>()
    };
    assert_eq!(fold_digest(&all_ones), expected);
}

#[test]
fn hashes_are_made_of_the_quoted_texts() {
    let pkgs = pairs(&[("a", "==1"), ("b", "==3")]);
    assert_eq!(riot::hashing::environment_hash_of("'test'", "'3.10'", &pkgs), "1f6bcbd");
    assert_ne!(riot::hashing::environment_hash_of("test", "3.10", &pkgs), "1f6bcbd");
    let command = "'pytest'".to_string();
    assert_eq!(RiotHasher::context_hash(Some(&command), &pairs(&[]), false, false), "231ec63");
    assert_eq!(RiotHasher::context_hash(None, &pairs(&[]), false, false), "c1b47d4");
    let bare = "pytest".to_string();
    assert_ne!(RiotHasher::context_hash(Some(&bare), &pairs(&[]), false, false), "231ec63");
}

#[test]
fn quotes_come_from_the_interpreter_or_fall_back() {
    if pyo3::Python::try_attach(|_| ()).is_none() {
        assert_eq!(quote_text("plain"), "\"plain\"");
        assert_eq!(quote_text("it's"), "\"it's\"");
    }
    pyo3::Python::initialize();
    assert_eq!(quote_text("plain"), "'plain'");
    assert_eq!(quote_text("it's"), "\"it's\"");
    assert_eq!(quote_text("tab\there"), "'tab\\there'");
    assert_eq!(quote_text(""), "''");
}

#[test]
fn add_quote_fills_a_table_once() {
    pyo3::Python::initialize();
    let mut quotes = IndexMap::new();
    add_quote(&mut quotes, "name");
    assert_eq!(quotes, pairs(&[("name", "'name'")]));
    add_quote(&mut quotes, "3.10");
    add_quote(&mut quotes, "name");
    assert_eq!(quotes, pairs(&[("name", "'name'"), ("3.10", "'3.10'")]));
    let mut given = pairs(&[("name", "<name>")]);
    add_quote(&mut given, "name");
    assert_eq!(given, pairs(&[("name", "<name>")]));
}

#[test]
fn quoting_follows_the_interpreter() {
    assert_eq!(environment_hash_of("say \"hi\"", "3.9", &pairs(&[])), {
        let parts = vec![
            "'say \"hi\"'".to_string(),
            "Interpreter(_hint='3.9')".to_string(),
            String::new(),
        ];
        RiotHasher::hash_parts(&parts)
    });
    assert_eq!(environment_hash_of("it's", "3.9", &pairs(&[])), {
        let parts = vec![
            "\"it's\"".to_string(),
            "Interpreter(_hint='3.9')".to_string(),
            String::new(),
        ];
        RiotHasher::hash_parts(&parts)
    });
    assert_eq!(environment_hash_of("tab\there", "3.9", &pairs(&[])), {
        let parts = vec![
            "'tab\\there'".to_string(),
            "Interpreter(_hint='3.9')".to_string(),
            String::new(),
        ];
        RiotHasher::hash_parts(&parts)
    });
}
