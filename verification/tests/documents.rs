use ecsctl::number::{parse_i64, parse_unsigned, push_hex, to_decimal, to_decimal_int};
use ecsctl::order::before;
use ecsctl::strmap::StrMap;
use ecsctl::text::{
    ascii_lowercase, contains, ends_with, join_all, last_piece, push_padded, split, split_once,
    split_whitespace, splitn, starts_with, trim, white_space,
};
use ecsctl::yaml::{
    apply_overrides, can_override, can_set_field, load_yaml, set_yaml_field, Yaml, YamlProblem,
};

fn at<'a>(y: &'a Yaml, path: &[&str]) -> Option<&'a Yaml> {
    let mut y = y;
    for name in path {
        let Yaml::Mapping(entries) = y else { return None };
        y = &entries.iter().find(|e| matches!(&e.key, Yaml::Str(k) if k == name))?.value;
    }
    Some(y)
}

fn set(y: &mut Yaml, path: &str, value: &str) {
    assert!(can_set_field(y, path));
    set_yaml_field(y, path, value);
}

#[test]
fn documents_are_read() {
    let y = load_yaml("a: 1\nb: [x, true, ~, 1.5]\nc: !t {d: e}\n").unwrap();
    assert!(matches!(at(&y, &["a"]), Some(Yaml::Number(n)) if n == "1"));
    match at(&y, &["b"]) {
        Some(Yaml::Sequence(s)) => {
            assert!(matches!(&s[0], Yaml::Str(x) if x == "x"));
            assert!(matches!(&s[1], Yaml::Bool(true)));
            assert!(matches!(&s[2], Yaml::Null));
            assert!(matches!(&s[3], Yaml::Number(n) if n == "1.5"));
        }
        other => panic!("{other:?}"),
    }
    match at(&y, &["c"]) {
        Some(Yaml::Tagged(tag, inner)) => {
            assert_eq!(tag, "!t");
            assert!(at(inner, &["d"]).is_some());
        }
        other => panic!("{other:?}"),
    }
    let e = load_yaml("a: [").unwrap_err();
    assert_eq!(e.kind, YamlProblem::Syntax);
    assert_eq!(e.to_string(), "failed to parse YAML");
}

#[test]
fn the_type_of_a_value_is_kept() {
    let mut y = load_yaml("n: 1\nb: true\ns: '2'\nl: [1]\n").unwrap();
    set(&mut y, "n", "42");
    assert!(matches!(at(&y, &["n"]), Some(Yaml::Number(n)) if n == "42"));
    set(&mut y, "n", "many");
    assert!(matches!(at(&y, &["n"]), Some(Yaml::Str(s)) if s == "many"));
    set(&mut y, "b", "no");
    assert!(matches!(at(&y, &["b"]), Some(Yaml::Bool(false))));
    set(&mut y, "s", "512");
    assert!(matches!(at(&y, &["s"]), Some(Yaml::Str(s)) if s == "512"));
    set(&mut y, "l", "7");
    assert!(matches!(at(&y, &["l"]), Some(Yaml::Str(s)) if s == "7"));
}

#[test]
fn values_come_into_being() {
    let mut y = load_yaml("a: {b: 1}\n").unwrap();
    set(&mut y, "x.y.z", "true");
    assert!(matches!(at(&y, &["x", "y", "z"]), Some(Yaml::Bool(true))));
    set(&mut y, "x.y.w", "+7");
    assert!(matches!(at(&y, &["x", "y", "w"]), Some(Yaml::Str(s)) if s == "+7"));
    assert!(matches!(at(&y, &["a", "b"]), Some(Yaml::Number(_))));
    assert!(!can_set_field(&y, "a.b.c"));
    let mut n = Yaml::Null;
    set(&mut n, "k", "v");
    assert!(matches!(at(&n, &["k"]), Some(Yaml::Str(s)) if s == "v"));
}

#[test]
fn settings_are_made_in_order() {
    let y = load_yaml("a: 1\n").unwrap();
    let settings = vec!["a=2".to_string(), "b=x=y".to_string(), "a=3".to_string()];
    assert!(can_override(&y, &settings));
    let y = apply_overrides(y, &settings).unwrap();
    assert!(matches!(at(&y, &["a"]), Some(Yaml::Number(n)) if n == "3"));
    assert!(matches!(at(&y, &["b"]), Some(Yaml::Str(s)) if s == "x=y"));
    let bad = vec!["nothing".to_string()];
    assert!(can_override(&y, &bad));
    let e = apply_overrides(y, &bad).unwrap_err();
    assert_eq!(e.kind, YamlProblem::Setting);
    assert_eq!(e.to_string(), "invalid --set format 'nothing': expected KEY=VALUE");
}

#[test]
fn numbers_are_read_as_std_reads_them() {
    for s in [
        "", "0", "7", "+7", "-7", "007", "18446744073709551615", "18446744073709551616", "+", "-",
        "1 ", " 1", "1a", "９", "99999999999999999999999999999999999999999999",
    ] {
        assert_eq!(parse_unsigned(s, u64::MAX), s.parse::<u64>().ok(), "{s}");
    }
    for s in ["255", "256", "+255", "0000255"] {
        assert_eq!(parse_unsigned(s, 255), s.parse::<u8>().ok().map(u64::from), "{s}");
    }
    for s in [
        "", "-", "+", "-0", "+5", "-5", "9223372036854775807", "9223372036854775808",
        "-9223372036854775808", "-9223372036854775809", "--1", "1_0",
    ] {
        assert_eq!(parse_i64(s), s.parse::<i64>().ok(), "{s}");
    }
}

#[test]
fn numbers_are_written_as_std_writes_them() {
    for n in [0, 9, 10, 12345, u128::MAX] {
        assert_eq!(to_decimal(n), n.to_string());
    }
    for i in [0, -1, 1, i64::MIN as i128, i64::MAX as i128] {
        assert_eq!(to_decimal_int(i), i.to_string());
    }
    for n in [0, 1, 0xabcdef] {
        let mut s = String::new();
        push_hex(&mut s, n, 6);
        assert_eq!(s, format!("{n:06x}"));
    }
}

#[test]
fn texts_are_cut_as_std_cuts_them() {
    for s in ["", "/", "a", "a/b", "a/b/c/d/e", "//", "é/ü"] {
        assert_eq!(splitn(s, 3, '/'), s.splitn(3, '/').collect::<Vec<_>>(), "{s}");
        assert_eq!(split(s, '/'), s.split('/').collect::<Vec<_>>(), "{s}");
        assert_eq!(split_once(s, '/'), s.split_once('/'), "{s}");
        assert_eq!(last_piece(s, '/'), s.rsplit('/').next().unwrap(), "{s}");
    }
    for s in ["", " ", "\t a  b\u{a0}c\u{3000} ", "a", "\u{2003}x\u{85}"] {
        assert_eq!(trim(s), s.trim(), "{s:?}");
        assert_eq!(split_whitespace(s), s.split_whitespace().collect::<Vec<_>>(), "{s:?}");
    }
    for s in ["", "abc", "aé", "bcabc"] {
        for p in ["", "a", "abc", "é", "bc"] {
            assert_eq!(starts_with(s, p), s.starts_with(p));
            assert_eq!(ends_with(s, p), s.ends_with(p));
            assert_eq!(contains(s, p), s.contains(p));
        }
    }
    assert_eq!(join_all(&vec!["a".to_string(), "b".to_string()], ", "), "a, b");
    assert_eq!(join_all(&Vec::new(), ", "), "");
    assert_eq!(ascii_lowercase("ÀBC xyZ"), "ÀBC xyZ".to_ascii_lowercase());
    let mut out = String::new();
    push_padded(&mut out, "é", 3);
    push_padded(&mut out, "long", 2);
    assert_eq!(out, format!("{:<3}{:<2}", "é", "long"));
}

#[test]
fn white_space_is_what_std_says() {
    for n in 0..=0x10ffff {
        if let Some(c) = char::from_u32(n) {
            assert_eq!(white_space(c), c.is_whitespace(), "{n:x}");
        }
    }
}

#[test]
fn strings_are_ordered_as_std_orders_them() {
    let all = ["", "a", "A", "ab", "b", "é", "\u{ffff}", "\u{10000}", "a\u{0}"];
    for a in all {
        for b in all {
            assert_eq!(before(a, b), a < b, "{a:?} {b:?}");
        }
    }
}

#[test]
fn a_map_keeps_its_keys_in_order() {
    let mut m = StrMap::new();
    for (k, v) in [("b", 1), ("a", 2), ("c", 3), ("a", 4)] {
        m.insert(k.to_string(), v);
    }
    assert_eq!(m.len(), 3);
    assert_eq!((m.key_at(0), m.key_at(1), m.key_at(2)), ("a", "b", "c"));
    assert_eq!(*m.value_at(0), 4);
    assert_eq!(m.get("b"), Some(&1));
    assert!(m.contains_key("c") && !m.contains_key("d"));
    assert_eq!(m.remove("b"), Some(1));
    assert_eq!(m.remove("b"), None);
    assert_eq!(m.len(), 2);
}
