use chatwheel::line::{Line, Lines};
use chatwheel::text::{decimal_string, push_path, str_equal, str_less, str_starts_with};

fn line(id: Option<&str>, text: &str, audios: &[&str]) -> Line {
    Line {
        id: id.map(|s| s.to_string()),
        text: text.to_string(),
        audios: audios.iter().map(|s| s.to_string()).collect(),
    }
}

#[test]
fn push_path_adds_separator() {
    assert_eq!(push_path("/home/u/.config", "chatwheel-rs"), "/home/u/.config/chatwheel-rs");
}

#[test]
fn push_path_keeps_trailing_separator() {
    assert_eq!(push_path("/home/u/", "x.json"), "/home/u/x.json");
}

#[test]
fn push_path_on_empty_base() {
    assert_eq!(push_path("", "audio"), "audio");
}

#[test]
fn push_path_absolute_component_replaces() {
    assert_eq!(push_path("/home/u", "/etc/x"), "/etc/x");
}

#[test]
fn push_path_matches_pathbuf() {
    for (base, comp) in [("/a/b", "c"), ("/a/b/", "c"), ("", "c"), ("a", "/c"), ("a", "")] {
        let mut p = std::path::PathBuf::from(base);
        p.push(comp);
        assert_eq!(push_path(base, comp), p.to_str().unwrap());
    }
}

#[test]
fn string_order_matches_std() {
    let words = ["", "a", "ab", "b", "B", "é", "z", "aa", "zz", "\u{3000}"];
    for a in words.iter() {
        for b in words.iter() {
            assert_eq!(str_less(a, b), a < b, "{:?} < {:?}", a, b);
            assert_eq!(str_equal(a, b), a == b);
        }
    }
}

#[test]
fn starts_with_matches_std() {
    assert!(str_starts_with("line_12.mp3", "line_12"));
    assert!(!str_starts_with("line", "line_12"));
    assert!(str_starts_with("abc", ""));
}

#[test]
fn decimal_strings() {
    assert_eq!(decimal_string(0), "0");
    assert_eq!(decimal_string(7), "7");
    assert_eq!(decimal_string(8053), "8053");
    assert_eq!(decimal_string(4294967295), "4294967295");
}

#[test]
fn lines_insert_and_get() {
    let mut all = Lines::new();
    assert_eq!(all.len(), 0);
    all.insert("b".to_string(), line(None, "bee", &[]));
    all.insert("a".to_string(), line(None, "ay", &["u1"]));
    all.insert("c".to_string(), line(None, "sea", &[]));
    assert_eq!(all.len(), 3);
    assert_eq!(all.get("a").unwrap().text, "ay");
    assert_eq!(all.get("b").unwrap().text, "bee");
    assert!(all.get("d").is_none());
}

#[test]
fn lines_insert_replaces_same_key() {
    let mut all = Lines::new();
    all.insert("k".to_string(), line(None, "old", &[]));
    all.insert("k".to_string(), line(None, "new", &[]));
    assert_eq!(all.len(), 1);
    assert_eq!(all.get("k").unwrap().text, "new");
}

#[test]
fn lines_entries_in_increasing_order() {
    let mut all = Lines::new();
    for k in ["m", "b", "z", "a", "q"] {
        all.insert(k.to_string(), line(None, k, &[]));
    }
    let keys: Vec<String> = (0..all.len()).map(|i| all.entry(i).0.clone()).collect();
    assert_eq!(keys, vec!["a", "b", "m", "q", "z"]);
}

#[test]
fn line_clone_keeps_fields() {
    let l = line(Some("x"), "text", &["u1", "u2"]);
    let c = l.clone();
    assert_eq!(c.id, l.id);
    assert_eq!(c.text, l.text);
    assert_eq!(c.audios, l.audios);
}
