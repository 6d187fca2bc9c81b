use wax::order::{dedup_by_key, sort_by_key, str_precedes};
use wax::paths::{below, components_of, leads_up, name_of, path_in};
use wax::table::Table;
use wax::text::{
    chars_of, joined, last_place, lines_of, number, parsed_u64, pieces, pieces_str, replaced,
    signed_number, string_of, trimmed, words_of,
};

fn shown(v: Vec<&[char]>) -> Vec<String> {
    v.into_iter().map(string_of).collect()
}

#[test]
fn texts_are_taken_apart() {
    let c = chars_of("a,,b");
    assert_eq!(shown(pieces(&c, ',')), vec!["a", "", "b"]);
    let c = chars_of(" a\t b\u{a0}c ");
    assert_eq!(shown(words_of(&c)), vec!["a", "b", "c"]);
    let c = chars_of("x\r\n\ny");
    assert_eq!(shown(lines_of(&c)), vec!["x", "", "y"]);
    let c = chars_of("a--b--");
    assert_eq!(shown(pieces_str(&c, "--")), vec!["a", "b", ""]);
    let c = chars_of("\u{3000} x \n");
    assert_eq!(string_of(trimmed(&c)), "x");
    let c = chars_of("a-b-c");
    assert_eq!(last_place(&c, '-'), Some(3));
    assert_eq!(last_place(&c, '+'), None);
}

#[test]
fn texts_are_put_together() {
    let c = chars_of("aXbXX");
    assert_eq!(
        string_of(&replaced(&c, &chars_of("X"), &chars_of("--"))),
        "a--b----"
    );
    assert_eq!(joined(&vec!["a".to_string(), "b".to_string()], ", "), "a, b");
    assert_eq!(joined(&vec![], ", "), "");
    assert_eq!(number(0), "0");
    assert_eq!(number(u128::MAX), u128::MAX.to_string());
    assert_eq!(signed_number(i32::MIN), "-2147483648");
    assert_eq!(signed_number(17), "17");
}

#[test]
fn numbers_are_parsed() {
    assert_eq!(parsed_u64(&chars_of("42"), 100), Some(42));
    assert_eq!(parsed_u64(&chars_of("+42"), 100), Some(42));
    assert_eq!(parsed_u64(&chars_of("101"), 100), None);
    assert_eq!(parsed_u64(&chars_of(""), 100), None);
    assert_eq!(parsed_u64(&chars_of("4x"), 100), None);
    assert_eq!(
        parsed_u64(&chars_of("18446744073709551615"), u64::MAX),
        Some(u64::MAX)
    );
    assert_eq!(parsed_u64(&chars_of("18446744073709551616"), u64::MAX), None);
}

#[test]
fn paths_are_put_together() {
    assert_eq!(below("/a", "b"), "/a/b");
    assert_eq!(below("/a/", "b"), "/a/b");
    assert_eq!(below("", "b"), "b");
    assert_eq!(below("/a", "/b"), "/b");
    assert_eq!(components_of("/a//./b/"), vec!["/", "a", "b"]);
    assert_eq!(components_of("./a/."), vec![".", "a"]);
    assert_eq!(name_of("/a/b.txt"), Some("b.txt".to_string()));
    assert_eq!(name_of("/"), None);
    assert_eq!(name_of("a/.."), None);
    assert!(path_in("/a/b/c", "/a/b"));
    assert!(path_in("/a//b", "/a/b"));
    assert!(!path_in("/a/bc", "/a/b"));
    assert!(leads_up("a/../b"));
    assert!(!leads_up("a/..b"));
}

#[test]
fn sorting_is_stable_and_by_code_point() {
    assert!(str_precedes("a", "b"));
    assert!(str_precedes("a", "aa"));
    assert!(str_precedes("Z", "a"));
    assert!(!str_precedes("a", "a"));
    let item = |n: &str, v: &str| (n.to_string(), Some(v.to_string()));
    let mut v = vec![item("b", "1"), item("a", "1"), item("b", "2"), item("a", "2")];
    sort_by_key(&mut v);
    assert_eq!(
        v,
        vec![item("a", "1"), item("a", "2"), item("b", "1"), item("b", "2")]
    );
    dedup_by_key(&mut v);
    assert_eq!(v, vec![item("a", "1"), item("b", "1")]);
}

#[test]
fn tables_keep_one_value_for_a_name() {
    let mut t: Table<u32> = Table::new();
    t.insert("a".to_string(), 1);
    t.insert("b".to_string(), 2);
    t.insert("a".to_string(), 3);
    t.or_insert("b".to_string(), 9);
    assert_eq!(t.get("a"), Some(&3));
    assert_eq!(t.get("b"), Some(&2));
    assert_eq!(t.entries.len(), 2);
    assert_eq!(t.remove("a"), Some(3));
    assert_eq!(t.remove("a"), None);
    assert!(!t.contains_key("a"));
}
