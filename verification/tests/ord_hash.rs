use tools::ord_hash::{render, OrderedHashmap};

fn pairs_of<'a>(m: &'a OrderedHashmap<&'static str, i32>) -> Vec<(&'static str, i32)> {
    m.iter().map(|e| *e).collect()
}

fn rev_pairs_of<'a>(m: &'a OrderedHashmap<&'static str, i32>) -> Vec<(&'static str, i32)> {
    m.rev_iter().map(|e| *e).collect()
}

#[test]
fn new_map_is_empty() {
    let m: OrderedHashmap<&str, i32> = OrderedHashmap::new();
    assert_eq!(m.len(), 0);
    assert!(m.is_empty());
    assert!(!m.contains_key(&"a"));
    assert_eq!(m.find(&"a"), None);
    assert_eq!(m.iter().count(), 0);
    assert_eq!(m.rev_iter().count(), 0);
}

#[test]
fn insert_reports_new_keys_and_rejects_known_ones() {
    let mut m = OrderedHashmap::new();
    assert!(m.insert("a", 1));
    assert!(m.insert("b", 2));
    assert!(!m.insert("a", 9));
    assert_eq!(m.len(), 2);
    assert!(!m.is_empty());
    assert_eq!(m.find(&"a"), Some(&1));
    assert_eq!(m.find(&"b"), Some(&2));
    assert_eq!(pairs_of(&m), vec![("a", 1), ("b", 2)]);
    assert_eq!(rev_pairs_of(&m), vec![("b", 2), ("a", 1)]);
    assert_eq!(m.to_string(), "{ a: 1,  b: 2}");
}

#[test]
fn len_counts_distinct_keys() {
    let mut m = OrderedHashmap::new();
    let offered = [3u32, 1, 3, 2, 1, 3, 7, 7];
    for k in offered.iter() {
        m.insert(*k, 0u8);
    }
    assert_eq!(m.len(), 4);
    let keys: Vec<u32> = m.iter().map(|e| e.0).collect();
    assert_eq!(keys, vec![3, 1, 2, 7]);
}

#[test]
fn iteration_follows_insertion_order() {
    let mut m = OrderedHashmap::new();
    let offered = vec![("delta", 4), ("alpha", 1), ("charlie", 3), ("bravo", 2)];
    for (k, v) in offered.iter() {
        assert!(m.insert(*k, *v));
    }
    assert_eq!(pairs_of(&m), offered);
    let mut backwards = offered.clone();
    backwards.reverse();
    assert_eq!(rev_pairs_of(&m), backwards);
}

#[test]
fn iteration_can_be_restarted() {
    let mut m = OrderedHashmap::new();
    m.insert("x", 10);
    m.insert("y", 20);
    let mut first = m.iter();
    assert_eq!(first.next(), Some(&("x", 10)));
    assert_eq!(pairs_of(&m), vec![("x", 10), ("y", 20)]);
    assert_eq!(first.next(), Some(&("y", 20)));
    assert_eq!(first.next(), None);
    assert_eq!(m.len(), 2);
}

#[test]
fn rejected_duplicate_changes_nothing() {
    let mut m = OrderedHashmap::new();
    m.insert("k", 5);
    m.insert("l", 6);
    let before = pairs_of(&m);
    assert!(!m.insert("k", 50));
    assert!(!m.insert("l", 60));
    assert_eq!(m.len(), 2);
    assert_eq!(m.find(&"k"), Some(&5));
    assert_eq!(m.find(&"l"), Some(&6));
    assert_eq!(pairs_of(&m), before);
}

#[test]
fn find_returns_first_inserted_value_until_clear() {
    let mut m = OrderedHashmap::new();
    m.insert(1u64, "one");
    m.insert(2u64, "two");
    m.insert(1u64, "uno");
    assert_eq!(m.find(&1), Some(&"one"));
    assert_eq!(m.find(&2), Some(&"two"));
    assert_eq!(m.find(&3), None);
    assert!(m.contains_key(&1));
    assert!(!m.contains_key(&3));
    m.clear();
    assert_eq!(m.find(&1), None);
    assert!(!m.contains_key(&1));
    assert_eq!(m.len(), 0);
    assert!(m.is_empty());
    assert!(m.insert(1u64, "uno"));
    assert_eq!(m.find(&1), Some(&"uno"));
}

#[test]
fn find_mut_changes_the_value_in_place() {
    let mut m = OrderedHashmap::new();
    m.insert("a", 1);
    m.insert("b", 2);
    m.insert("c", 3);
    match m.find_mut(&"b") {
        Some(v) => *v = 20,
        None => panic!("b was inserted"),
    }
    assert!(m.find_mut(&"z").is_none());
    assert_eq!(m.find(&"b"), Some(&20));
    assert_eq!(m.len(), 3);
    assert_eq!(pairs_of(&m), vec![("a", 1), ("b", 20), ("c", 3)]);
    assert!(!m.insert("b", 2));
    assert_eq!(m.find(&"b"), Some(&20));
}

#[test]
fn clone_is_equal_and_independent() {
    let mut a = OrderedHashmap::new();
    a.insert("a", 1);
    a.insert("b", 2);
    let mut c = a.clone();
    assert!(c == a);
    assert!(a == c);
    assert!(c.insert("c", 3));
    assert_eq!(a.len(), 2);
    assert!(!a.contains_key(&"c"));
    assert_eq!(pairs_of(&a), vec![("a", 1), ("b", 2)]);
    assert!(a.insert("d", 4));
    assert_eq!(pairs_of(&c), vec![("a", 1), ("b", 2), ("c", 3)]);
    assert!(!c.contains_key(&"d"));
    assert!(c != a);
    assert_eq!(c.find(&"a"), Some(&1));
    assert!(!c.insert("a", 7));
}

#[test]
fn clone_after_find_mut_is_equal() {
    let mut a = OrderedHashmap::new();
    a.insert("a", 1);
    a.insert("b", 2);
    *a.find_mut(&"a").unwrap() = 11;
    let c = a.clone();
    assert!(c == a);
    assert_eq!(c.find(&"a"), Some(&11));
    assert_eq!(pairs_of(&c), vec![("a", 11), ("b", 2)]);
}

#[test]
fn equality_is_sensitive_to_order() {
    let mut a = OrderedHashmap::new();
    a.insert("a", 1);
    a.insert("b", 2);
    let mut b = OrderedHashmap::new();
    b.insert("b", 2);
    b.insert("a", 1);
    let mut c = OrderedHashmap::new();
    c.insert("a", 1);
    c.insert("b", 2);
    assert!(a != b);
    assert!(!(a == b));
    assert!(a == c);
    assert!(!(a != c));
}

#[test]
fn equality_compares_values_and_lengths() {
    let mut a = OrderedHashmap::new();
    a.insert("a", 1);
    let mut b = OrderedHashmap::new();
    b.insert("a", 2);
    assert!(a != b);
    let mut c = OrderedHashmap::new();
    c.insert("a", 1);
    c.insert("b", 2);
    assert!(a != c);
    let e1: OrderedHashmap<&str, i32> = OrderedHashmap::new();
    let e2: OrderedHashmap<&str, i32> = OrderedHashmap::new();
    assert!(e1 == e2);
    assert!(e1 != a);
}

#[test]
fn empty_map_formats_as_braces() {
    let mut m: OrderedHashmap<&str, i32> = OrderedHashmap::new();
    assert_eq!(m.to_string(), "{}");
    m.insert("a", 1);
    m.clear();
    assert_eq!(m.to_string(), "{}");
}

#[test]
fn formatting_lists_entries_in_insertion_order() {
    let mut m = OrderedHashmap::new();
    m.insert(30, 'c');
    assert_eq!(m.to_string(), "{ 30: c}");
    m.insert(10, 'a');
    m.insert(20, 'b');
    assert_eq!(m.to_string(), "{ 30: c,  10: a,  20: b}");
}

#[test]
fn render_joins_the_given_texts() {
    assert_eq!(render(&Vec::new()), "{}");
    let one = vec![("k".to_string(), "v".to_string())];
    assert_eq!(render(&one), "{ k: v}");
    let three = vec![
        ("a".to_string(), "1".to_string()),
        ("".to_string(), "".to_string()),
        ("b, c".to_string(), "{}".to_string()),
    ];
    assert_eq!(render(&three), "{ a: 1,  : ,  b, c: {}}");
}

#[test]
fn example_scenario() {
    let mut m = OrderedHashmap::new();
    assert!(m.insert("a", 1));
    assert!(m.insert("b", 2));
    let third = m.insert("a", 9);
    assert_eq!(m.len(), 2);
    assert!(!third);
    assert_eq!(m.find(&"a"), Some(&1));
    assert_eq!(pairs_of(&m), vec![("a", 1), ("b", 2)]);
    assert_eq!(rev_pairs_of(&m), vec![("b", 2), ("a", 1)]);
    let text = m.to_string();
    assert_eq!(text, "{ a: 1,  b: 2}");
    assert!(text.find("a: 1").unwrap() < text.find("b: 2").unwrap());
}

#[test]
fn many_keys_keep_their_order() {
    let mut m = OrderedHashmap::new();
    for i in 0..1000u32 {
        assert!(m.insert(999 - i, i));
    }
    for i in 0..1000u32 {
        assert!(!m.insert(i, 0));
    }
    assert_eq!(m.len(), 1000);
    let keys: Vec<u32> = m.iter().map(|e| e.0).collect();
    let expected: Vec<u32> = (0..1000u32).rev().collect();
    assert_eq!(keys, expected);
    for i in 0..1000u32 {
        assert_eq!(m.find(&(999 - i)), Some(&i));
    }
}
