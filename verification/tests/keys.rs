use metriki_core::key::{sort_tags, Key, Tag};
use metriki_core::order::{compare_bytes, compare_text, Rank};

#[test]
fn compare_bytes_is_lexicographic() {
    assert_eq!(compare_bytes(b"", b""), Rank::Same);
    assert_eq!(compare_bytes(b"", b"a"), Rank::Before);
    assert_eq!(compare_bytes(b"a", b""), Rank::After);
    assert_eq!(compare_bytes(b"abc", b"abd"), Rank::Before);
    assert_eq!(compare_bytes(b"abd", b"abc"), Rank::After);
    assert_eq!(compare_bytes(b"ab", b"abc"), Rank::Before);
    assert_eq!(compare_bytes(b"b", b"abc"), Rank::After);
    assert_eq!(compare_bytes(&[0xff], &[0x00, 0x01]), Rank::After);
}

#[test]
fn compare_text_agrees_with_str_order() {
    let words = ["", "a", "ab", "b", "host", "hosts", "région", "zone", "é", "日本"];
    for a in words.iter() {
        for b in words.iter() {
            let expected = match a.cmp(b) {
                std::cmp::Ordering::Less => Rank::Before,
                std::cmp::Ordering::Equal => Rank::Same,
                std::cmp::Ordering::Greater => Rank::After,
            };
            assert_eq!(compare_text(a, b), expected);
        }
    }
}

#[test]
fn tag_holds_key_and_value() {
    let t = Tag::new("host", "a1");
    assert_eq!(t.key(), "host");
    assert_eq!(t.value(), "a1");
    assert!(t == t.clone());
    assert!(t != Tag::new("host", "a2"));
    assert!(t != Tag::new("hosts", "a1"));
}

#[test]
fn tag_rank_goes_by_key_then_value() {
    let t = Tag::new("host", "b");
    assert_eq!(t.rank(&Tag::new("host", "b")), Rank::Same);
    assert_eq!(t.rank(&Tag::new("host", "c")), Rank::Before);
    assert_eq!(t.rank(&Tag::new("host", "a")), Rank::After);
    assert_eq!(t.rank(&Tag::new("zone", "a")), Rank::Before);
    assert_eq!(t.rank(&Tag::new("app", "z")), Rank::After);
}

#[test]
fn key_from_name_has_no_tags() {
    let k = Key::from_name("requests");
    assert_eq!(k.key(), "requests");
    assert!(k.tags().is_empty());
    assert!(k.is_plain("requests"));
    assert!(!k.is_plain("request"));
    assert!(k == Key::from("requests", vec![]));
}

#[test]
fn key_keeps_tags_in_canonical_order() {
    let k = Key::from(
        "requests",
        vec![Tag::new("zone", "eu"), Tag::new("host", "b"), Tag::new("host", "a")],
    );
    assert_eq!(k.key(), "requests");
    let tags: Vec<(&str, &str)> = k.tags().iter().map(|t| (t.key(), t.value())).collect();
    assert_eq!(tags, vec![("host", "a"), ("host", "b"), ("zone", "eu")]);
    assert!(!k.is_plain("requests"));
}

#[test]
fn key_equality_ignores_tag_order() {
    let a = Key::from("requests", vec![Tag::new("zone", "eu"), Tag::new("host", "a")]);
    let b = Key::from("requests", vec![Tag::new("host", "a"), Tag::new("zone", "eu")]);
    assert!(a == b);
    assert!(a == a.clone());
    assert!(a != Key::from("requests", vec![Tag::new("host", "a")]));
    assert!(a != Key::from("requests2", vec![Tag::new("zone", "eu"), Tag::new("host", "a")]));
    assert!(a != Key::from_name("requests"));
    let mut set = std::collections::HashSet::new();
    set.insert(a);
    assert!(set.contains(&b));
}

#[test]
fn key_keeps_a_tag_given_twice() {
    let twice = Key::from("r", vec![Tag::new("a", "1"), Tag::new("a", "1")]);
    let once = Key::from("r", vec![Tag::new("a", "1")]);
    assert_eq!(twice.tags().len(), 2);
    assert!(twice != once);
}

#[test]
fn sort_tags_orders_and_keeps_all() {
    let sorted = sort_tags(vec![
        Tag::new("b", "2"),
        Tag::new("a", "9"),
        Tag::new("b", "1"),
        Tag::new("a", "9"),
    ]);
    let tags: Vec<(&str, &str)> = sorted.iter().map(|t| (t.key(), t.value())).collect();
    assert_eq!(tags, vec![("a", "9"), ("a", "9"), ("b", "1"), ("b", "2")]);
    assert!(sort_tags(vec![]).is_empty());
}

#[test]
fn key_rank_agrees_with_its_order() {
    let keys = vec![
        Key::from_name(""),
        Key::from_name("a"),
        Key::from("a", vec![Tag::new("h", "1")]),
        Key::from("a", vec![Tag::new("h", "1"), Tag::new("z", "0")]),
        Key::from("a", vec![Tag::new("z", "0"), Tag::new("h", "1")]),
        Key::from("a", vec![Tag::new("h", "2")]),
        Key::from("a", vec![Tag::new("i", "0")]),
        Key::from_name("ab"),
        Key::from("b", vec![Tag::new("a", "a")]),
        Key::from_name("b"),
    ];
    for a in keys.iter() {
        for b in keys.iter() {
            let expected = match a.cmp(b) {
                std::cmp::Ordering::Less => Rank::Before,
                std::cmp::Ordering::Equal => Rank::Same,
                std::cmp::Ordering::Greater => Rank::After,
            };
            assert_eq!(a.rank(b), expected);
            assert_eq!(a == b, a.rank(b) == Rank::Same);
            assert_eq!(a < b, a.rank(b) == Rank::Before);
        }
    }
    assert_eq!(keys[3].rank(&keys[4]), Rank::Same);
    assert_eq!(keys[1].rank(&keys[2]), Rank::Before);
    assert_eq!(keys[5].rank(&keys[3]), Rank::After);
}

#[test]
fn tag_rank_agrees_with_its_order() {
    let tags = vec![
        Tag::new("", ""),
        Tag::new("", "a"),
        Tag::new("a", ""),
        Tag::new("a", "b"),
        Tag::new("ab", ""),
        Tag::new("b", "a"),
    ];
    for a in tags.iter() {
        for b in tags.iter() {
            let expected = match a.cmp(b) {
                std::cmp::Ordering::Less => Rank::Before,
                std::cmp::Ordering::Equal => Rank::Same,
                std::cmp::Ordering::Greater => Rank::After,
            };
            assert_eq!(a.rank(b), expected);
        }
    }
}
