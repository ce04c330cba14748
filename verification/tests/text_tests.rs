use mtc_auth::edges::{has_id, EdgeSet};
use mtc_auth::text::{copy_names, has_text, insert_ascending, join, rank, same_text, Rank};

#[test]
fn rank_orders_texts_by_their_first_difference() {
    assert_eq!(rank("abc", "abd"), Rank::Before);
    assert_eq!(rank("abd", "abc"), Rank::After);
    assert_eq!(rank("abc", "abc"), Rank::Same);
    assert_eq!(rank("ab", "abc"), Rank::Before);
    assert_eq!(rank("abc", "ab"), Rank::After);
    assert_eq!(rank("", ""), Rank::Same);
    assert_eq!(rank("", "a"), Rank::Before);
    assert_eq!(rank("Z", "a"), Rank::Before);
    assert_eq!(rank("é", "z"), Rank::After);
}

#[test]
fn rank_agrees_with_the_order_of_strings() {
    let words = ["", "a", "ab", "b", "content::read", "content::write", "é", "日本", "z"];
    for a in words {
        for b in words {
            let expected = if a < b {
                Rank::Before
            } else if a == b {
                Rank::Same
            } else {
                Rank::After
            };
            assert_eq!(rank(a, b), expected);
        }
    }
}

#[test]
fn same_text_compares_exactly() {
    assert!(same_text("role::write", "role::write"));
    assert!(!same_text("role::write", "role::Write"));
    assert!(!same_text("role::write", "role::writ"));
    assert!(same_text("", ""));
}

#[test]
fn join_puts_one_text_after_the_other() {
    assert_eq!(join("content", "::write"), "content::write");
    assert_eq!(join("", ""), "");
}

#[test]
fn insert_ascending_keeps_order_and_adds_nothing_twice() {
    let mut v: Vec<String> = Vec::new();
    for s in ["m", "b", "z", "b", "a", "m", "n"] {
        insert_ascending(&mut v, s.to_string());
    }
    assert_eq!(v, vec!["a", "b", "m", "n", "z"]);
    assert!(has_text(&v, "n"));
    assert!(!has_text(&v, "c"));
    assert_eq!(copy_names(&v), v);
}

#[test]
fn edge_set_is_a_set() {
    let mut e = EdgeSet::new();
    assert!(!e.contains(1, 2));
    e.insert(1, 2);
    e.insert(1, 2);
    e.insert(1, 3);
    e.insert(2, 3);
    assert!(e.contains(1, 2));
    assert!(!e.contains(2, 1));
    assert_eq!(e.targets(1), vec![2, 3]);
    e.remove(1, 2);
    assert!(!e.contains(1, 2));
    e.remove(1, 2);
    assert_eq!(e.targets(1), vec![3]);
    e.remove_matching(None, Some(3));
    assert_eq!(e.targets(1), Vec::<u64>::new());
    assert_eq!(e.targets(2), Vec::<u64>::new());
    e.insert(4, 5);
    e.insert(4, 6);
    e.insert(7, 5);
    e.remove_matching(Some(4), None);
    assert!(e.contains(7, 5));
    assert!(!e.contains(4, 5));
    e.remove_matching(None, None);
    assert!(!e.contains(7, 5));
    assert!(has_id(&vec![1, 2, 3], 2));
    assert!(!has_id(&vec![1, 2, 3], 4));
}
