use mdlchef::sorting::{comes_before, in_order, insert_in_order};

fn texts(list: &[&str]) -> Vec<String> {
    list.iter().map(|s| s.to_string()).collect()
}

#[test]
fn order_goes_by_the_first_difference() {
    assert!(comes_before("a", "b"));
    assert!(!comes_before("b", "a"));
    assert!(comes_before("abc", "abd"));
    assert!(comes_before("Zebra", "ant"));
    assert!(comes_before("Meme.A", "Meme.a"));
}

#[test]
fn beginning_of_a_text_comes_before_the_text() {
    assert!(comes_before("", "a"));
    assert!(comes_before("Meme", "Meme.A"));
    assert!(!comes_before("Meme.A", "Meme"));
    assert!(!comes_before("a", ""));
}

#[test]
fn nothing_comes_before_itself() {
    assert!(!comes_before("", ""));
    assert!(!comes_before("same", "same"));
}

#[test]
fn order_is_that_of_strings() {
    let samples = ["", "a", "A", "ab", "b", "\u{e9}", "e\u{301}", "z", "\u{4e2d}", "\u{1f600}", "~"];
    for a in samples {
        for b in samples {
            assert_eq!(comes_before(a, b), a < b);
        }
    }
}

#[test]
fn text_is_put_at_its_place() {
    let mut list = texts(&["b", "d"]);
    insert_in_order(&mut list, "c".to_string());
    assert_eq!(list, texts(&["b", "c", "d"]));
    insert_in_order(&mut list, "a".to_string());
    assert_eq!(list, texts(&["a", "b", "c", "d"]));
    insert_in_order(&mut list, "e".to_string());
    assert_eq!(list, texts(&["a", "b", "c", "d", "e"]));
}

#[test]
fn text_that_the_list_holds_is_not_put_in_again() {
    let mut list = texts(&["a", "b", "c"]);
    for held in ["a", "b", "c"] {
        insert_in_order(&mut list, held.to_string());
    }
    assert_eq!(list, texts(&["a", "b", "c"]));
    let mut empty: Vec<String> = Vec::new();
    insert_in_order(&mut empty, "x".to_string());
    insert_in_order(&mut empty, "x".to_string());
    assert_eq!(empty, texts(&["x"]));
}

#[test]
fn list_in_order_is_the_sorted_list_without_repeats() {
    let given = texts(&["pear", "apple", "fig", "apple", "Fig", "", "pear", "fig", "apples"]);
    let mut expected = given.clone();
    expected.sort();
    expected.dedup();
    assert_eq!(in_order(&given), expected);
    assert_eq!(in_order(&Vec::new()), Vec::<String>::new());
}
