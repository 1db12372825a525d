use proc_workshop::sorted::{
    check_match, find_out_of_order, out_of_order_message, sorted_impl, MatchOutcome, OutOfOrder,
    SortedError, SortedItem,
};
use proc_workshop::text::{name_eq, name_lt, valid_ident};

fn names(v: &[&str]) -> Vec<String> {
    v.iter().map(|s| s.to_string()).collect()
}

#[test]
fn sorted_names_pass() {
    assert_eq!(find_out_of_order(&names(&["Fmt", "Io", "Utf8"])), Ok(()));
    assert_eq!(find_out_of_order(&names(&[])), Ok(()));
    assert_eq!(find_out_of_order(&names(&["A", "A"])), Ok(()));
}

#[test]
fn first_out_of_order_name() {
    let v = names(&["Fmt", "Io", "Utf8", "Dyn", "Acc"]);
    let e = find_out_of_order(&v).unwrap_err();
    assert_eq!(e, OutOfOrder { index: 3, before: 0 });
    assert_eq!(out_of_order_message(&v, e), "Dyn should sort before Fmt");
    let w = names(&["Fmt", "Io", "Utf8", "Kv"]);
    let e = find_out_of_order(&w).unwrap_err();
    assert_eq!(e, OutOfOrder { index: 3, before: 2 });
    assert_eq!(out_of_order_message(&w, e), "Kv should sort before Utf8");
}

#[test]
fn uppercase_sorts_before_lowercase() {
    let v = names(&["a", "B"]);
    assert_eq!(find_out_of_order(&v), Err(OutOfOrder { index: 1, before: 0 }));
    assert!(name_lt("B", "a"));
    assert!(name_lt("ab", "abc"));
    assert!(!name_lt("abc", "ab"));
    assert!(!name_lt("x", "x"));
    assert!(name_eq("x", "x"));
    assert!(!name_eq("x", "y"));
}

#[test]
fn sorted_on_items() {
    assert_eq!(sorted_impl(&SortedItem::Other), Err(SortedError::NotAnEnum));
    assert_eq!(sorted_impl(&SortedItem::Enum(names(&["A", "B"]))), Ok(()));
    assert_eq!(
        sorted_impl(&SortedItem::Enum(names(&["B", "A"]))),
        Err(SortedError::OutOfOrder(OutOfOrder { index: 1, before: 0 }))
    );
}

#[test]
fn match_check_keeps_other_attributes() {
    match check_match(&vec![false, true, false], &names(&["A", "B"])) {
        MatchOutcome::Keep(k) => assert_eq!(k, vec![0, 2]),
        MatchOutcome::Fail(_) => panic!("sorted arms were refused"),
    }
    match check_match(&vec![false], &names(&["B", "A"])) {
        MatchOutcome::Keep(k) => assert_eq!(k, vec![0]),
        MatchOutcome::Fail(_) => panic!("no sorted attribute, yet refused"),
    }
    match check_match(&vec![true], &names(&["B", "A"])) {
        MatchOutcome::Keep(_) => panic!("unsorted arms were accepted"),
        MatchOutcome::Fail(e) => assert_eq!(e, OutOfOrder { index: 1, before: 0 }),
    }
}

#[test]
fn identifier_texts() {
    assert!(valid_ident("abc"));
    assert!(valid_ident("_x1"));
    assert!(valid_ident("é"));
    assert!(!valid_ident(""));
    assert!(!valid_ident("1a"));
    assert!(!valid_ident("a-b"));
}
