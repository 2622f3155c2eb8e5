use tes3edit::{contains_chars, filter_ids, matches_search};

fn s(x: &str) -> String {
    x.to_string()
}

#[test]
fn substring_search_finds_needles() {
    assert!(contains_chars("hello world", "lo wo"));
    assert!(contains_chars("hello", "hello"));
    assert!(contains_chars("hello", ""));
    assert!(contains_chars("", ""));
    assert!(!contains_chars("hello", "world"));
    assert!(!contains_chars("he", "hello"));
}

#[test]
fn search_ignores_letter_case() {
    // fails unless both sides really are folded to lower case
    assert!(matches_search("MISC,Potion_Cure", "potion"));
    assert!(matches_search("misc,potion_cure", "POTION"));
    assert!(!matches_search("MISC,Potion_Cure", "sword"));
}

#[test]
fn filter_keeps_matching_ids_in_order() {
    let ids = vec![s("WEAP,Sword"), s("ARMO,shield"), s("WEAP,BOW"), s("MISC,cup")];
    let hits = filter_ids(&ids, "s");
    assert_eq!(hits, vec![s("WEAP,Sword"), s("ARMO,shield"), s("MISC,cup")]);
    let all = filter_ids(&ids, "");
    assert_eq!(all.len(), 4);
    let none = filter_ids(&ids, "zzz");
    assert!(none.is_empty());
}
