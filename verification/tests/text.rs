use sspm::model::File;
use sspm::secrets::{can_check_master_password, salt_hashable_text};
use sspm::text::{chars_of, parse_usize, text_contains, text_le};
use sspm::vault::{add_to_vault, sort_by_service_name};
use sspm::model::IndividualService;

#[test]
fn chars_of_reads_unicode() {
    assert_eq!(chars_of("aé€😀"), vec!['a', 'é', '€', '😀']);
    assert!(chars_of("").is_empty());
}

#[test]
fn containment() {
    let s = |x: &str| x.to_string();
    assert!(text_contains(&s("github"), &s("hub")));
    assert!(text_contains(&s("github"), &s("")));
    assert!(text_contains(&s(""), &s("")));
    assert!(!text_contains(&s(""), &s("a")));
    assert!(text_contains(&s("aaab"), &s("aab")));
    assert!(!text_contains(&s("github"), &s("gitlab")));
    assert!(text_contains(&s("naïve"), &s("ïv")));
}

#[test]
fn ordering_matches_string_order() {
    let words = ["", "a", "ab", "b", "B", "é", "z", "aa", "Zz"];
    for x in words {
        for y in words {
            assert_eq!(text_le(&x.to_string(), &y.to_string()), x <= y, "{x} {y}");
        }
    }
}

#[test]
fn parsing_numbers() {
    assert_eq!(parse_usize("42"), Some(42));
    assert_eq!(parse_usize("+42"), Some(42));
    assert_eq!(parse_usize("0"), Some(0));
    assert_eq!(parse_usize(""), None);
    assert_eq!(parse_usize("+"), None);
    assert_eq!(parse_usize("++1"), None);
    assert_eq!(parse_usize("4 2"), None);
    assert_eq!(parse_usize("٣"), None);
    for s in ["0", "17", "+8", "-1", "x", "18446744073709551615", "18446744073709551616", "00000000000000000000001"] {
        assert_eq!(parse_usize(s), s.parse::<usize>().ok(), "{s}");
    }
}

#[test]
fn salt_usability() {
    assert!(salt_hashable_text(&"c29tZXNhbHRzb21lc2FsdA".to_string()));
    assert!(!salt_hashable_text(&"abcd".to_string()));
    assert!(!salt_hashable_text(&"a.b-c.d-e.f".to_string()));
    assert!(!salt_hashable_text(&"c29tZXNhbHRzb21lc2FsdA==".to_string()));
    assert!(!salt_hashable_text(&"abc".to_string()));
}

#[test]
fn master_password_check_preconditions() {
    let f = |salt: &str| File {
        master_password: String::new(),
        user: String::new(),
        salt: salt.to_string(),
        vault: Vec::new(),
    };
    assert!(can_check_master_password(&"pw".to_string(), &f("c29tZXNhbHRzb21lc2FsdA")));
    assert!(can_check_master_password(&"pw".to_string(), &f("not a salt!")));
    assert!(!can_check_master_password(&"pw".to_string(), &f("abcd")));
}

#[test]
fn sorting_a_sorted_vault_changes_nothing() {
    let e = |n: &str, u: &str| IndividualService {
        service_nonce: String::new(),
        service_name: n.to_string(),
        service_username: u.to_string(),
        service_cipher: String::new(),
    };
    let v = vec![e("a", "2"), e("a", "1"), e("b", "0")];
    let sorted = sort_by_service_name(v.clone());
    assert_eq!(sorted, v);
    assert_eq!(sort_by_service_name(sorted.clone()), sorted);
    let r = add_to_vault(sorted, e("a", "3"));
    assert_eq!(r, vec![e("a", "2"), e("a", "1"), e("a", "3"), e("b", "0")]);
}
