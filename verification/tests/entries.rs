use sspm::codec::encode_base64;
use sspm::model::{CSVfile, IndividualService, Service, VaultError};
use sspm::secrets::{decrypt, encrypt};
use sspm::ui::{
    entry_for_choice, gen_plain_password, password_from_indices, obscure_cipher, parse_entry_choice, purge_confirmed,
    reveal_passwords, service_rows, validate_master_password, ChoiceProblem, PasswordProblem,
};
use sspm::vault::{
    add_source, add_to_vault, append_entries, encrypt_csv_entries, get_plan,
    get_service_vec_service, get_service_vec_user, key_text_usable, requires_open_vault,
    storable_text, search_entries,
    select_for_removal, sort_by_service_name, try_decrypt_entries, AddSource, GetPlan,
};

fn entry(name: &str, user: &str, cipher: &str) -> IndividualService {
    IndividualService {
        service_nonce: format!("n-{name}-{user}"),
        service_name: name.to_string(),
        service_username: user.to_string(),
        service_cipher: cipher.to_string(),
    }
}

fn names(v: &[IndividualService]) -> Vec<String> {
    v.iter().map(|e| format!("{}/{}", e.service_name, e.service_username)).collect()
}

fn sample() -> Vec<IndividualService> {
    vec![
        entry("github", "alice", "c1"),
        entry("gitlab", "bob", "c2"),
        entry("mail", "alice", "c3"),
        entry("github", "carol", "c4"),
    ]
}

#[test]
fn filter_by_service_keeps_order() {
    let r = get_service_vec_service(&Some("git".to_string()), sample());
    assert_eq!(names(&r), ["github/alice", "gitlab/bob", "github/carol"]);
}

#[test]
fn filter_by_user() {
    let r = get_service_vec_user(&Some("alice".to_string()), sample());
    assert_eq!(names(&r), ["github/alice", "mail/alice"]);
}

#[test]
fn absent_search_keeps_everything() {
    assert_eq!(names(&get_service_vec_service(&None, sample())), names(&sample()));
    assert_eq!(names(&get_service_vec_user(&None, sample())), names(&sample()));
}

#[test]
fn empty_search_matches_everything() {
    assert_eq!(names(&get_service_vec_service(&Some(String::new()), sample())), names(&sample()));
}

#[test]
fn search_is_case_sensitive_substring() {
    assert!(get_service_vec_service(&Some("Git".to_string()), sample()).is_empty());
    assert_eq!(names(&get_service_vec_service(&Some("ai".to_string()), sample())), ["mail/alice"]);
    assert!(get_service_vec_service(&Some("githubx".to_string()), sample()).is_empty());
}

#[test]
fn filters_commute_and_are_idempotent() {
    let s = Some("git".to_string());
    let u = Some("a".to_string());
    let a = get_service_vec_user(&u, get_service_vec_service(&s, sample()));
    let b = get_service_vec_service(&s, get_service_vec_user(&u, sample()));
    assert_eq!(names(&a), names(&b));
    assert_eq!(names(&a), ["github/alice", "github/carol"]);
    let c = get_service_vec_service(&s, get_service_vec_service(&s, sample()));
    assert_eq!(names(&c), names(&get_service_vec_service(&s, sample())));
    assert_eq!(names(&search_entries(sample(), &s, &u)), names(&a));
}

#[test]
fn sorting_is_stable_by_service_name() {
    let v = vec![
        entry("mail", "1", "x"),
        entry("bank", "2", "x"),
        entry("mail", "3", "x"),
        entry("Zoo", "4", "x"),
        entry("bank", "5", "x"),
        entry("", "6", "x"),
        entry("ba", "7", "x"),
    ];
    let r = sort_by_service_name(v);
    assert_eq!(names(&r), ["/6", "Zoo/4", "ba/7", "bank/2", "bank/5", "mail/1", "mail/3"]);
}

#[test]
fn sorting_orders_by_code_point() {
    let v = vec![entry("é", "1", "x"), entry("z", "2", "x"), entry("a", "3", "x")];
    assert_eq!(names(&sort_by_service_name(v)), ["a/3", "z/2", "é/1"]);
}

#[test]
fn add_to_vault_inserts_in_order() {
    let v = sort_by_service_name(sample());
    let r = add_to_vault(v, entry("gitea", "dan", "c5"));
    assert_eq!(
        names(&r),
        ["gitea/dan", "github/alice", "github/carol", "gitlab/bob", "mail/alice"]
    );
    let r = add_to_vault(r, entry("github", "eve", "c6"));
    assert_eq!(names(&r)[1..4], ["github/alice", "github/carol", "github/eve"]);
}

#[test]
fn append_entries_sorts_everything() {
    let r = append_entries(vec![entry("b", "1", "x"), entry("a", "2", "x")], vec![entry("a", "3", "x")]);
    assert_eq!(names(&r), ["a/2", "a/3", "b/1"]);
}

#[test]
fn removal_keeps_entries_that_do_not_match() {
    let whole = sample();
    let (matched, kept) =
        select_for_removal(&whole, &Some("github".to_string()), &Some("alice".to_string()));
    assert_eq!(names(&matched), ["github/alice"]);
    assert_eq!(names(&kept), ["gitlab/bob", "mail/alice", "github/carol"]);
    let (matched, kept) = select_for_removal(&whole, &Some("nothing".to_string()), &None);
    assert!(matched.is_empty());
    assert_eq!(names(&kept), names(&whole));
}

#[test]
fn removal_takes_out_duplicates_too() {
    let mut whole = sample();
    whole.push(entry("github", "alice", "c1"));
    let (matched, kept) = select_for_removal(&whole, &None, &Some("ali".to_string()));
    assert_eq!(names(&matched), ["github/alice", "mail/alice", "github/alice"]);
    assert_eq!(names(&kept), ["gitlab/bob", "github/carol"]);
}

#[test]
fn obscure_cipher_masks_only_passwords() {
    let r = obscure_cipher(&sample());
    assert_eq!(names(&r), names(&sample()));
    for (a, b) in r.iter().zip(sample().iter()) {
        assert_eq!(a.service_cipher, "**********");
        assert_eq!(a.service_nonce, b.service_nonce);
    }
    let twice = obscure_cipher(&r);
    assert_eq!(twice, r);
    assert!(obscure_cipher(&[]).is_empty());
}

#[test]
fn rows_are_numbered_from_one() {
    let v = sample();
    let rows = service_rows(&v);
    assert_eq!(rows.len(), 4);
    assert_eq!(rows[0].number, 1);
    assert_eq!(rows[3].number, 4);
    assert_eq!(rows[2].name, "mail");
    assert_eq!(rows[2].username, "alice");
    assert_eq!(rows[2].password, "c3");
    assert!(service_rows(&[]).is_empty());
}

#[test]
fn reveal_shows_each_entrys_own_password() {
    let outcomes = vec![
        Ok("p1".to_string()),
        Err(VaultError::Decryption),
        Ok("p3".to_string()),
        Ok("p4".to_string()),
    ];
    let r = reveal_passwords(sample(), &outcomes);
    assert_eq!(r[0].service_cipher, "p1");
    assert_eq!(r[1].service_cipher, "c2");
    assert_eq!(r[2].service_cipher, "p3");
    assert_eq!(r[3].service_cipher, "p4");
    assert_eq!(names(&r), names(&sample()));
}

#[test]
fn passwords_from_drawn_indices() {
    let idx: Vec<usize> = vec![0, 25, 26, 51, 52, 61, 62, 71, 1, 2, 3, 4];
    assert_eq!(password_from_indices(&idx), "AZaz09)!BCDE");
}

#[test]
fn master_password_rules() {
    assert_eq!(validate_master_password(&"".to_string()), Err(PasswordProblem::TooShort));
    assert_eq!(validate_master_password(&"abcdef".to_string()), Err(PasswordProblem::TooShort));
    assert_eq!(validate_master_password(&"abcdefg".to_string()), Ok(()));
    assert_eq!(validate_master_password(&"ééééééé".to_string()), Err(PasswordProblem::NotAscii));
    assert_eq!(validate_master_password(&"éééééé".to_string()), Err(PasswordProblem::TooShort));
}

#[test]
fn entry_choice_parsing() {
    assert_eq!(parse_entry_choice("0", 3), Ok(0));
    assert_eq!(parse_entry_choice("3", 3), Ok(3));
    assert_eq!(parse_entry_choice("+2", 3), Ok(2));
    assert_eq!(parse_entry_choice("007", 9), Ok(7));
    assert_eq!(parse_entry_choice("4", 3), Err(ChoiceProblem::NoSuchEntry));
    assert_eq!(parse_entry_choice("", 3), Err(ChoiceProblem::NotANumber));
    assert_eq!(parse_entry_choice("+", 3), Err(ChoiceProblem::NotANumber));
    assert_eq!(parse_entry_choice("-1", 3), Err(ChoiceProblem::NotANumber));
    assert_eq!(parse_entry_choice(" 1", 3), Err(ChoiceProblem::NotANumber));
    assert_eq!(parse_entry_choice("1a", 3), Err(ChoiceProblem::NotANumber));
    assert_eq!(
        parse_entry_choice("99999999999999999999999", 3),
        Err(ChoiceProblem::NotANumber)
    );
    assert_eq!(
        parse_entry_choice(&usize::MAX.to_string(), usize::MAX),
        Ok(usize::MAX)
    );
}

#[test]
fn choosing_an_entry() {
    let v = sample();
    assert!(entry_for_choice(&v, 0).is_none());
    assert_eq!(entry_for_choice(&v, 2).unwrap().service_name, "gitlab");
}

#[test]
fn purge_needs_exact_word() {
    assert!(purge_confirmed(&"PURGE".to_string()));
    assert!(!purge_confirmed(&"purge".to_string()));
    assert!(!purge_confirmed(&"PURGE ".to_string()));
}

#[test]
fn generated_passwords_use_the_charset() {
    let charset = "ABCDEFGHIJKLMNOPQRSTUVWXYZabcdefghijklmnopqrstuvwxyz0123456789)(*&^%$#@!";
    let p = gen_plain_password();
    assert_eq!(p.chars().count(), 12);
    assert!(p.chars().all(|c| charset.contains(c)));
    assert_ne!(p, gen_plain_password());
}

#[test]
fn commands_that_need_an_open_vault() {
    assert!(requires_open_vault(&Service::Show { name: None, all: false }));
    assert!(requires_open_vault(&Service::Get { service: None, user: None }));
    assert!(requires_open_vault(&Service::Remove { service: None, user: None, all: true }));
    assert!(!requires_open_vault(&Service::Open));
    assert!(!requires_open_vault(&Service::Close));
    assert!(requires_open_vault(&Service::Purge));
}

#[test]
fn add_source_priority() {
    assert_eq!(add_source(&Some("f.csv".to_string()), true, true), AddSource::CsvFile);
    assert_eq!(add_source(&None, true, true), AddSource::Generated);
    assert_eq!(add_source(&None, false, true), AddSource::Clipboard);
    assert_eq!(add_source(&None, false, false), AddSource::Prompt);
}

#[test]
fn get_plans() {
    assert_eq!(get_plan(0), GetPlan::ListOnly);
    assert_eq!(get_plan(1), GetPlan::CopyOnly);
    assert_eq!(get_plan(2), GetPlan::ListAndChoose);
}

#[test]
fn csv_rows_become_encrypted_entries() {
    let key: Vec<u8> = vec![9u8; 32];
    let rows = vec![
        CSVfile { service: "a".to_string(), user: "u1".to_string(), password: "p1".to_string() },
        CSVfile { service: "b".to_string(), user: "u2".to_string(), password: "p2".to_string() },
    ];
    let (entries, failed) = encrypt_csv_entries(&encode_base64(key.clone()), rows);
    assert_eq!(failed, 0);
    assert_eq!(names(&entries), ["a/u1", "b/u2"]);
    assert_eq!(decrypt(&key, &entries[1].service_nonce, &entries[1].service_cipher), Ok("p2".to_string()));
    let (none, failed) = encrypt_csv_entries(&"not a key".to_string(), Vec::new());
    assert!(none.is_empty());
    assert_eq!(failed, 0);
}

#[test]
fn decrypting_entries_gives_one_outcome_per_entry() {
    let key: Vec<u8> = vec![3u8; 32];
    let mk = |name: &str, pw: &str| {
        let (c, n) = encrypt(&key, pw.to_string()).unwrap();
        IndividualService {
            service_nonce: encode_base64(n),
            service_name: name.to_string(),
            service_username: String::new(),
            service_cipher: encode_base64(c),
        }
    };
    let mut bad = mk("b", "p2");
    let (c, _) = encrypt(&vec![4u8; 32], "p2".to_string()).unwrap();
    bad.service_cipher = encode_base64(c);
    let v = vec![mk("a", "p1"), bad, mk("c", "p3")];
    let outcomes = try_decrypt_entries(&encode_base64(key.clone()), &v).unwrap();
    assert_eq!(
        outcomes,
        vec![Ok("p1".to_string()), Err(VaultError::Decryption), Ok("p3".to_string())]
    );
    let mut broken = v.clone();
    broken[0].service_nonce = "%".to_string();
    assert!(try_decrypt_entries(&encode_base64(key.clone()), &broken).is_none());
    assert!(try_decrypt_entries(&"short".to_string(), &v).is_none());
    assert_eq!(try_decrypt_entries(&"short".to_string(), &Vec::new()), Some(Vec::new()));
}

#[test]
fn key_and_password_checks() {
    assert!(key_text_usable(&encode_base64(vec![0u8; 32])));
    assert!(!key_text_usable(&encode_base64(vec![0u8; 31])));
    assert!(!key_text_usable(&"not base64".to_string()));
    assert!(storable_text(&"password".to_string()));
    assert!(storable_text(&String::new()));
}
