use sas_pwa_client::credentials::{
    find, from_hex, login_of, login_secret, login_triple, protect, prune, remove, to_hex, unprotect, upsert, view,
    wants_new_secret, Credential, CredentialView, LoginSecret,
};

fn cred(site_id: &str, username: &str, secret: &str, auto_login: bool) -> Credential {
    Credential {
        site_id: site_id.to_string(),
        username: username.to_string(),
        secret: secret.to_string(),
        auto_login,
    }
}

#[test]
fn hex_encodes_two_lowercase_digits_per_byte() {
    assert_eq!(to_hex(&[0x00, 0xab, 0x10, 0xff]), "00ab10ff");
    assert_eq!(to_hex(&[]), "");
}

#[test]
fn hex_decodes_both_cases_and_ignores_surrounding_space() {
    assert_eq!(from_hex("00ab10ff"), Some(vec![0x00, 0xab, 0x10, 0xff]));
    assert_eq!(from_hex(" 0A\n"), Some(vec![0x0a]));
    assert_eq!(from_hex(""), Some(vec![]));
}

#[test]
fn hex_rejects_odd_length_and_bad_digits() {
    assert_eq!(from_hex("abc"), None);
    assert_eq!(from_hex("zz"), None);
    assert_eq!(from_hex("0g"), None);
}

#[test]
fn hex_takes_only_digit_pairs() {
    assert_eq!(from_hex("+f"), None);
    assert_eq!(from_hex("+a"), None);
    assert_eq!(from_hex("-1"), None);
    assert_eq!(from_hex("0x"), None);
}

#[test]
fn hex_decodes_to_bytes_whose_hex_is_the_text_lowercased() {
    let v = from_hex(" A0fF ").unwrap();
    assert_eq!(v, vec![0xa0, 0xff]);
    assert_eq!(to_hex(&v), "a0ff");
}

#[test]
fn hex_round_trip() {
    let bytes: Vec<u8> = (0u8..=255).collect();
    assert_eq!(from_hex(&to_hex(&bytes)), Some(bytes));
}

#[test]
fn plain_store_round_trip() {
    let cipher = protect("pässwörd 密码").unwrap();
    assert_eq!(cipher, "pässwörd 密码".as_bytes().to_vec());
    assert_eq!(unprotect(&cipher), Ok("pässwörd 密码".to_string()));
}

#[test]
fn plain_store_rejects_bytes_that_are_not_text() {
    let r = unprotect(&[0x61, 0xff]);
    assert_eq!(r, Err("解密结果不是合法文本：invalid utf-8 sequence of 1 bytes from index 1".to_string()));
}

#[test]
fn view_never_carries_the_secret() {
    let c = cred("a", "alice", "00ff", true);
    let v = c.public_view();
    assert_eq!(v.username, "alice");
    assert!(v.has_password);
    assert!(v.auto_login);
    let e = cred("a", "bob", "", false).public_view();
    assert!(!e.has_password);
    let d = CredentialView::default();
    assert_eq!(d.username, "");
    assert!(!d.has_password);
    assert!(!d.auto_login);
}

#[test]
fn find_and_view_take_the_first_entry_of_a_site() {
    let list = vec![cred("a", "first", "", false), cred("b", "bee", "01", true), cred("a", "second", "", true)];
    let f = find(&list, "a").unwrap();
    assert_eq!(f.username, "first");
    assert!(find(&list, "zzz").is_none());
    let v = view(&list, "b").unwrap();
    assert_eq!(v.username, "bee");
    assert!(v.has_password);
    assert!(view(&list, "c").is_none());
}

#[test]
fn upsert_adds_trimmed_user_with_new_secret() {
    let mut list: Vec<Credential> = Vec::new();
    let (v, save) = upsert(&mut list, "s1", "  alice ", Some(vec![0xde, 0xad]), true);
    assert!(save);
    assert_eq!(v.username, "alice");
    assert!(v.has_password);
    assert!(v.auto_login);
    assert_eq!(list.len(), 1);
    assert_eq!(list[0].site_id, "s1");
    assert_eq!(list[0].username, "alice");
    assert_eq!(list[0].secret, "dead");
}

#[test]
fn upsert_without_password_keeps_stored_secret() {
    let mut list = vec![cred("x", "other", "11", false), cred("s1", "alice", "beef", true)];
    let (v, save) = upsert(&mut list, "s1", "bob", None, false);
    assert!(save);
    assert_eq!(v.username, "bob");
    assert!(v.has_password);
    assert!(!v.auto_login);
    assert_eq!(list.len(), 2);
    assert_eq!(list[1].username, "bob");
    assert_eq!(list[1].secret, "beef");
    assert_eq!(list[0].username, "other");
}

#[test]
fn upsert_new_site_without_password_has_none() {
    let mut list = vec![cred("x", "other", "11", false)];
    let (v, _) = upsert(&mut list, "new", "carol", None, true);
    assert!(!v.has_password);
    assert_eq!(list.len(), 2);
    assert_eq!(list[1].secret, "");
}

#[test]
fn upsert_with_blank_user_clears_the_site() {
    let mut list = vec![cred("s1", "alice", "beef", true), cred("x", "other", "", false), cred("s1", "dup", "", false)];
    let (v, save) = upsert(&mut list, "s1", "   ", Some(vec![1]), true);
    assert!(save);
    assert_eq!(v.username, "");
    assert!(!v.has_password);
    assert!(!v.auto_login);
    assert_eq!(list.len(), 1);
    assert_eq!(list[0].site_id, "x");
    let (_, save_again) = upsert(&mut list, "s1", "", None, false);
    assert!(!save_again);
}

#[test]
fn new_secret_only_for_user_and_nonempty_password() {
    assert!(wants_new_secret("alice", Some("pw")));
    assert!(!wants_new_secret("alice", Some("")));
    assert!(!wants_new_secret("alice", None));
    assert!(!wants_new_secret("  ", Some("pw")));
}

#[test]
fn remove_drops_every_entry_of_the_site() {
    let mut list = vec![cred("a", "1", "", false), cred("b", "2", "", false), cred("a", "3", "", false)];
    assert!(remove(&mut list, "a"));
    assert_eq!(list.len(), 1);
    assert_eq!(list[0].site_id, "b");
    assert!(!remove(&mut list, "a"));
}

#[test]
fn prune_keeps_only_alive_sites_in_order() {
    let list = vec![cred("a", "1", "", false), cred("gone", "2", "", false), cred("b", "3", "", false)];
    let alive = vec!["b".to_string(), "a".to_string()];
    let (kept, changed) = prune(list, &alive);
    assert!(changed);
    let ids: Vec<&str> = kept.iter().map(|c| c.site_id.as_str()).collect();
    assert_eq!(ids, vec!["a", "b"]);
    let (again, changed_again) = prune(kept, &alive);
    assert!(!changed_again);
    assert_eq!(again.len(), 2);
}

#[test]
fn login_secret_cases() {
    assert!(matches!(login_secret(&cred("a", "u", "", false)), LoginSecret::NoPassword));
    assert!(matches!(login_secret(&cred("a", "u", "xyz", false)), LoginSecret::Malformed));
    match login_secret(&cred("a", "u", "6869", false)) {
        LoginSecret::Cipher(c) => assert_eq!(c, vec![0x68, 0x69]),
        other => panic!("unexpected {other:?}"),
    }
}

#[test]
fn login_triple_only_when_password_was_read() {
    let c = cred("a", "alice", "00", true);
    assert_eq!(login_triple(&c, Ok("pw".to_string())), Some(("alice".to_string(), "pw".to_string(), true)));
    assert_eq!(login_triple(&c, Err("bad".to_string())), None);
}

#[test]
fn saved_password_is_read_back_for_sign_in() {
    let mut list: Vec<Credential> = Vec::new();
    let cipher = protect("s3cret").unwrap();
    upsert(&mut list, "s1", " alice ", Some(cipher), true);
    assert_eq!(login_of(&list, "s1"), Some(("alice".to_string(), "s3cret".to_string(), true)));
    assert_eq!(login_of(&list, "other"), None);
}

#[test]
fn no_sign_in_without_usable_password() {
    let list = vec![cred("a", "u", "", true), cred("b", "u", "zz", true), cred("c", "u", "ff", true)];
    assert_eq!(login_of(&list, "a"), None);
    assert_eq!(login_of(&list, "b"), None);
    assert_eq!(login_of(&list, "c"), None);
}

#[test]
fn hex_with_non_ascii_text_is_rejected_without_panic() {
    assert_eq!(from_hex("a\u{e9}0"), None);
    assert_eq!(from_hex("a中"), None);
    assert_eq!(from_hex("中文"), None);
    assert_eq!(from_hex("a中b"), None);
}

#[test]
fn tampered_secret_gives_no_sign_in() {
    let list = vec![cred("a", "u", "a\u{e9}0", true), cred("b", "u", "中文", true)];
    assert_eq!(login_of(&list, "a"), None);
    assert_eq!(login_of(&list, "b"), None);
    assert!(matches!(login_secret(&list[1]), LoginSecret::Malformed));
}

#[test]
fn removed_site_is_not_found_again() {
    let mut list = vec![cred("a", "1", "", false), cred("a", "2", "", false)];
    remove(&mut list, "a");
    assert!(find(&list, "a").is_none());
    assert!(view(&list, "a").is_none());
    assert_eq!(login_of(&list, "a"), None);
}

#[test]
fn saving_one_site_leaves_other_sites_alone() {
    let mut list = vec![cred("a", "ann", "aa", true), cred("b", "bob", "bb", false)];
    upsert(&mut list, "a", "anna", Some(vec![1, 2]), false);
    let b = find(&list, "b").unwrap();
    assert_eq!((b.username.as_str(), b.secret.as_str(), b.auto_login), ("bob", "bb", false));
    upsert(&mut list, "a", "", None, false);
    let b = find(&list, "b").unwrap();
    assert_eq!((b.username.as_str(), b.secret.as_str(), b.auto_login), ("bob", "bb", false));
    assert!(find(&list, "a").is_none());
}
