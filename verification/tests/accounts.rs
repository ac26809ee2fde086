use ai_proxy::accounts::{
    account_error, account_file_name, account_from_document, account_from_file,
    account_id_of_file, can_mask, check_deleted, check_disable, find_disabled, list_accounts,
    mask_key, new_zai_file_name, now_epoch, read_document, zai_document, zai_file_content,
    zai_file_name, DisabledPlace,
};
use ai_proxy::json::Json;
use ai_proxy::types::ProviderAccount;

fn account(provider: &str, name: &str, enabled: bool) -> ProviderAccount {
    ProviderAccount {
        provider: provider.to_string(),
        account_id: "id".to_string(),
        display_name: name.to_string(),
        enabled,
        expired: false,
    }
}

#[test]
fn accounts_are_named_after_their_files() {
    assert_eq!(account_id_of_file("a.b.json"), Some("a.b".to_string()));
    assert_eq!(account_id_of_file(".json"), None);
    assert_eq!(account_id_of_file("a.JSON"), None);
    assert_eq!(account_id_of_file("a.json.bak"), None);
    assert_eq!(account_file_name("a.b"), "a.b.json");
}

#[test]
fn accounts_are_read_from_files() {
    let a = account_from_file(
        "x.json",
        "{\"type\":\"codex\",\"email\":\"\",\"login\":\"me\",\"expired\":\"1970-01-01T00:00:05Z\"}",
        true,
        10,
    )
    .unwrap();
    assert_eq!(a.provider, "codex");
    assert_eq!(a.account_id, "x");
    assert_eq!(a.display_name, "me");
    assert!(a.enabled);
    assert!(a.expired);

    let b = account_from_file("y.json", "{\"email\":\"you@example.com\"}", false, 10).unwrap();
    assert_eq!(b.provider, "unknown");
    assert_eq!(b.display_name, "you@example.com");
    assert!(!b.enabled);
    assert!(!b.expired);

    assert!(account_from_file("y.txt", "{}", true, 10).is_none());
    assert!(account_from_file("y.json", "{", true, 10).is_none());
}

#[test]
fn an_account_without_names_is_called_by_its_identifier() {
    let a = account_from_document(&Json::Array(vec![]), "plain", true, 0);
    assert_eq!(a.display_name, "plain");
    assert_eq!(a.provider, "unknown");
    let doc = Json::Object(vec![("login".to_string(), Json::Text(String::new()))]);
    assert_eq!(account_from_document(&doc, "plain", true, 0).display_name, "");
}

#[test]
fn accounts_are_listed_by_provider_and_name() {
    let listed = list_accounts(
        vec![account("b", "z", true), account("a", "m", true)],
        vec![account("b", "a", false), account("a", "m", false)],
        vec![account("a", "b", false)],
    );
    let rows: Vec<(&str, &str, bool)> = listed
        .iter()
        .map(|a| (a.provider.as_str(), a.display_name.as_str(), a.enabled))
        .collect();
    assert_eq!(
        rows,
        vec![
            ("a", "b", false),
            ("a", "m", true),
            ("a", "m", false),
            ("b", "a", false),
            ("b", "z", true),
        ]
    );
}

#[test]
fn moving_an_account_needs_its_file() {
    assert_eq!(check_disable("x", true), Ok(()));
    assert_eq!(
        check_disable("x", false),
        Err("Account file not found: x".to_string())
    );
    assert_eq!(find_disabled("x", true, true), Ok(DisabledPlace::Disabled));
    assert_eq!(find_disabled("x", false, true), Ok(DisabledPlace::AutoDisabled));
    assert_eq!(
        find_disabled("x", false, false),
        Err("Disabled account file not found: x".to_string())
    );
    assert_eq!(check_deleted("x", true), Ok(()));
    assert_eq!(
        check_deleted("x", false),
        Err("Account file not found: x".to_string())
    );
    assert_eq!(
        account_error("disable", "x", "denied"),
        "Failed to disable account x: denied"
    );
}

#[test]
fn long_keys_are_masked() {
    assert_eq!(mask_key("0123456789abcdef"), "01234567...cdef");
    assert_eq!(mask_key("0123456789abc"), "01234567...9abc");
    assert_eq!(mask_key("0123456789ab"), "0123456789ab");
    assert_eq!(mask_key(""), "");
    assert!(can_mask("0123456789abcdef"));
    assert!(!can_mask("0123456\u{e9}89abcdef"));
    assert!(can_mask("012345\u{e9}89abcdef"));
    assert_eq!(mask_key("012345\u{e9}89abcdef"), "012345\u{e9}...cdef");
    assert!(can_mask("\u{e9}\u{e9}\u{e9}"));
}

#[test]
fn a_saved_key_reads_back() {
    let content = zai_file_content("0123456789abcdef");
    assert_eq!(
        content,
        "{\n  \"api_key\": \"0123456789abcdef\",\n  \"email\": \"01234567...cdef\",\n  \"type\": \"zai\"\n}"
    );
    let a = account_from_file("zai-1.json", &content, true, 0).unwrap();
    assert_eq!(a.provider, "zai");
    assert_eq!(a.display_name, "01234567...cdef");
    assert!(!a.expired);
    assert_eq!(
        read_document(&content),
        Some(zai_document("0123456789abcdef"))
    );
    assert_eq!(read_document("no"), None);
}

#[test]
fn key_files_have_random_names() {
    assert_eq!(zai_file_name("01ab"), "zai-01ab.json");
    let name = new_zai_file_name();
    assert_eq!(name.len(), 17);
    assert!(name.starts_with("zai-"));
    assert!(name.ends_with(".json"));
    assert!(name[4..12]
        .chars()
        .all(|c| c.is_ascii_digit() || ('a'..='f').contains(&c)));
    assert_ne!(new_zai_file_name(), name);
}

#[test]
fn the_clock_runs() {
    assert!(now_epoch() > 1_700_000_000);
}
