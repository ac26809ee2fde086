use std::collections::HashMap;

use ai_proxy::saved_contexts::{
    attached, attachment_slug, content_of_context, context_file_name, context_not_found,
    context_title, extract_attached_slug_from_filename, listed_slug, newest_first,
    plan_attachment, sanitize_slug_component, source_not_found, strip_nested_attached_prefixes,
    AttachedSavedContext,
};

#[test]
fn test_strip_nested_attached_prefixes() {
    assert_eq!(
        strip_nested_attached_prefixes(
            "424e58f4-2ffb-4e5a-a99f-a43504d325ac-context-oauth-ux-improvements"
        ),
        "oauth-ux-improvements"
    );
    assert_eq!(
        strip_nested_attached_prefixes(
            "424e58f4-2ffb-4e5a-a99f-a43504d325ac-context-2fcaeb1b-2958-43c8-a8fc-eb58c5a5cb20-context-vibeproxy-jean-integration"
        ),
        "vibeproxy-jean-integration"
    );
    assert_eq!(
        strip_nested_attached_prefixes("vibeproxy-jean-integration"),
        "vibeproxy-jean-integration"
    );
}

#[test]
fn test_extract_attached_slug_from_filename() {
    assert_eq!(
        extract_attached_slug_from_filename(
            "149c4d16-6a54-4735-afcc-15be517adbd5-context-oauth-ux-improvements.md"
        ),
        Some("oauth-ux-improvements".to_string())
    );
    assert_eq!(
        extract_attached_slug_from_filename(
            "vibeproxy-jean-integration-1772621222-vibeproxy-jean-integration.md"
        ),
        None
    );
}

#[test]
fn test_sanitize_slug_component() {
    assert_eq!(
        sanitize_slug_component("OAuth UX Improvements!!!"),
        "oauth-ux-improvements"
    );
}

#[test]
fn all_spellings_of_a_session_are_stripped() {
    let plain = "424e58f42ffb4e5aa99fa43504d325ac";
    let hyphenated = "424E58F4-2ffb-4e5a-a99f-a43504d325ac";
    for session in [
        plain.to_string(),
        hyphenated.to_string(),
        format!("{{{hyphenated}}}"),
        format!("URN:uuid:{hyphenated}"),
    ] {
        assert_eq!(
            strip_nested_attached_prefixes(&format!("  {session}-context-x ")),
            "x"
        );
    }
    for other in ["424e58f4", "g24e58f42ffb4e5aa99fa43504d325ac", ""] {
        let slug = format!("{other}-context-x");
        assert_eq!(strip_nested_attached_prefixes(&slug), slug);
    }
}

#[test]
fn slugs_are_stable() {
    for s in ["--A  b__C--", "", "!!!", "Ünï cödé 9", "already-fine"] {
        let once = sanitize_slug_component(s);
        assert_eq!(sanitize_slug_component(&once), once);
    }
    assert_eq!(sanitize_slug_component("--A  b__C--"), "a-b-c");
    assert_eq!(sanitize_slug_component("Ünï cödé 9"), "Ünï-cödé-9");
    assert_eq!(sanitize_slug_component("a\u{2014}b\u{3b1}"), "a-b\u{3b1}");
    assert_eq!(sanitize_slug_component("!!!"), "");
}

#[test]
fn an_attached_context_is_listed_under_its_session() {
    let session = "149c4d16-6a54-4735-afcc-15be517adbd5";
    let file = context_file_name(session, "my-notes");
    assert_eq!(
        file,
        "149c4d16-6a54-4735-afcc-15be517adbd5-context-my-notes.md"
    );
    assert_eq!(listed_slug(session, &file), Some("my-notes".to_string()));
    assert_eq!(
        extract_attached_slug_from_filename(&file),
        Some("my-notes".to_string())
    );
    assert_eq!(listed_slug("other", &file), None);
    assert_eq!(listed_slug(session, "notes.md"), None);
    assert_eq!(
        listed_slug("s", &context_file_name("s", "")),
        Some(String::new())
    );
    assert_eq!(listed_slug("s", "s-context-x.txt"), None);
}

#[test]
fn the_slug_is_taken_from_the_source_where_none_is_given() {
    let source = "149c4d16-6a54-4735-afcc-15be517adbd5-context-From Source.md";
    assert_eq!(
        attachment_slug("  ", Some(source)),
        Ok("from-source".to_string())
    );
    assert_eq!(
        attachment_slug("Given Name", Some(source)),
        Ok("given-name".to_string())
    );
    assert_eq!(
        attachment_slug(
            "149c4d16-6a54-4735-afcc-15be517adbd5-context-Inner",
            None
        ),
        Ok("inner".to_string())
    );
    let refused = Err("Invalid context slug".to_string());
    assert_eq!(attachment_slug("", None), refused);
    assert_eq!(attachment_slug("", Some("plain.md")), refused);
    assert_eq!(attachment_slug("???", Some(source)), refused);
}

#[test]
fn the_title_stands_in_the_first_line() {
    assert_eq!(context_title("# Title\nrest"), Some("Title".to_string()));
    assert_eq!(context_title("# Title\r\nrest"), Some("Title".to_string()));
    assert_eq!(context_title("# Title\r"), Some("Title\r".to_string()));
    assert_eq!(context_title("# "), Some(String::new()));
    assert_eq!(context_title("#Title"), None);
    assert_eq!(context_title("\n# Title"), None);
    assert_eq!(context_title(""), None);
}

#[test]
fn newer_contexts_come_first() {
    let make = |slug: &str, created_at: u64| AttachedSavedContext {
        slug: slug.to_string(),
        name: None,
        size: 1,
        created_at,
    };
    let sorted = newest_first(vec![
        make("a", 1),
        make("b", 3),
        make("c", 2),
        make("d", 3),
    ]);
    let slugs: Vec<&str> = sorted.iter().map(|c| c.slug.as_str()).collect();
    assert_eq!(slugs, vec!["b", "d", "c", "a"]);
}

#[test]
fn missing_files_are_named() {
    assert_eq!(
        source_not_found("/tmp/x.md"),
        "Source context file not found: /tmp/x.md"
    );
    assert_eq!(
        context_not_found("notes"),
        "Saved context file not found for slug 'notes'"
    );
}

#[test]
fn what_is_attached_is_read_back() {
    let session = "149c4d16-6a54-4735-afcc-15be517adbd5";
    let content = "# Nötes\nbody\n";
    let mut dir: HashMap<String, Vec<u8>> = HashMap::new();
    dir.insert(context_file_name(session, "other"), b"kept".to_vec());

    let slug = attachment_slug("My Notes", None).unwrap();
    let plan = plan_attachment(session, slug, content.to_string());
    let file = plan.file_name.clone();
    dir.insert(plan.file_name.clone(), plan.content.clone().into_bytes());
    let r = attached(plan, dir[&file].len() as u64, 9);
    assert_eq!(r.slug, "my-notes");
    assert_eq!(r.name.as_deref(), Some("Nötes"));
    assert_eq!(r.size, content.len() as u64);
    assert_eq!(r.created_at, 9);
    assert_eq!(listed_slug(session, &file), Some(r.slug.clone()));

    let found = dir
        .get(&context_file_name(session, &r.slug))
        .map(|b| String::from_utf8(b.clone()).unwrap());
    assert_eq!(content_of_context(&r.slug, found), Ok(content.to_string()));
    assert_eq!(dir[&context_file_name(session, "other")], b"kept".to_vec());
    assert_eq!(
        content_of_context("gone", None),
        Err("Saved context file not found for slug 'gone'".to_string())
    );
}

#[test]
fn slugs_of_a_session_have_files_of_their_own() {
    assert_ne!(context_file_name("s", "a"), context_file_name("s", "b"));
    assert_ne!(context_file_name("s", "a"), context_file_name("s", "a.md"));
}
