use papr::rsshub::{canonical, expand, is_rsshub_url, normalize_instance, route_of, DEFAULT_INSTANCE};

#[test]
fn recognizes_the_scheme() {
    assert!(is_rsshub_url("rsshub://github/issue/DIYgod/RSSHub"));
    assert!(is_rsshub_url("RSSHUB://github/repos/DIYgod"));
    assert!(is_rsshub_url("  rsshub://twitter/user/x"));
    assert!(!is_rsshub_url("https://rsshub.app/github/issue/DIYgod/RSSHub"));
    assert!(!is_rsshub_url("rsshub:/github")); // missing the second slash
    assert!(!is_rsshub_url(""));
    assert!(!is_rsshub_url("rss"));
}

#[test]
fn a_multi_byte_start_is_no_scheme() {
    assert!(!is_rsshub_url("界界界界"));
    assert!(!is_rsshub_url("rsshub:/界"));
    assert!(is_rsshub_url("\u{3000}RssHub://界"));
}

#[test]
fn normalizes_instances() {
    assert_eq!(normalize_instance(""), DEFAULT_INSTANCE);
    assert_eq!(normalize_instance("   "), DEFAULT_INSTANCE);
    assert_eq!(normalize_instance("https://rsshub.app"), "https://rsshub.app");
    // Trailing slash dropped.
    assert_eq!(normalize_instance("https://rsshub.app/"), "https://rsshub.app");
    // Bare host gains a scheme.
    assert_eq!(normalize_instance("my.rsshub.io"), "https://my.rsshub.io");
    // A sub-path instance is preserved (minus the trailing slash).
    assert_eq!(
        normalize_instance("https://host.example/rsshub/"),
        "https://host.example/rsshub"
    );
}

#[test]
fn normalizing_twice_changes_nothing() {
    for raw in ["", "my.host///", " https://a.b/c/ ", "http://x"] {
        let once = normalize_instance(raw);
        assert_eq!(normalize_instance(&once), once);
        assert!(!once.ends_with('/'));
    }
}

#[test]
fn expands_against_the_default_instance() {
    assert_eq!(
        expand("rsshub://github/issue/DIYgod/RSSHub", DEFAULT_INSTANCE),
        "https://rsshub.app/github/issue/DIYgod/RSSHub"
    );
}

#[test]
fn expands_against_a_custom_instance() {
    assert_eq!(
        expand("rsshub://twitter/user/durov", "https://my.host/"),
        "https://my.host/twitter/user/durov"
    );
    // A bare-host instance is given a scheme first.
    assert_eq!(
        expand("rsshub://twitter/user/durov", "my.host"),
        "https://my.host/twitter/user/durov"
    );
}

#[test]
fn expand_preserves_query_strings() {
    assert_eq!(
        expand("rsshub://twitter/user/durov?mode=fulltext", DEFAULT_INSTANCE),
        "https://rsshub.app/twitter/user/durov?mode=fulltext"
    );
}

#[test]
fn expand_tolerates_extra_leading_slashes_and_whitespace() {
    assert_eq!(
        expand("  rsshub:///github/repos/DIYgod  ", DEFAULT_INSTANCE),
        "https://rsshub.app/github/repos/DIYgod"
    );
}

#[test]
fn expand_leaves_plain_urls_untouched() {
    let url = "https://example.com/feed.xml";
    assert_eq!(expand(url, DEFAULT_INSTANCE), url);
    assert_eq!(expand("  spaced  ", DEFAULT_INSTANCE), "  spaced  ");
}

#[test]
fn canonicalizes_the_stored_form() {
    // Scheme lowercased, leading slashes and whitespace stripped.
    assert_eq!(
        canonical("RSSHUB:///github/issue/DIYgod/RSSHub  "),
        "rsshub://github/issue/DIYgod/RSSHub"
    );
    // Already canonical — unchanged.
    assert_eq!(
        canonical("rsshub://twitter/user/x"),
        "rsshub://twitter/user/x"
    );
    // Non-RSSHub URL is only trimmed.
    assert_eq!(
        canonical("  https://example.com/feed  "),
        "https://example.com/feed"
    );
}

#[test]
fn canonical_then_expand_round_trips() {
    let raw = "  RSSHUB:///github/issue/DIYgod/RSSHub  ";
    let stored = canonical(raw);
    assert_eq!(stored, "rsshub://github/issue/DIYgod/RSSHub");
    assert_eq!(
        expand(&stored, DEFAULT_INSTANCE),
        "https://rsshub.app/github/issue/DIYgod/RSSHub"
    );
}

#[test]
fn a_stored_form_is_its_own_stored_form() {
    for url in ["  RSSHUB:///a/b ", "rsshub://x?y=z", " https://example.com ", "rsshub://"] {
        let once = canonical(url);
        assert_eq!(canonical(&once), once);
        assert_eq!(is_rsshub_url(&once), is_rsshub_url(url));
    }
}

#[test]
fn the_route_survives_a_change_of_instance() {
    let url = "rsshub://twitter/user/durov";
    let one = expand(url, "one.example");
    let two = expand(url, "https://two.example/sub/");
    assert_eq!(one, "https://one.example/twitter/user/durov");
    assert_eq!(two, "https://two.example/sub/twitter/user/durov");
    assert_eq!(route_of(url), "twitter/user/durov");
}

#[test]
fn spellings_of_one_route_are_stored_as_one() {
    assert_eq!(route_of("rsshub:/// github/repos/x "), "github/repos/x");
    for url in ["rsshub://a/b", " RssHub:/// a/b\t", "rsshub:// / /a/b", "RSSHUB://\n//a/b  "] {
        assert_eq!(canonical(url), "rsshub://a/b");
        assert_eq!(canonical(&canonical(url)), "rsshub://a/b");
        assert_eq!(expand(url, "h.x"), "https://h.x/a/b");
    }
}
