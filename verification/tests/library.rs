use papr::error::AppError;
use papr::library::{
    extract_fulltext, freshrss_status, preview_rule, rule_draft, smart_counts, storage_stats,
    tag_name,
};
use papr::text::{collapse_white_space, decimal, replace, take_bytes, trim};

#[test]
fn counts_keep_their_places() {
    let c = smart_counts((1, 2, 3));
    assert_eq!((c.unread, c.starred, c.read_later), (1, 2, 3));
    let s = storage_stats((4, 5, 6));
    assert_eq!((s.db_bytes, s.article_count, s.feed_count), (4, 5, 6));
    let p = preview_rule((2, vec!["a".to_string()]));
    assert_eq!((p.count, p.samples), (2, vec!["a".to_string()]));
}

#[test]
fn a_server_is_linked_when_its_url_is_known() {
    assert!(!freshrss_status(None).connected);
    let linked = freshrss_status(Some("https://f.x".to_string()));
    assert!(linked.connected);
    assert_eq!(linked.url.as_deref(), Some("https://f.x"));
}

#[test]
fn tag_names_are_trimmed_and_never_empty() {
    assert_eq!(tag_name(" news ").unwrap(), "news");
    assert!(matches!(tag_name(" \u{3000}"), Err(AppError::Code("emptyTagName"))));
}

#[test]
fn rules_need_a_query() {
    let draft = rule_draft(" n ", " q ").unwrap_or_else(|_| panic!("a rule"));
    assert_eq!((draft.name.as_str(), draft.query.as_str()), ("n", "q"));
    assert!(matches!(rule_draft("n", "\t"), Err(AppError::Code("emptyRuleQuery"))));
}

#[test]
fn full_text_needs_a_url() {
    assert_eq!(extract_fulltext(Some("u".to_string())).unwrap(), "u");
    assert!(matches!(extract_fulltext(None), Err(AppError::Code("noArticleUrl"))));
}

#[test]
fn white_space_is_that_of_unicode() {
    for p in 0..=0x10ffffu32 {
        if let Some(c) = char::from_u32(p) {
            let s = c.to_string();
            assert_eq!(trim(&s).is_empty(), s.trim().is_empty(), "U+{p:x}");
        }
    }
}

#[test]
fn numbers_are_written_in_decimal() {
    for n in [0i64, 7, 10, 1905, -1, i64::MAX, i64::MIN] {
        assert_eq!(decimal(n), n.to_string());
    }
}

#[test]
fn texts_are_handled_by_character() {
    assert_eq!(collapse_white_space("  a \n b\u{a0}c "), "a b c");
    assert_eq!(replace("aaa", "aa", "b"), "ba");
    assert_eq!(take_bytes("é界x", 5), "é界");
    assert_eq!(take_bytes("é界x", 4), "é");
}
