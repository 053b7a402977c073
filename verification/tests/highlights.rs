use papr::error::AppError;
use papr::highlights::{
    create_highlight, export_highlights_to_notion, export_highlights_to_obsidian,
    export_highlights_to_readwise, load_for_export, obsidian_note_filename, safe_filename,
    ArticleDetail, NewHighlight,
};
use papr::settings::{Settings, Stored};

fn settings(entries: &[(&str, &str)]) -> Settings {
    let mut s = Settings::new();
    for (k, v) in entries {
        s.record(k, Stored::Value(v.to_string()));
    }
    s
}

#[test]
fn obsidian_filename_replaces_reserved_chars() {
    assert_eq!(obsidian_note_filename("a/b:c*d?", 1), "a-b-c-d-.md");
}

#[test]
fn obsidian_filename_falls_back_for_empty_or_dotted_title() {
    assert_eq!(obsidian_note_filename("   ", 7), "highlights-7.md");
    assert_eq!(obsidian_note_filename(".", 7), "highlights-7.md");
    assert_eq!(obsidian_note_filename("..", 7), "highlights-7.md");
}

#[test]
fn obsidian_filename_strips_leading_dot() {
    assert_eq!(obsidian_note_filename(".hidden", 1), "hidden.md");
}

#[test]
fn obsidian_filename_truncates_to_byte_limit() {
    let long = "a".repeat(400);
    let name = obsidian_note_filename(&long, 1);
    assert!(name.len() <= 255, "filename {} bytes", name.len());
    assert!(name.ends_with(".md"));
}

#[test]
fn obsidian_filename_truncates_on_char_boundary() {
    let long = "界".repeat(200);
    let name = obsidian_note_filename(&long, 1);
    assert!(name.len() <= 255);
    assert!(name.ends_with(".md"));
    let stem = name.strip_suffix(".md").unwrap();
    assert!(stem.chars().all(|c| c == '界'));
}

#[test]
fn obsidian_filename_keeps_ordinary_title() {
    assert_eq!(obsidian_note_filename("My Article Title", 1), "My Article Title.md");
}

#[test]
fn the_longest_fallback_is_still_plain() {
    assert_eq!(obsidian_note_filename("", i64::MIN), "highlights--9223372036854775808.md");
}

#[test]
fn a_long_stem_fills_the_limit() {
    assert_eq!(obsidian_note_filename(&"a".repeat(400), 1).len(), 255);
    assert_eq!(obsidian_note_filename(&"界".repeat(200), 1).len(), 255);
    assert_eq!(obsidian_note_filename(&"😀".repeat(200), 1).len(), 63 * 4 + 3);
}

#[test]
fn other_extensions_are_kept() {
    assert_eq!(safe_filename(" a\tb ", ".txt", "x"), "a-b.txt");
    assert_eq!(safe_filename(" \t ", ".txt", "x"), "x");
}

#[test]
fn an_export_keeps_the_head_of_the_article() {
    let article = load_for_export(ArticleDetail {
        title: "T".to_string(),
        url: None,
        author: Some("A".to_string()),
        feed_title: "F".to_string(),
        published_at: Some(3),
        content_html: None,
        extracted_html: None,
    });
    assert_eq!(article.title, "T");
    assert_eq!(article.author.as_deref(), Some("A"));
    assert_eq!(article.feed_title, "F");
    assert_eq!(article.published_at, Some(3));
}

#[test]
fn obsidian_needs_a_vault() {
    let none = export_highlights_to_obsidian("T", 1, &Settings::new());
    assert!(matches!(none, Err(AppError::Code("noObsidianVault"))));
    match export_highlights_to_obsidian("T", 1, &settings(&[("obsidian_vault", " /v ")])) {
        Ok(plan) => assert_eq!((plan.folder.as_str(), plan.name.as_str()), ("/v", "T.md")),
        Err(_) => panic!("the vault is configured"),
    }
}

#[test]
fn readwise_needs_a_token_and_highlights() {
    let none = export_highlights_to_readwise(0, &Settings::new());
    assert!(matches!(none, Err(AppError::Code("noReadwiseToken"))));
    let s = settings(&[("readwise_token", " t ")]);
    assert!(matches!(export_highlights_to_readwise(0, &s), Err(AppError::Code("noHighlights"))));
    match export_highlights_to_readwise(2, &s) {
        Ok(token) => assert_eq!(token, "t"),
        Err(_) => panic!("the token is configured"),
    }
}

#[test]
fn notion_needs_a_token_a_page_and_highlights() {
    let none = export_highlights_to_notion(1, &Settings::new());
    assert!(matches!(none, Err(AppError::Code("noNotionToken"))));
    let half = settings(&[("notion_token", "t"), ("notion_page", " ")]);
    assert!(matches!(export_highlights_to_notion(1, &half), Err(AppError::Code("noNotionPage"))));
    let s = settings(&[("notion_token", "t "), ("notion_page", " p")]);
    assert!(matches!(export_highlights_to_notion(0, &s), Err(AppError::Code("noHighlights"))));
    match export_highlights_to_notion(1, &s) {
        Ok(plan) => assert_eq!((plan.token.as_str(), plan.page.as_str()), ("t", "p")),
        Err(_) => panic!("token and page are configured"),
    }
}

#[test]
fn a_blank_quote_is_no_highlight() {
    let draft = |quote: &str| NewHighlight {
        article_id: 1,
        quote: quote.to_string(),
        prefix: String::new(),
        suffix: String::new(),
        text_offset: 0,
        color: "yellow".to_string(),
        note: String::new(),
    };
    assert!(matches!(create_highlight(draft(" \n")), Err(AppError::Code("emptyHighlight"))));
    match create_highlight(draft(" q ")) {
        Ok(h) => assert_eq!(h.quote, " q "),
        Err(_) => panic!("the quote is not blank"),
    }
}
