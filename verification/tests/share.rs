use papr::error::AppError;
use papr::highlights::ArticleDetail;
use papr::sanitize::escape_html;
use papr::settings::{Settings, Stored};
use papr::share::{
    html_to_text, load_for_share, send_article, share_targets, SendRequest, ShareTarget,
};

fn article() -> ArticleDetail {
    ArticleDetail {
        title: "T".to_string(),
        url: Some("https://e.x/a".to_string()),
        author: None,
        feed_title: "F".to_string(),
        published_at: Some(5),
        content_html: Some("<p>feed</p>".to_string()),
        extracted_html: None,
    }
}

fn settings(entries: &[(&str, &str)]) -> Settings {
    let mut s = Settings::new();
    for (k, v) in entries {
        s.record(k, Stored::Value(v.to_string()));
    }
    s
}

#[test]
fn html_to_text_strips_tags() {
    assert_eq!(html_to_text("<p>hello</p>").trim(), "hello");
    assert_eq!(html_to_text("plain").trim(), "plain");
}

#[test]
fn html_to_text_block_tags_become_newlines() {
    let t = html_to_text("<p>one</p><p>two</p>");
    let lines: Vec<&str> = t.split('\n').filter(|l| !l.trim().is_empty()).collect();
    assert_eq!(lines, vec!["one", "two"]);
    assert_eq!(html_to_text("a<br>b").replace('\n', "|"), "a|b");
}

#[test]
fn html_to_text_inline_tags_kept_inline() {
    assert_eq!(html_to_text("<p>a <strong>bold</strong> word</p>").trim(), "a bold word");
}

#[test]
fn html_to_text_decodes_entities() {
    assert_eq!(
        html_to_text("<p>tom &amp; jerry &lt;3 &quot;x&quot;</p>").trim(),
        "tom & jerry <3 \"x\""
    );
}

#[test]
fn html_to_text_does_not_double_decode_escaped_entities() {
    assert_eq!(
        html_to_text("<p>write &amp;lt;br&amp;gt; for a break</p>").trim(),
        "write &lt;br&gt; for a break"
    );
    assert_eq!(html_to_text("<p>&amp;amp;</p>").trim(), "&amp;");
}

#[test]
fn html_to_text_empty_input() {
    assert_eq!(html_to_text("").trim(), "");
    assert_eq!(html_to_text("<p></p>").trim(), "");
}

#[test]
fn html_to_text_handles_attributes_in_tags() {
    let t = html_to_text("<p class=\"x\">first</p><div id=\"y\">second</div>");
    let lines: Vec<&str> = t.split('\n').filter(|l| !l.trim().is_empty()).collect();
    assert_eq!(lines, vec!["first", "second"]);
}

#[test]
fn html_to_text_recognises_capital_and_closing_tags() {
    assert_eq!(html_to_text("a<br/>b"), "a\nb");
    assert_eq!(html_to_text("a<BR/>b</DIV>c"), "a\nb\nc");
    assert_eq!(html_to_text("a<p\r\nclass=x>b"), "a\nb");
    assert_eq!(html_to_text("a<hr2/>b<p/class=x>c"), "ab\nc");
    assert_eq!(html_to_text("a<BR />b"), "a\nb");
    assert_eq!(html_to_text("a&nbsp;b"), "a b");
}

#[test]
fn html_to_text_keeps_a_lone_closing_bracket() {
    assert_eq!(html_to_text("a > b"), "a > b");
    assert_eq!(html_to_text("<p>a > b</p> > c"), "\na > b\n > c");
    assert_eq!(html_to_text("x<br>>y"), "x\n>y");
}

#[test]
fn escaped_text_reads_back() {
    for s in ["", "a & b", "<b>\"it's\"</b>", "&lt;", "&amp;amp; &nbsp;", "\u{754c} <"] {
        assert_eq!(html_to_text(&escape_html(s)), s);
    }
}

#[test]
fn the_extracted_text_is_preferred() {
    assert_eq!(load_for_share(article()).body_html, "<p>feed</p>");
    let mut full = article();
    full.extracted_html = Some("<p>full</p>".to_string());
    assert_eq!(load_for_share(full).body_html, "<p>full</p>");
    let mut empty = article();
    empty.extracted_html = Some("  \n".to_string());
    assert_eq!(load_for_share(empty).body_html, "<p>feed</p>");
    let mut none = article();
    none.content_html = None;
    assert_eq!(load_for_share(none).body_html, "");
}

#[test]
fn only_complete_targets_are_offered() {
    let t = share_targets(&settings(&[
        ("pocket_consumer_key", "k"),
        ("pocket_access_token", "t"),
        ("instapaper_username", "u"),
        ("instapaper_password", "  "),
        ("kindle_smtp_host", "h"),
        ("kindle_smtp_username", "u"),
        ("kindle_smtp_password", "p"),
        ("kindle_address", "a"),
        ("notion_token", "t"),
    ]));
    assert!(t.pocket && !t.instapaper && t.kindle && !t.notion);
}

#[test]
fn an_unreadable_setting_is_not_offered() {
    let mut s = settings(&[("notion_page", "p")]);
    s.record("notion_token", Stored::Unreadable("locked".to_string()));
    assert!(!share_targets(&s).notion);
    match send_article(ShareTarget::Notion, article(), &s) {
        Err(AppError::Other(m)) => assert_eq!(m, "locked"),
        _ => panic!("the read error must be reported"),
    }
}

#[test]
fn pocket_and_instapaper_get_trimmed_credentials() {
    let s = settings(&[
        ("pocket_consumer_key", " k "),
        ("pocket_access_token", "t\n"),
        ("instapaper_username", " u"),
        ("instapaper_password", "p "),
    ]);
    match send_article(ShareTarget::Pocket, article(), &s) {
        Ok(SendRequest::Pocket { consumer_key, access_token, article }) => {
            assert_eq!((consumer_key.as_str(), access_token.as_str()), ("k", "t"));
            assert_eq!(article.title, "T");
        }
        _ => panic!("a Pocket request"),
    }
    match send_article(ShareTarget::Instapaper, article(), &s) {
        Ok(SendRequest::Instapaper { username, password, .. }) => {
            assert_eq!((username.as_str(), password.as_str()), ("u", "p"));
        }
        _ => panic!("an Instapaper request"),
    }
}

#[test]
fn kindle_gets_the_settings_as_they_are() {
    let s = settings(&[("kindle_smtp_host", " h "), ("kindle_smtp_port", "587")]);
    match send_article(ShareTarget::Kindle, article(), &s) {
        Ok(SendRequest::Kindle { settings, article }) => {
            assert_eq!(settings.smtp_host.as_deref(), Some(" h "));
            assert_eq!(settings.smtp_port.as_deref(), Some("587"));
            assert_eq!(settings.address, None);
            assert_eq!(article.body_html, "<p>feed</p>");
        }
        _ => panic!("a Kindle request"),
    }
}

#[test]
fn notion_gets_plain_text() {
    let s = settings(&[("notion_token", " t "), ("notion_page", "p")]);
    match send_article(ShareTarget::Notion, article(), &s) {
        Ok(SendRequest::Notion { token, page, entry, body_text }) => {
            assert_eq!((token.as_str(), page.as_str()), ("t", "p"));
            assert_eq!(entry.feed_title, "F");
            assert_eq!(body_text, "\nfeed\n");
        }
        _ => panic!("a Notion request"),
    }
}

#[test]
fn unconfigured_targets_are_refused_by_code() {
    let none = Settings::new();
    let pocket = send_article(ShareTarget::Pocket, article(), &none);
    assert!(matches!(pocket, Err(AppError::Code("noPocketConfig"))));
    let instapaper = send_article(ShareTarget::Instapaper, article(), &none);
    assert!(matches!(instapaper, Err(AppError::Code("noInstapaperConfig"))));
    let notion = send_article(ShareTarget::Notion, article(), &none);
    assert!(matches!(notion, Err(AppError::Code("noNotionToken"))));
    let page = send_article(ShareTarget::Notion, article(), &settings(&[("notion_token", "t")]));
    assert!(matches!(page, Err(AppError::Code("noNotionPage"))));
}
