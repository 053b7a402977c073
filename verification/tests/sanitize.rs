use papr::sanitize::{
    escape_html, first_image, first_usable_source, html_to_text, sanitize, text_of_events, DomEvent,
};

#[test]
fn block_boundaries_keep_words_apart() {
    assert_eq!(html_to_text("<h1>Title</h1><p>Body</p>"), "Title Body");
}

#[test]
fn inline_tags_do_not_break_words() {
    assert_eq!(html_to_text("un<b>der</b>line"), "underline");
}

#[test]
fn html_entities_are_decoded() {
    assert_eq!(html_to_text("<p>Tom &amp; Jerry</p>"), "Tom & Jerry");
    assert_eq!(html_to_text("caf&#233;"), "café");
    assert_eq!(html_to_text("a &lt;tag&gt; b"), "a <tag> b");
}

#[test]
fn script_and_style_content_is_dropped() {
    assert_eq!(html_to_text("<p>hi</p><script>alert(1)</script><style>x{}</style>"), "hi");
}

#[test]
fn whitespace_is_collapsed() {
    assert_eq!(html_to_text("<p>  lots   of\n\n  space </p>"), "lots of space");
}

#[test]
fn empty_and_plain_input() {
    assert_eq!(html_to_text(""), "");
    assert_eq!(html_to_text("just text"), "just text");
}

#[test]
fn deeply_nested_markup_does_not_overflow() {
    let deep = format!("{}word{}", "<div>".repeat(5000), "</div>".repeat(5000));
    assert_eq!(html_to_text(&deep), "word");
}

#[test]
fn text_follows_from_the_events_alone() {
    let events = vec![
        DomEvent::Open("p".to_string()),
        DomEvent::Text("one".to_string()),
        DomEvent::Close("p".to_string()),
        DomEvent::Open("script".to_string()),
        DomEvent::Text("hidden".to_string()),
        DomEvent::Close("script".to_string()),
        DomEvent::Text("two".to_string()),
    ];
    assert_eq!(text_of_events(&events), "one two");
}

#[test]
fn sanitize_strips_scripts_and_event_handlers() {
    let out = sanitize("<p onclick=\"steal()\">hi</p><script>evil()</script>", None);
    assert!(!out.contains("script"), "script tag survived: {out}");
    assert!(!out.contains("onclick"), "event handler survived: {out}");
    assert!(out.contains("hi"));
}

#[test]
fn sanitize_adds_rel_to_links() {
    let out = sanitize("<a href=\"https://example.com\">x</a>", None);
    assert!(out.contains("noopener"), "link rel missing: {out}");
}

#[test]
fn first_image_returns_the_first_absolute_img() {
    let html = r#"<p>intro</p><img src="https://ex.com/a.png"><img src="https://ex.com/b.png">"#;
    assert_eq!(first_image(html).as_deref(), Some("https://ex.com/a.png"));
}

#[test]
fn first_image_skips_unusable_sources() {
    assert_eq!(first_image(r#"<img src="/local.png">"#), None);
    assert_eq!(first_image(r#"<img src="data:image/png;base64,AAAA">"#), None);
    assert_eq!(first_image("<p>no images here</p>"), None);
    assert_eq!(first_image(""), None);
}

#[test]
fn first_image_falls_through_relative_to_next_absolute() {
    let html = r#"<img src="/rel.png"><img src="https://ex.com/real.jpg">"#;
    assert_eq!(first_image(html).as_deref(), Some("https://ex.com/real.jpg"));
}

#[test]
fn usable_sources_are_chosen_from_what_was_selected() {
    let sources = vec![None, Some("//x".to_string()), Some(" https://e.x/i ".to_string())];
    assert_eq!(first_usable_source(&sources).as_deref(), Some("https://e.x/i"));
    assert_eq!(first_usable_source(&vec![None]), None);
}

#[test]
fn sanitize_marks_images_no_referrer() {
    let out = sanitize(r#"<img src="https://wx1.sinaimg.cn/a.jpg">"#, None);
    assert!(
        out.contains(r#"referrerpolicy="no-referrer""#),
        "img missing no-referrer policy: {out}"
    );
}

#[test]
fn sanitize_rewrites_relative_urls_against_base() {
    let out = sanitize("<img src=\"/pic.png\">", Some("https://example.com/post/"));
    assert!(
        out.contains("https://example.com/pic.png"),
        "relative URL not rewritten: {out}"
    );
}

#[test]
fn sanitize_takes_an_unreadable_base_for_none() {
    let html = "<img src=\"https://a.b/pic.png\">";
    assert_eq!(sanitize(html, Some("not a url")), sanitize(html, None));
}

#[test]
fn escaping_covers_the_five_characters() {
    assert_eq!(escape_html("<a href=\"x\">'&'</a>"), "&lt;a href=&quot;x&quot;&gt;&#39;&amp;&#39;&lt;/a&gt;");
    assert_eq!(escape_html("plain"), "plain");
}

#[test]
fn every_link_and_image_carries_its_attribute() {
    let html = "<a>x</a><a rel=\"opener\" href=\"https://e.x/>?a=1\">y</a>\
                <img alt=\"a > b\" referrerpolicy=\"unsafe-url\"><abbr>z</abbr>";
    let out = sanitize(html, None);
    assert!(!out.contains("<a>"));
    let tags = |start: &str| -> Vec<String> {
        out.match_indices(start)
            .map(|(i, _)| out[i..].split('>').next().unwrap().to_string())
            .collect()
    };
    assert_eq!(tags("<a ").len(), 2);
    for tag in tags("<a ") {
        assert!(tag.contains(" rel=\"noopener noreferrer nofollow\""), "{tag}");
    }
    assert_eq!(tags("<img").len(), 1);
    for tag in tags("<img") {
        assert!(tag.contains(" referrerpolicy=\"no-referrer\""), "{tag}");
    }
}

#[test]
fn only_whitelisted_attributes_are_left() {
    let html = "<p onclick=\"a\" title='on x=\"y\" onload=z' lang=en style=\"b\">t</p>\
                <img src=\"https://e.x/i.png\" ONERROR=\"c\" loading=\"lazy\" alt=\" onfocus=d\">\
                <svg><a xlink:href=\"https://e.x\" onclick=\"e\">s</a></svg>";
    let out = sanitize(html, None);
    let mut names: Vec<String> = Vec::new();
    let mut in_tag = false;
    let mut quoted = false;
    for (i, c) in out.char_indices() {
        match c {
            '<' => in_tag = true,
            '>' => in_tag = false,
            '"' if in_tag => quoted = !quoted,
            ' ' if in_tag && !quoted => {
                names.push(out[i + 1..].split('=').next().unwrap().to_string());
            }
            _ => {}
        }
    }
    names.sort();
    assert_eq!(names, vec!["alt", "lang", "loading", "referrerpolicy", "src", "title"], "{out}");
}

#[test]
fn with_a_base_no_address_is_relative() {
    let html = "<img src=\"/a?b:c\"><a href=\"x/y\">1</a><a href=\"#f\">2</a><a href=\"//h.x\">3</a>\
                <a href=\" https://e.x/z \">4</a>";
    let out = sanitize(html, Some("https://example.com/post/"));
    for start in [" src=\"", " href=\""] {
        for (i, _) in out.match_indices(start) {
            let value = out[i + start.len()..].split('"').next().unwrap();
            let head = value.split(['/', '?', '#']).next().unwrap();
            assert!(head.contains(':'), "{value}");
        }
    }
    for address in ["https://example.com/a?b:c", "https://example.com/post/x/y", "https://h.x/"] {
        assert!(out.contains(address), "{out}");
    }
}
