use papr::error::{AppError, AppResult};
use papr::prompts::{
    ai_ask, ai_digest, ai_summarize, ai_translate, load_ai_config, response_language,
    summary_to_keep, target_language, truncate, Chat, DigestItem, Hit,
};
use papr::settings::{require_setting, Settings, Stored};
use papr::sse::ChatOutcome;

const MODEL: &str = "stock-model-1";

fn with_key(entries: &[(&str, &str)]) -> Settings {
    let mut s = Settings::new();
    s.record("ai_api_key", Stored::Value("k".to_string()));
    for (k, v) in entries {
        s.record(k, Stored::Value(v.to_string()));
    }
    s
}

fn chat(r: AppResult<Chat>) -> Chat {
    r.unwrap_or_else(|_| panic!("a chat"))
}

#[test]
fn truncation_counts_characters() {
    assert_eq!(truncate("héllo", 2), "hé");
    assert_eq!(truncate("hé", 9), "hé");
    assert_eq!(truncate("", 0), "");
}

#[test]
fn languages_follow_the_setting() {
    let zh = with_key(&[("language", "zh")]);
    let ja = with_key(&[("language", "ja")]);
    let fr = with_key(&[("language", "fr")]);
    assert_eq!(response_language(&zh), "\n\nAlways write your response in Simplified Chinese.");
    assert_eq!(response_language(&ja), "\n\nAlways write your response in Japanese.");
    assert_eq!(response_language(&fr), "\n\nAlways write your response in English.");
    assert_eq!(target_language(&zh), "Simplified Chinese");
    assert_eq!(target_language(&ja), "Japanese");
    assert_eq!(target_language(&Settings::new()), "English");
    let mut locked = Settings::new();
    locked.record("language", Stored::Unreadable("locked".to_string()));
    assert_eq!(target_language(&locked), "English");
}

#[test]
fn the_configuration_is_read_strictly() {
    let none = load_ai_config(&Settings::new(), MODEL);
    assert!(matches!(none, Err(AppError::Code("noAiKey"))));
    let mut locked = with_key(&[]);
    locked.record("ai_base_url", Stored::Unreadable("locked".to_string()));
    match load_ai_config(&locked, MODEL) {
        Err(AppError::Other(m)) => assert_eq!(m, "locked"),
        _ => panic!("the read error must be reported"),
    }
    let cfg = load_ai_config(&with_key(&[("ai_provider", "openai"), ("ai_model", "m")]), MODEL)
        .unwrap_or_else(|_| panic!("configured"));
    assert_eq!(cfg.model, "m");
}

#[test]
fn a_summary_needs_a_body() {
    let refused = ai_summarize("T", " \n", &with_key(&[]), MODEL);
    assert!(matches!(refused, Err(AppError::Code("noArticleBody"))));
    let unconfigured = ai_summarize("T", " \n", &Settings::new(), MODEL);
    assert!(matches!(unconfigured, Err(AppError::Code("noAiKey"))));
    let c = chat(ai_summarize("T", &"x".repeat(9000), &with_key(&[("language", "ja")]), MODEL));
    assert!(c.prompt.system.starts_with("You are a sharp news editor. Summarize the article so a reader can decide"));
    assert!(c.prompt.system.contains("**TL;DR** — One sentence"));
    assert!(c.prompt.system.ends_with("in Japanese."));
    assert_eq!(c.prompt.user, format!("Title: T\n\n{}", "x".repeat(8000)));
    assert_eq!(c.prompt.max_tokens, 1024);
}

#[test]
fn only_complete_summaries_are_kept() {
    let outcome = |text: &str, completed: bool| ChatOutcome { text: text.to_string(), completed };
    assert_eq!(summary_to_keep(&outcome(" s \n", true)).as_deref(), Some("s"));
    assert_eq!(summary_to_keep(&outcome("s", false)), None);
    assert_eq!(summary_to_keep(&outcome(" ", true)), None);
}

#[test]
fn a_question_carries_its_articles() {
    let hits = vec![Hit {
        title: "T".to_string(),
        feed_title: "F".to_string(),
        body: "b".repeat(1300),
    }];
    let c = chat(ai_ask("why?", &hits, &with_key(&[]), MODEL));
    assert_eq!(
        c.prompt.user,
        format!("Articles from the user's feeds:\n\n## T — F\n{}\n\n---\n\nQuestion: why?", "b".repeat(1200))
    );
    let none = chat(ai_ask("why?", &vec![], &with_key(&[]), MODEL));
    assert_eq!(none.prompt.user, "No relevant articles were found.\n\nQuestion: why?");
    assert!(matches!(ai_ask("q", &vec![], &Settings::new(), MODEL), Err(AppError::Code("noAiKey"))));
}

#[test]
fn a_digest_needs_articles() {
    let refused = ai_digest(&vec![], &with_key(&[]), MODEL);
    assert!(matches!(refused, Err(AppError::Code("noArticles"))));
    let items = vec![
        DigestItem { title: "A".to_string(), feed: "F".to_string(), text: "t".repeat(500) },
        DigestItem { title: "B".to_string(), feed: "G".to_string(), text: "u".to_string() },
    ];
    let c = chat(ai_digest(&items, &with_key(&[]), MODEL));
    assert_eq!(
        c.prompt.user,
        format!("Recent articles from my feeds:\n\n- [F] A: {}\n- [G] B: u\n", "t".repeat(400))
    );
    assert!(c.prompt.system.contains("group related items into 2-4 themed sections"));
}

#[test]
fn a_translation_names_the_language_twice() {
    let c = chat(ai_translate("T", "body", &with_key(&[("language", "zh")]), MODEL));
    assert!(c.prompt.system.contains("provides into Simplified Chinese, including its title."));
    assert!(c.prompt.system.ends_with("already in Simplified Chinese, leave it unchanged."));
    assert_eq!(c.prompt.user, "# T\n\nbody");
    assert_eq!(c.prompt.max_tokens, 8192);
    let refused = ai_translate("T", "", &with_key(&[]), MODEL);
    assert!(matches!(refused, Err(AppError::Code("noArticleBody"))));
}

#[test]
fn the_latest_answer_counts() {
    let mut s = Settings::new();
    s.record("a", Stored::Value("1".to_string()));
    s.record("a", Stored::Value("2".to_string()));
    assert_eq!(s.value("a"), Some("2"));
    s.record("a", Stored::Missing);
    assert_eq!(s.value("a"), None);
    assert!(!s.configured("a"));
}

#[test]
fn required_settings_are_not_blank() {
    let mut s = Settings::new();
    s.record("a", Stored::Value(" v ".to_string()));
    s.record("b", Stored::Value(" ".to_string()));
    s.record("c", Stored::Unreadable("locked".to_string()));
    match require_setting(&s, "a", "noA") {
        Ok(v) => assert_eq!(v, " v "),
        Err(_) => panic!("the setting is there"),
    }
    assert!(matches!(require_setting(&s, "b", "noB"), Err(AppError::Code("noB"))));
    assert!(matches!(require_setting(&s, "d", "noD"), Err(AppError::Code("noD"))));
    assert!(matches!(require_setting(&s, "c", "noC"), Err(AppError::Other(m)) if m == "locked"));
}
