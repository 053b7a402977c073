use papr::error::{AppError, AppResult};
use papr::settings::{Settings, Stored};
use papr::subscribe::{
    choose_icon, draft_feed, host_of_site, AddFeed, AddFeedAction, AddFeedEvent, Feed, Normalized,
    ParsedFeed, SourceType,
};

fn parsed(title: Option<&str>, site: Option<&str>, icon: Option<&str>) -> ParsedFeed {
    ParsedFeed {
        title: title.map(String::from),
        site_url: site.map(String::from),
        description: None,
        icon: icon.map(String::from),
    }
}

/// A world in which every URL is handled the same way.
struct World {
    normalized: Option<Normalized>,
    channel: Option<String>,
    is_feed: bool,
    candidates: Vec<String>,
    head: Option<ParsedFeed>,
    known: bool,
    log: Vec<String>,
}

impl World {
    fn new(normalized: Normalized) -> World {
        World {
            normalized: Some(normalized),
            channel: None,
            is_feed: true,
            candidates: Vec::new(),
            head: Some(parsed(Some("Title"), Some("https://site.example/x"), None)),
            known: false,
            log: Vec::new(),
        }
    }

    fn subscribe(&mut self, url: &str, settings: &Settings) -> AppResult<Feed> {
        let (mut state, mut action) = AddFeed::start(url, Some(9), settings);
        loop {
            let event = match action {
                AddFeedAction::Normalize { url } => {
                    self.log.push(format!("normalize {url}"));
                    AddFeedEvent::Normalized(self.normalized.take().unwrap())
                }
                AddFeedAction::ResolveChannel { page_url } => {
                    self.log.push(format!("resolve {page_url}"));
                    AddFeedEvent::Channel(self.channel.take())
                }
                AddFeedAction::Fetch { url } => {
                    self.log.push(format!("fetch {url}"));
                    AddFeedEvent::Document { final_url: format!("{url}#final"), is_feed: self.is_feed }
                }
                AddFeedAction::Discover { page_url } => {
                    self.log.push(format!("discover {page_url}"));
                    AddFeedEvent::Candidates(self.candidates.clone())
                }
                AddFeedAction::Parse { base } => {
                    self.log.push(format!("parse {base}"));
                    AddFeedEvent::Parsed(self.head.take().unwrap())
                }
                AddFeedAction::Classify { feed_url } => {
                    self.log.push(format!("classify {feed_url}"));
                    AddFeedEvent::Kind(SourceType::Other("podcast"))
                }
                AddFeedAction::Find { feed_url } => {
                    self.log.push(format!("find {feed_url}"));
                    AddFeedEvent::Found(self.known)
                }
                AddFeedAction::Insert { draft, folder_id } => {
                    self.log.push(format!("insert {} {:?}", draft.feed_url, folder_id));
                    AddFeedEvent::Inserted(42)
                }
                AddFeedAction::SetIcon { id, favicon_url } => {
                    self.log.push(format!("icon {id} {favicon_url}"));
                    AddFeedEvent::Done
                }
                AddFeedAction::StoreArticles { id } => {
                    self.log.push(format!("articles {id}"));
                    AddFeedEvent::Done
                }
                AddFeedAction::Count { id } => {
                    self.log.push(format!("count {id}"));
                    AddFeedEvent::Counted { last_fetched_at: Some(1), unread: 3 }
                }
                AddFeedAction::Stop(result) => return result,
            };
            let next = state.step(event);
            state = next.0;
            action = next.1;
        }
    }
}

fn code(r: AppResult<Feed>) -> &'static str {
    match r {
        Err(AppError::Code(c)) => c,
        _ => panic!("a localisable error"),
    }
}

#[test]
fn a_feed_url_is_classified_and_stored() {
    let mut world = World::new(Normalized::Untouched);
    let feed = world.subscribe("https://e.x/feed", &Settings::new()).unwrap();
    assert_eq!(feed.id, 42);
    assert_eq!(feed.feed_url, "https://e.x/feed#final");
    assert_eq!(feed.title, "Title");
    assert_eq!(feed.folder_id, Some(9));
    assert!(matches!(feed.source_type, SourceType::Other("podcast")));
    assert_eq!(feed.last_fetched_at, Some(1));
    assert_eq!(feed.fetch_error, None);
    assert_eq!(feed.unread_count, 3);
    assert_eq!(
        feed.favicon_url.as_deref(),
        Some("https://www.google.com/s2/favicons?domain=site.example&sz=64")
    );
    assert_eq!(world.log, vec![
        "normalize https://e.x/feed",
        "fetch https://e.x/feed",
        "parse https://e.x/feed#final",
        "classify https://e.x/feed#final",
        "find https://e.x/feed#final",
        "insert https://e.x/feed#final Some(9)",
        "icon 42 https://www.google.com/s2/favicons?domain=site.example&sz=64",
        "articles 42",
        "count 42",
    ]);
}

#[test]
fn a_page_is_searched_for_its_first_feed() {
    let mut world = World::new(Normalized::Untouched);
    world.is_feed = false;
    world.candidates = vec!["https://e.x/a".to_string(), "https://e.x/b".to_string()];
    let feed = world.subscribe("https://e.x", &Settings::new()).unwrap();
    assert_eq!(feed.feed_url, "https://e.x/a");
    assert!(world.log.contains(&"discover https://e.x#final".to_string()));
    assert!(world.log.contains(&"parse https://e.x/a".to_string()));
}

#[test]
fn a_page_without_feeds_is_refused() {
    let mut world = World::new(Normalized::Untouched);
    world.is_feed = false;
    assert_eq!(code(world.subscribe("https://e.x", &Settings::new())), "noFeedFound");
    assert!(!world.log.iter().any(|l| l.starts_with("insert")));
}

#[test]
fn a_pinned_kind_is_not_classified() {
    let mut world = World::new(Normalized::Feed {
        url: "https://r.x/.rss".to_string(),
        source_type: SourceType::Other("reddit"),
    });
    let feed = world.subscribe("https://r.x", &Settings::new()).unwrap();
    assert!(matches!(feed.source_type, SourceType::Other("reddit")));
    assert!(!world.log.iter().any(|l| l.starts_with("classify")));
}

#[test]
fn a_youtube_page_is_resolved() {
    let page = || Normalized::NeedsYoutubeResolution { page_url: "https://y.t/@x".to_string() };
    let mut world = World::new(page());
    world.channel = Some("https://y.t/feed".to_string());
    let feed = world.subscribe("y.t/@x", &Settings::new()).unwrap();
    assert!(matches!(feed.source_type, SourceType::Youtube));
    assert_eq!(feed.feed_url, "https://y.t/feed#final");
    let mut lost = World::new(page());
    assert_eq!(code(lost.subscribe("y.t/@x", &Settings::new())), "youtubeChannelNotFound");
}

#[test]
fn an_rsshub_route_is_fetched_through_the_instance_and_stored_without_it() {
    let mut settings = Settings::new();
    settings.record("rsshub_instance", Stored::Value("my.host/".to_string()));
    let mut world = World::new(Normalized::Untouched);
    world.is_feed = false;
    let feed = world.subscribe(" RSSHUB:///a/b ", &settings).unwrap();
    assert_eq!(feed.feed_url, "rsshub://a/b");
    assert!(matches!(feed.source_type, SourceType::Rss));
    assert_eq!(world.log[0], "fetch https://my.host/a/b");
    assert_eq!(world.log[1], "parse https://my.host/a/b#final");

    let mut public = World::new(Normalized::Untouched);
    let mut broken = Settings::new();
    broken.record("rsshub_instance", Stored::Unreadable("locked".to_string()));
    public.subscribe("rsshub://a/b", &broken).unwrap();
    assert_eq!(public.log[0], "fetch https://rsshub.app/a/b");
}

#[test]
fn a_known_feed_is_refused_before_anything_is_stored() {
    let mut world = World::new(Normalized::Untouched);
    world.known = true;
    assert_eq!(code(world.subscribe("https://e.x/f", &Settings::new())), "alreadySubscribed");
    assert!(!world.log.iter().any(|l| l.starts_with("insert")));
}

#[test]
fn a_failed_action_ends_the_subscription() {
    let (state, _) = AddFeed::start("https://e.x", None, &Settings::new());
    let (_, action) = state.step(AddFeedEvent::Failed(AppError::other("offline".to_string())));
    match action {
        AddFeedAction::Stop(Err(AppError::Other(m))) => assert_eq!(m, "offline"),
        _ => panic!("the failure must be reported"),
    }
}

#[test]
fn an_untitled_feed_is_called_by_its_url() {
    let draft = draft_feed("https://e.x/f".to_string(), parsed(Some(""), None, None), SourceType::Rss);
    assert_eq!(draft.title, "https://e.x/f");
    assert_eq!(draft.favicon_url, None);
    let own = draft_feed(
        "https://e.x/f".to_string(),
        parsed(None, Some("https://e.x"), Some("https://e.x/i.png")),
        SourceType::Rss,
    );
    assert_eq!(own.favicon_url.as_deref(), Some("https://e.x/i.png"));
}

#[test]
fn a_site_without_a_host_has_no_icon() {
    assert_eq!(host_of_site(&Some("https://User@Sub.Example.com:8080/p".to_string())).as_deref(), Some("sub.example.com"));
    assert_eq!(host_of_site(&Some("mailto:a@b.c".to_string())), None);
    assert_eq!(host_of_site(&Some("no url".to_string())), None);
    assert_eq!(host_of_site(&None), None);
    assert_eq!(
        choose_icon(&None, &Some("h.x".to_string())).as_deref(),
        Some("https://www.google.com/s2/favicons?domain=h.x&sz=64")
    );
    assert_eq!(choose_icon(&None, &None), None);
}
