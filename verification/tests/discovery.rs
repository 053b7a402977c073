use papr::discovery::{
    search_feed_directory, DiscoveryResult, FeedSearch, Scrape, SearchAction, SearchEvent,
};

fn hit(url: &str, entry: usize) -> DiscoveryResult {
    DiscoveryResult { feed_url: url.to_string(), title: Some(url.to_string()), entry: Some(entry) }
}

fn urls(results: &[DiscoveryResult]) -> Vec<&str> {
    results.iter().map(|r| r.feed_url.as_str()).collect()
}

#[test]
fn scrape_results_come_before_the_directory() {
    let scrape = Scrape::Page { feed_urls: vec!["b".to_string(), "x".to_string()] };
    let hits = vec![hit("a", 0), hit("b", 1), hit("c", 2), hit("a", 3)];
    let results = search_feed_directory(scrape, &hits);
    assert_eq!(urls(&results), vec!["b", "x", "a", "c"]);
    assert_eq!(results[0].entry, None);
    assert_eq!(results[0].title, None);
    assert_eq!(results[2].entry, Some(0));
    assert_eq!(results[2].title.as_deref(), Some("a"));
}

#[test]
fn a_pasted_feed_is_surfaced_with_its_title() {
    let scrape = Scrape::Feed { final_url: "f".to_string(), title: Some("F".to_string()) };
    let results = search_feed_directory(scrape, &vec![hit("f", 0)]);
    assert_eq!(urls(&results), vec!["f"]);
    assert_eq!(results[0].title.as_deref(), Some("F"));
}

#[test]
fn a_failed_scrape_leaves_the_directory_matches() {
    let results = search_feed_directory(Scrape::Nothing, &vec![hit("a", 0), hit("b", 1)]);
    assert_eq!(urls(&results), vec!["a", "b"]);
    assert!(search_feed_directory(Scrape::Nothing, &vec![]).is_empty());
}

/// Runs a search in which the page is answered with `page`.
fn search(target: Option<&str>, page: SearchEvent, log: &mut Vec<String>) -> Vec<String> {
    let mut page = Some(page);
    let (mut state, mut action) = FeedSearch::start(target.map(String::from));
    loop {
        let event = match action {
            SearchAction::Fetch { url } => {
                log.push(format!("fetch {url}"));
                page.take().unwrap()
            }
            SearchAction::ReadTitle { base } => {
                log.push(format!("title {base}"));
                SearchEvent::Title(Some("T".to_string()))
            }
            SearchAction::Discover { page_url } => {
                log.push(format!("discover {page_url}"));
                SearchEvent::Candidates(vec!["b".to_string()])
            }
            SearchAction::SearchDirectory => SearchEvent::Hits(vec![hit("a", 0), hit("b", 1)]),
            SearchAction::Stop(results) => {
                return results.iter().map(|r| format!("{} {:?}", r.feed_url, r.title)).collect();
            }
        };
        let next = state.step(event);
        state = next.0;
        action = next.1;
    }
}

#[test]
fn a_search_follows_the_page_to_its_feeds() {
    let document = |is_feed| SearchEvent::Document { final_url: "f".to_string(), is_feed };
    let mut log = Vec::new();
    let feed = search(Some("u"), document(true), &mut log);
    assert_eq!(feed, vec!["f Some(\"T\")", "a Some(\"a\")", "b Some(\"b\")"]);
    let page = search(Some("u"), document(false), &mut log);
    assert_eq!(page, vec!["b None", "a Some(\"a\")"]);
    assert_eq!(log, vec!["fetch u", "title f", "fetch u", "discover f"]);
}

#[test]
fn an_unreachable_page_leaves_the_directory() {
    let mut log = Vec::new();
    let results = search(Some("u"), SearchEvent::Unreachable, &mut log);
    assert_eq!(results, vec!["a Some(\"a\")", "b Some(\"b\")"]);
    assert_eq!(search(None, SearchEvent::Unreachable, &mut log), results);
    assert_eq!(log, vec!["fetch u"]);
}
