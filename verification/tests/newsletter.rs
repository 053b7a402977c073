use papr::error::{AppError, AppResult};
use papr::newsletter::{
    list_newsletter_sources, newsletter_config, AddNewsletter, NewsletterAction, NewsletterEvent,
    NewsletterInput, NewsletterRow,
};
use papr::subscribe::{Feed, SourceType};

fn input() -> NewsletterInput {
    NewsletterInput {
        title: None,
        host: " imap.e.x ".to_string(),
        port: 993,
        username: " me@e.x ".to_string(),
        password: " p w ".to_string(),
        folder: "  ".to_string(),
    }
}

/// Adds the mailbox; the poll gives an event, and each message gives one of the answers.
fn add(input: NewsletterInput, known: bool, poll: NewsletterEvent, fresh: &[bool]) -> AppResult<Feed> {
    let mut poll = Some(poll);
    let (mut state, mut action) = AddNewsletter::start(input);
    loop {
        let event = match action {
            NewsletterAction::Name { config } => {
                NewsletterEvent::Named(format!("imap://{}@{}/{}", config.username, config.host, config.folder))
            }
            NewsletterAction::Find { .. } => NewsletterEvent::Found(known),
            NewsletterAction::Poll { .. } => poll.take().unwrap(),
            NewsletterAction::Insert { config, .. } => {
                assert_eq!(config.password, " p w ");
                NewsletterEvent::Inserted(8)
            }
            NewsletterAction::Ingest { id, index } => {
                assert_eq!(id, 8);
                NewsletterEvent::Ingested(fresh[index as usize])
            }
            NewsletterAction::Record { .. } => NewsletterEvent::Recorded { last_fetched_at: Some(2) },
            NewsletterAction::Stop(result) => return result,
        };
        let next = state.step(event);
        state = next.0;
        action = next.1;
    }
}

fn code(r: AppResult<Feed>) -> &'static str {
    match r {
        Err(AppError::Code(c)) => c,
        _ => panic!("a localisable error"),
    }
}

#[test]
fn typed_fields_are_normalised() {
    let (config, title) = newsletter_config(input()).unwrap_or_else(|_| panic!("complete"));
    assert_eq!(config.host, "imap.e.x");
    assert_eq!(config.port, 993);
    assert_eq!(config.username, "me@e.x");
    assert_eq!(config.password, " p w ");
    assert_eq!(config.folder, "INBOX");
    assert_eq!(title, "me@e.x");
    let mut named = input();
    named.title = Some(" Weekly ".to_string());
    named.folder = " News ".to_string();
    let (config, title) = newsletter_config(named).unwrap_or_else(|_| panic!("complete"));
    assert_eq!(config.folder, "News");
    assert_eq!(title, "Weekly");
}

#[test]
fn missing_fields_are_refused() {
    for field in 0..3 {
        let mut i = input();
        match field {
            0 => i.host = " ".to_string(),
            1 => i.username = String::new(),
            _ => i.password = String::new(),
        }
        assert_eq!(code(add(i, false, NewsletterEvent::TimedOut, &[])), "newsletterMissingFields");
    }
}

#[test]
fn a_polled_mailbox_is_stored_with_its_unread_count() {
    let feed = add(input(), false, NewsletterEvent::Polled(4), &[true, false, true, true]).unwrap();
    assert_eq!(feed.id, 8);
    assert_eq!(feed.feed_url, "imap://me@e.x@imap.e.x/INBOX");
    assert_eq!(feed.title, "me@e.x");
    assert_eq!(feed.unread_count, 3);
    assert_eq!(feed.last_fetched_at, Some(2));
    assert!(matches!(feed.source_type, SourceType::Newsletter));
    let empty = add(input(), false, NewsletterEvent::Polled(0), &[]).unwrap();
    assert_eq!(empty.unread_count, 0);
}

#[test]
fn a_known_mailbox_is_refused() {
    assert_eq!(code(add(input(), true, NewsletterEvent::Polled(1), &[true])), "alreadySubscribed");
}

#[test]
fn polls_that_hang_or_break_are_reported() {
    assert_eq!(code(add(input(), false, NewsletterEvent::TimedOut, &[])), "newsletterPollTimeout");
    match add(input(), false, NewsletterEvent::Broken("panicked".to_string()), &[]) {
        Err(AppError::Other(m)) => assert_eq!(m, "newsletter poll task: panicked"),
        _ => panic!("the breakdown must be reported"),
    }
    let login = NewsletterEvent::Failed(AppError::other("login".to_string()));
    assert!(matches!(add(input(), false, login, &[]), Err(AppError::Other(_))));
}

#[test]
fn sources_are_listed_in_order() {
    let row = |id: i64| NewsletterRow {
        feed_id: id,
        title: format!("t{id}"),
        host: "h".to_string(),
        port: 1,
        username: "u".to_string(),
        password: "secret".to_string(),
        folder: "f".to_string(),
    };
    let sources = list_newsletter_sources(&vec![row(1), row(2)]);
    assert_eq!(sources.len(), 2);
    assert_eq!((sources[1].feed_id, sources[1].title.as_str(), sources[1].port), (2, "t2", 1));
}
