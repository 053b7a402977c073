use papr::error::{AppError, AppResult};
use papr::opml::{ImportAction, ImportEvent, OpmlFeed, OpmlImport};

fn feed(url: &str, folder: Option<&str>) -> OpmlFeed {
    OpmlFeed {
        feed_url: url.to_string(),
        title: format!("title of {url}"),
        folder: folder.map(String::from),
    }
}

fn import(feeds: Vec<OpmlFeed>, known: &[&str], log: &mut Vec<String>) -> AppResult<usize> {
    let (mut state, mut action) = OpmlImport::start(feeds);
    loop {
        let event = match action {
            ImportAction::Find { feed_url } => ImportEvent::Found(known.contains(&feed_url.as_str())),
            ImportAction::ResolveFolder { name } => {
                log.push(format!("folder {name}"));
                ImportEvent::Folder(5)
            }
            ImportAction::Insert { feed_url, title, folder_id } => {
                log.push(format!("insert {feed_url} {title} {folder_id:?}"));
                ImportEvent::Done
            }
            ImportAction::Commit => {
                log.push("commit".to_string());
                ImportEvent::Done
            }
            ImportAction::Stop(result) => return result,
        };
        let next = state.step(event);
        state = next.0;
        action = next.1;
    }
}

#[test]
fn unknown_feeds_are_stored_and_counted() {
    let mut log = Vec::new();
    let feeds = vec![feed("a", None), feed("b", Some("News")), feed("c", None)];
    assert_eq!(import(feeds, &["a"], &mut log).unwrap(), 2);
    assert_eq!(log, vec![
        "folder News",
        "insert b title of b Some(5)",
        "insert c title of c None",
        "commit",
    ]);
}

#[test]
fn an_empty_list_is_committed() {
    let mut log = Vec::new();
    assert_eq!(import(vec![], &[], &mut log).unwrap(), 0);
    assert_eq!(log, vec!["commit"]);
}

#[test]
fn a_failure_ends_the_import() {
    let (state, _) = OpmlImport::start(vec![feed("a", None)]);
    let (_, action) = state.step(ImportEvent::Failed(AppError::other("disk full".to_string())));
    match action {
        ImportAction::Stop(Err(AppError::Other(m))) => assert_eq!(m, "disk full"),
        _ => panic!("the failure must be reported"),
    }
}

#[test]
fn a_repeated_feed_counts_once_and_a_second_import_adds_nothing() {
    let mut stored: Vec<String> = vec!["a".to_string()];
    for expected in [2, 0] {
        let feeds = vec![feed("a", None), feed("b", None), feed("b", Some("X")), feed("c", None)];
        let (mut state, mut action) = OpmlImport::start(feeds);
        let count = loop {
            let event = match action {
                ImportAction::Find { feed_url } => ImportEvent::Found(stored.contains(&feed_url)),
                ImportAction::ResolveFolder { .. } => ImportEvent::Folder(5),
                ImportAction::Insert { feed_url, .. } => {
                    stored.push(feed_url);
                    ImportEvent::Done
                }
                ImportAction::Commit => ImportEvent::Done,
                ImportAction::Stop(result) => break result.unwrap(),
            };
            let next = state.step(event);
            state = next.0;
            action = next.1;
        };
        assert_eq!(count, expected);
        assert_eq!(stored, vec!["a", "b", "c"]);
    }
}
