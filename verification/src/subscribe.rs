//! Subscribing to a feed.
//!
//! A pasted URL is sorted, fetched, searched for a feed where it is a page, parsed and stored.
//! [`AddFeed`] holds the decisions: whoever drives it performs each [`AddFeedAction`] and hands back
//! what came of it as an [`AddFeedEvent`].

use crate::error::{AppError, AppErrorView, AppResult};
use crate::rsshub::{
    canonical, canonical_form, expand, expanded, is_rsshub, is_rsshub_url, DEFAULT_INSTANCE,
    INSTANCE_SETTING,
};
use crate::sanitize::{parse_url, parsed_url};
use crate::settings::{value_of, Settings, StoredView};
use crate::text::option_text;
use vstd::prelude::*;

verus! {

// --------------------------------------------------------------------- the data

/// What kind of source a feed is.
#[derive(Debug, Clone, Copy)]
pub enum SourceType {
    Rss,
    Youtube,
    Newsletter,
    /// Any other kind, by the name under which it is stored.
    Other(&'static str),
}

/// What a pasted URL turned out to be.
pub enum Normalized {
    /// A known special source, rewritten to its real feed URL.
    Feed { url: String, source_type: SourceType },
    /// A YouTube vanity URL: the channel page says which channel it is.
    NeedsYoutubeResolution { page_url: String },
    /// Nothing special.
    Untouched,
}

/// The head of a parsed feed document.
pub struct ParsedFeed {
    pub title: Option<String>,
    pub site_url: Option<String>,
    pub description: Option<String>,
    pub icon: Option<String>,
}

/// A feed that is about to be stored.
pub struct Draft {
    pub feed_url: String,
    pub site_url: Option<String>,
    pub title: String,
    pub description: Option<String>,
    pub favicon_url: Option<String>,
    pub source_type: SourceType,
}

/// A stored feed.
pub struct Feed {
    pub id: i64,
    pub feed_url: String,
    pub site_url: Option<String>,
    pub title: String,
    pub description: Option<String>,
    pub favicon_url: Option<String>,
    pub folder_id: Option<i64>,
    pub source_type: SourceType,
    pub last_fetched_at: Option<i64>,
    pub fetch_error: Option<String>,
    pub unread_count: i64,
}

fn copy_of(o: &Option<String>) -> (r: Option<String>)
    ensures
        r == *o,
{
    match o {
        Some(s) => Some(s.clone()),
        None => None,
    }
}

impl Draft {
    fn copy(&self) -> (r: Draft)
        ensures
            r == *self,
    {
        Draft {
            feed_url: self.feed_url.clone(),
            site_url: copy_of(&self.site_url),
            title: self.title.clone(),
            description: copy_of(&self.description),
            favicon_url: copy_of(&self.favicon_url),
            source_type: self.source_type,
        }
    }
}

// ------------------------------------------------------------------ the favicon

/// The host that `url::Url::host_str` gives of a URL, if it has one.
pub uninterp spec fn host_text(u: url::Url) -> Option<Seq<char>>;

/// `url::Url::host_str` gives the host of a URL in its serialised form, and nothing for a URL
/// without a host. It depends on the URL alone and is named by [`host_text`].
#[verifier::external_body]
fn host_of(u: &url::Url) -> (r: Option<String>)
    ensures
        option_text(r) == host_text(*u),
{
    u.host_str().map(String::from)
}

/// The address of the icon of a host.
pub open spec fn icon_address(host: Seq<char>) -> Seq<char> {
    "https://www.google.com/s2/favicons?domain="@ + host + "&sz=64"@
}

/// The icon of a feed: its own, or that of the host of its site.
pub open spec fn chosen_icon(icon: Option<Seq<char>>, host: Option<Seq<char>>) -> Option<
    Seq<char>,
> {
    match icon {
        Some(i) => Some(i),
        None => match host {
            Some(h) => Some(icon_address(h)),
            None => None,
        },
    }
}

/// The host of the site that a feed names.
pub open spec fn site_host(site: Option<Seq<char>>) -> Option<Seq<char>> {
    match site {
        Some(s) => match parsed_url(s) {
            Some(u) => host_text(u),
            None => None,
        },
        None => None,
    }
}

/// Chooses the icon of a feed whose site has the given host.
pub fn choose_icon(icon: &Option<String>, host: &Option<String>) -> (r: Option<String>)
    ensures
        option_text(r) == chosen_icon(option_text(*icon), option_text(*host)),
{
    match icon {
        Some(i) => Some(i.clone()),
        None => match host {
            Some(h) => {
                let mut address = "https://www.google.com/s2/favicons?domain=".to_string();
                address.append(h.as_str());
                address.append("&sz=64");
                Some(address)
            },
            None => None,
        },
    }
}

/// The host of the site that a feed names.
pub fn host_of_site(site: &Option<String>) -> (r: Option<String>)
    ensures
        option_text(r) == site_host(option_text(*site)),
{
    match site {
        Some(s) => match parse_url(s.as_str()) {
            Ok(u) => host_of(&u),
            Err(_) => None,
        },
        None => None,
    }
}

// -------------------------------------------------------------------- the draft

/// The title of a feed: its own, or its URL where it has none.
pub open spec fn feed_title(title: Option<Seq<char>>, feed_url: Seq<char>) -> Seq<char> {
    match title {
        Some(t) if t.len() > 0 => t,
        _ => feed_url,
    }
}

/// `draft` is the feed at `feed_url` with the given head and kind.
pub open spec fn is_draft(
    draft: Draft,
    feed_url: Seq<char>,
    parsed: ParsedFeed,
    source_type: SourceType,
) -> bool {
    &&& draft.feed_url@ == feed_url
    &&& draft.site_url == parsed.site_url
    &&& draft.title@ == feed_title(option_text(parsed.title), feed_url)
    &&& draft.description == parsed.description
    &&& option_text(draft.favicon_url) == chosen_icon(
        option_text(parsed.icon),
        site_host(option_text(parsed.site_url)),
    )
    &&& draft.source_type == source_type
}

/// Puts together what is stored of a feed.
pub fn draft_feed(feed_url: String, parsed: ParsedFeed, source_type: SourceType) -> (r: Draft)
    ensures
        is_draft(r, feed_url@, parsed, source_type),
{
    let host = host_of_site(&parsed.site_url);
    let favicon_url = choose_icon(&parsed.icon, &host);
    let title = match parsed.title {
        Some(t) => if t.as_str().is_empty() {
            feed_url.clone()
        } else {
            t
        },
        None => feed_url.clone(),
    };
    Draft {
        feed_url,
        site_url: parsed.site_url,
        title,
        description: parsed.description,
        favicon_url,
        source_type,
    }
}

/// `feed` is what was stored of `draft`.
pub open spec fn is_stored(
    feed: Feed,
    draft: Draft,
    id: i64,
    folder_id: Option<i64>,
    last_fetched_at: Option<i64>,
    unread: i64,
) -> bool {
    &&& feed.id == id
    &&& feed.feed_url == draft.feed_url
    &&& feed.site_url == draft.site_url
    &&& feed.title == draft.title
    &&& feed.description == draft.description
    &&& feed.favicon_url == draft.favicon_url
    &&& feed.folder_id == folder_id
    &&& feed.source_type == draft.source_type
    &&& feed.last_fetched_at == last_fetched_at
    &&& feed.fetch_error is None
    &&& feed.unread_count == unread
}

/// The feed that a stored draft has become.
pub fn stored_feed(
    draft: Draft,
    id: i64,
    folder_id: Option<i64>,
    last_fetched_at: Option<i64>,
    unread: i64,
) -> (r: Feed)
    ensures
        is_stored(r, draft, id, folder_id, last_fetched_at, unread),
{
    Feed {
        id,
        feed_url: draft.feed_url,
        site_url: draft.site_url,
        title: draft.title,
        description: draft.description,
        favicon_url: draft.favicon_url,
        folder_id,
        source_type: draft.source_type,
        last_fetched_at,
        fetch_error: None,
        unread_count: unread,
    }
}

// ------------------------------------------------------------------ the machine

/// Where a subscription stands: what it waits for, and what it has settled. A kind that was pinned
/// when the URL was sorted wins over what the document looks like.
pub enum AddPhase {
    /// Waiting to learn what the pasted URL is.
    Sorting { url: String },
    /// Waiting for the feed URL of a YouTube channel.
    Resolving,
    /// Waiting for the document; a stored form is kept in place of the fetched URL.
    Fetching { pinned: Option<SourceType>, stored: Option<String> },
    /// Waiting for the feeds that a page links to.
    Discovering { pinned: Option<SourceType> },
    /// Waiting for the feed that a page links to.
    FetchingCandidate { pinned: Option<SourceType>, candidate: String },
    /// Waiting for the parsed document.
    Parsing { pinned: Option<SourceType>, feed_url: String },
    /// Waiting for the kind of the feed.
    Classifying { feed_url: String, parsed: ParsedFeed },
    /// Waiting to learn whether the feed is stored already.
    Looking { draft: Draft },
    /// Waiting for the id of the stored feed.
    Inserting { draft: Draft },
    /// Waiting for the icon to be stored.
    Decorating { draft: Draft, id: i64 },
    /// Waiting for the articles to be stored.
    Filling { draft: Draft, id: i64 },
    /// Waiting for the unread count.
    Counting { draft: Draft, id: i64 },
    /// The result has been given.
    Over,
}

/// A subscription on its way.
pub struct AddFeed {
    pub folder_id: Option<i64>,
    pub phase: AddPhase,
}

/// What happened outside.
pub enum AddFeedEvent {
    Normalized(Normalized),
    /// The feed URL of the channel that a page belongs to, if the page names one.
    Channel(Option<String>),
    /// A document arrived from `final_url`.
    Document { final_url: String, is_feed: bool },
    /// The feeds that the page links to.
    Candidates(Vec<String>),
    Parsed(ParsedFeed),
    Kind(SourceType),
    /// Whether the feed is stored already.
    Found(bool),
    Inserted(i64),
    /// What was asked for is done.
    Done,
    Counted { last_fetched_at: Option<i64>, unread: i64 },
    /// What was asked for failed.
    Failed(AppError),
}

/// What to do next.
pub enum AddFeedAction {
    /// Tell what kind of URL this is.
    Normalize { url: String },
    /// Fetch the page and read the channel from it.
    ResolveChannel { page_url: String },
    Fetch { url: String },
    /// Find the feeds that the page fetched from here links to.
    Discover { page_url: String },
    /// Parse the document; relative links resolve against `base`.
    Parse { base: String },
    /// Tell the kind of the parsed feed.
    Classify { feed_url: String },
    /// Look the feed up in the store.
    Find { feed_url: String },
    /// Store the feed.
    Insert { draft: Draft, folder_id: Option<i64> },
    /// Store the icon of the feed.
    SetIcon { id: i64, favicon_url: String },
    /// Store the articles of the feed.
    StoreArticles { id: i64 },
    /// Record the fetch and count the unread articles.
    Count { id: i64 },
    /// Stop: this is the result.
    Stop(AppResult<Feed>),
}

/// The instance through which RSSHub routes are fetched.
pub open spec fn instance_of(s: Settings) -> Seq<char> {
    match value_of(s.at(INSTANCE_SETTING@)) {
        Some(i) => i,
        None => DEFAULT_INSTANCE@,
    }
}

/// How a subscription begins: an RSSHub URL is fetched through the configured instance and stored
/// in its instance-independent form; any other URL is sorted first.
pub open spec fn begins(
    url: Seq<char>,
    folder_id: Option<i64>,
    s: Settings,
    state: AddFeed,
    action: AddFeedAction,
) -> bool {
    &&& state.folder_id == folder_id
    &&& if is_rsshub(url) {
        &&& state.phase matches AddPhase::Fetching { pinned, stored } && pinned == Some(
            SourceType::Rss,
        ) && option_text(stored) == Some(canonical_form(url))
        &&& action matches AddFeedAction::Fetch { url: u } && u@ == expanded(
            canonical_form(url),
            instance_of(s),
        )
    } else {
        &&& state.phase matches AddPhase::Sorting { url: u } && u@ == url
        &&& action matches AddFeedAction::Normalize { url: u } && u@ == url
    }
}

/// The subscription has failed with `e`.
pub open spec fn fails(after: AddFeed, action: AddFeedAction, e: AppErrorView) -> bool {
    &&& after.phase is Over
    &&& action matches AddFeedAction::Stop(Err(x)) && x@ == e
}

/// The feed is at `feed_url`; its document came from `base`.
pub open spec fn has_document(
    pinned: Option<SourceType>,
    feed_url: Seq<char>,
    base: Seq<char>,
    after: AddFeed,
    action: AddFeedAction,
) -> bool {
    &&& after.phase matches AddPhase::Parsing { pinned: p, feed_url: f } && p == pinned && f@
        == feed_url
    &&& action matches AddFeedAction::Parse { base: b } && b@ == base
}

/// The articles of a stored feed are next.
pub open spec fn fills(draft: Draft, id: i64, after: AddFeed, action: AddFeedAction) -> bool {
    &&& after.phase == AddPhase::Filling { draft, id }
    &&& action == AddFeedAction::StoreArticles { id }
}

/// What follows an event.
pub open spec fn follows(
    before: AddFeed,
    event: AddFeedEvent,
    after: AddFeed,
    action: AddFeedAction,
) -> bool {
    &&& after.folder_id == before.folder_id
    &&& match event {
        AddFeedEvent::Failed(e) => fails(after, action, e@),
        AddFeedEvent::Normalized(n) => match n {
            Normalized::Feed { url, source_type } => {
                &&& after.phase == AddPhase::Fetching { pinned: Some(source_type), stored: None }
                &&& action == AddFeedAction::Fetch { url }
            },
            Normalized::NeedsYoutubeResolution { page_url } => {
                &&& after.phase is Resolving
                &&& action == AddFeedAction::ResolveChannel { page_url }
            },
            Normalized::Untouched => {
                &&& after.phase == AddPhase::Fetching { pinned: None, stored: None }
                &&& action == AddFeedAction::Fetch { url: before.phase->Sorting_url }
            },
        },
        AddFeedEvent::Channel(None) => fails(
            after,
            action,
            AppErrorView::Code("youtubeChannelNotFound"@),
        ),
        AddFeedEvent::Channel(Some(url)) => {
            &&& after.phase == AddPhase::Fetching { pinned: Some(SourceType::Youtube), stored: None }
            &&& action == AddFeedAction::Fetch { url }
        },
        AddFeedEvent::Document { final_url, is_feed } => match before.phase {
            AddPhase::Fetching { pinned, stored: Some(kept) } => has_document(
                pinned,
                kept@,
                final_url@,
                after,
                action,
            ),
            AddPhase::Fetching { pinned, stored: None } => if is_feed {
                has_document(pinned, final_url@, final_url@, after, action)
            } else {
                &&& after.phase == AddPhase::Discovering { pinned }
                &&& action == AddFeedAction::Discover { page_url: final_url }
            },
            AddPhase::FetchingCandidate { pinned, candidate } => has_document(
                pinned,
                candidate@,
                candidate@,
                after,
                action,
            ),
            _ => true,
        },
        AddFeedEvent::Candidates(found) => if found@.len() == 0 {
            fails(after, action, AppErrorView::Code("noFeedFound"@))
        } else {
            &&& after.phase == AddPhase::FetchingCandidate {
                pinned: before.phase->Discovering_pinned,
                candidate: found@[0],
            }
            &&& action == AddFeedAction::Fetch { url: found@[0] }
        },
        AddFeedEvent::Parsed(parsed) => match before.phase->Parsing_pinned {
            Some(kind) => {
                &&& after.phase matches AddPhase::Looking { draft } && is_draft(
                    draft,
                    before.phase->Parsing_feed_url@,
                    parsed,
                    kind,
                )
                &&& action == AddFeedAction::Find { feed_url: before.phase->Parsing_feed_url }
            },
            None => {
                &&& after.phase == AddPhase::Classifying {
                    feed_url: before.phase->Parsing_feed_url,
                    parsed,
                }
                &&& action == AddFeedAction::Classify { feed_url: before.phase->Parsing_feed_url }
            },
        },
        AddFeedEvent::Kind(kind) => {
            &&& after.phase matches AddPhase::Looking { draft } && is_draft(
                draft,
                before.phase->Classifying_feed_url@,
                before.phase->Classifying_parsed,
                kind,
            )
            &&& action == AddFeedAction::Find { feed_url: before.phase->Classifying_feed_url }
        },
        AddFeedEvent::Found(true) => fails(after, action, AppErrorView::Code("alreadySubscribed"@)),
        AddFeedEvent::Found(false) => {
            &&& after.phase == AddPhase::Inserting { draft: before.phase->Looking_draft }
            &&& action == AddFeedAction::Insert {
                draft: before.phase->Looking_draft,
                folder_id: before.folder_id,
            }
        },
        AddFeedEvent::Inserted(id) => {
            let draft = before.phase->Inserting_draft;
            match draft.favicon_url {
                Some(favicon_url) => {
                    &&& after.phase == AddPhase::Decorating { draft, id }
                    &&& action == AddFeedAction::SetIcon { id, favicon_url }
                },
                None => fills(draft, id, after, action),
            }
        },
        AddFeedEvent::Done => match before.phase {
            AddPhase::Decorating { draft, id } => fills(draft, id, after, action),
            AddPhase::Filling { draft, id } => {
                &&& after.phase == AddPhase::Counting { draft, id }
                &&& action == AddFeedAction::Count { id }
            },
            _ => true,
        },
        AddFeedEvent::Counted { last_fetched_at, unread } => {
            &&& after.phase is Over
            &&& action matches AddFeedAction::Stop(Ok(feed)) && is_stored(
                feed,
                before.phase->Counting_draft,
                before.phase->Counting_id,
                before.folder_id,
                last_fetched_at,
                unread,
            )
        },
    }
}

impl AddFeed {
    /// The subscription waits for this event.
    pub open spec fn awaits(self, event: AddFeedEvent) -> bool {
        match event {
            AddFeedEvent::Normalized(_) => self.phase is Sorting,
            AddFeedEvent::Channel(_) => self.phase is Resolving,
            AddFeedEvent::Document { .. } => self.phase is Fetching
                || self.phase is FetchingCandidate,
            AddFeedEvent::Candidates(_) => self.phase is Discovering,
            AddFeedEvent::Parsed(_) => self.phase is Parsing,
            AddFeedEvent::Kind(_) => self.phase is Classifying,
            AddFeedEvent::Found(_) => self.phase is Looking,
            AddFeedEvent::Inserted(_) => self.phase is Inserting,
            AddFeedEvent::Done => self.phase is Decorating || self.phase is Filling,
            AddFeedEvent::Counted { .. } => self.phase is Counting,
            AddFeedEvent::Failed(_) => !(self.phase is Over),
        }
    }

    /// Begins a subscription to a feed URL, a website URL, a multi-source URL or an RSSHub route.
    pub fn start(url: &str, folder_id: Option<i64>, settings: &Settings) -> (r: (
        AddFeed,
        AddFeedAction,
    ))
        ensures
            begins(url@, folder_id, *settings, r.0, r.1),
    {
        if is_rsshub_url(url) {
            let instance = match settings.value(INSTANCE_SETTING) {
                Some(i) => i,
                None => DEFAULT_INSTANCE,
            };
            let kept = canonical(url);
            let target = expand(kept.as_str(), instance);
            (
                AddFeed {
                    folder_id,
                    phase: AddPhase::Fetching { pinned: Some(SourceType::Rss), stored: Some(kept) },
                },
                AddFeedAction::Fetch { url: target },
            )
        } else {
            (
                AddFeed { folder_id, phase: AddPhase::Sorting { url: url.to_string() } },
                AddFeedAction::Normalize { url: url.to_string() },
            )
        }
    }

    /// Takes the next step.
    pub fn step(self, event: AddFeedEvent) -> (r: (AddFeed, AddFeedAction))
        requires
            self.awaits(event),
        ensures
            follows(self, event, r.0, r.1),
    {
        let folder_id = self.folder_id;
        let (phase, action) = match (self.phase, event) {
            (_, AddFeedEvent::Failed(e)) => (AddPhase::Over, AddFeedAction::Stop(Err(e))),
            (AddPhase::Sorting { url: pasted }, AddFeedEvent::Normalized(n)) => match n {
                Normalized::Feed { url, source_type } => (
                    AddPhase::Fetching { pinned: Some(source_type), stored: None },
                    AddFeedAction::Fetch { url },
                ),
                Normalized::NeedsYoutubeResolution { page_url } => (
                    AddPhase::Resolving,
                    AddFeedAction::ResolveChannel { page_url },
                ),
                Normalized::Untouched => (
                    AddPhase::Fetching { pinned: None, stored: None },
                    AddFeedAction::Fetch { url: pasted },
                ),
            },
            (AddPhase::Resolving, AddFeedEvent::Channel(channel)) => match channel {
                Some(url) => (
                    AddPhase::Fetching { pinned: Some(SourceType::Youtube), stored: None },
                    AddFeedAction::Fetch { url },
                ),
                None => (
                    AddPhase::Over,
                    AddFeedAction::Stop(Err(AppError::code("youtubeChannelNotFound"))),
                ),
            },
            (
                AddPhase::Fetching { pinned, stored },
                AddFeedEvent::Document { final_url, is_feed },
            ) => match stored {
                Some(kept) => (
                    AddPhase::Parsing { pinned, feed_url: kept },
                    AddFeedAction::Parse { base: final_url },
                ),
                None => if is_feed {
                    (
                        AddPhase::Parsing { pinned, feed_url: final_url.clone() },
                        AddFeedAction::Parse { base: final_url },
                    )
                } else {
                    (
                        AddPhase::Discovering { pinned },
                        AddFeedAction::Discover { page_url: final_url },
                    )
                },
            },
            (AddPhase::Discovering { pinned }, AddFeedEvent::Candidates(found)) => if found.len()
                == 0 {
                (AddPhase::Over, AddFeedAction::Stop(Err(AppError::code("noFeedFound"))))
            } else {
                (
                    AddPhase::FetchingCandidate { pinned, candidate: found[0].clone() },
                    AddFeedAction::Fetch { url: found[0].clone() },
                )
            },
            (
                AddPhase::FetchingCandidate { pinned, candidate },
                AddFeedEvent::Document { .. },
            ) => (
                AddPhase::Parsing { pinned, feed_url: candidate.clone() },
                AddFeedAction::Parse { base: candidate },
            ),
            (AddPhase::Parsing { pinned, feed_url }, AddFeedEvent::Parsed(parsed)) => {
                let target = feed_url.clone();
                match pinned {
                    Some(kind) => (
                        AddPhase::Looking { draft: draft_feed(feed_url, parsed, kind) },
                        AddFeedAction::Find { feed_url: target },
                    ),
                    None => (
                        AddPhase::Classifying { feed_url, parsed },
                        AddFeedAction::Classify { feed_url: target },
                    ),
                }
            },
            (AddPhase::Classifying { feed_url, parsed }, AddFeedEvent::Kind(kind)) => {
                let target = feed_url.clone();
                (
                    AddPhase::Looking { draft: draft_feed(feed_url, parsed, kind) },
                    AddFeedAction::Find { feed_url: target },
                )
            },
            (AddPhase::Looking { draft }, AddFeedEvent::Found(known)) => if known {
                (AddPhase::Over, AddFeedAction::Stop(Err(AppError::code("alreadySubscribed"))))
            } else {
                let copy = draft.copy();
                (
                    AddPhase::Inserting { draft },
                    AddFeedAction::Insert { draft: copy, folder_id },
                )
            },
            (AddPhase::Inserting { draft }, AddFeedEvent::Inserted(id)) => match copy_of(
                &draft.favicon_url,
            ) {
                Some(favicon_url) => (
                    AddPhase::Decorating { draft, id },
                    AddFeedAction::SetIcon { id, favicon_url },
                ),
                None => (AddPhase::Filling { draft, id }, AddFeedAction::StoreArticles { id }),
            },
            (AddPhase::Decorating { draft, id }, AddFeedEvent::Done) => (
                AddPhase::Filling { draft, id },
                AddFeedAction::StoreArticles { id },
            ),
            (AddPhase::Filling { draft, id }, AddFeedEvent::Done) => (
                AddPhase::Counting { draft, id },
                AddFeedAction::Count { id },
            ),
            (
                AddPhase::Counting { draft, id },
                AddFeedEvent::Counted { last_fetched_at, unread },
            ) => (
                AddPhase::Over,
                AddFeedAction::Stop(
                    Ok(stored_feed(draft, id, folder_id, last_fetched_at, unread)),
                ),
            ),
            (phase, _) => {
                assert(false);
                (phase, AddFeedAction::Stop(Err(AppError::code("unexpectedEvent"))))
            },
        };
        (AddFeed { folder_id, phase }, action)
    }
}

// ------------------------------------------------------------------------- laws

/// A subscription as it went: the events between its states, and the action behind each state.
pub struct Run {
    pub states: Seq<AddFeed>,
    pub actions: Seq<AddFeedAction>,
    pub events: Seq<AddFeedEvent>,
}

/// A subscription to `url` went like this.
pub open spec fn is_run(url: Seq<char>, folder_id: Option<i64>, s: Settings, run: Run) -> bool {
    &&& run.states.len() == run.events.len() + 1
    &&& run.actions.len() == run.events.len() + 1
    &&& begins(url, folder_id, s, run.states[0], run.actions[0])
    &&& forall|i: int|
        0 <= i < run.events.len() ==> run.states[i].awaits(#[trigger] run.events[i]) && follows(
            run.states[i],
            run.events[i],
            run.states[i + 1],
            run.actions[i + 1],
        )
}

/// How far a phase is from the end.
pub open spec fn distance(phase: AddPhase) -> int {
    match phase {
        AddPhase::Sorting { .. } => 12,
        AddPhase::Resolving => 11,
        AddPhase::Fetching { .. } => 10,
        AddPhase::Discovering { .. } => 9,
        AddPhase::FetchingCandidate { .. } => 8,
        AddPhase::Parsing { .. } => 7,
        AddPhase::Classifying { .. } => 6,
        AddPhase::Looking { .. } => 5,
        AddPhase::Inserting { .. } => 4,
        AddPhase::Decorating { .. } => 3,
        AddPhase::Filling { .. } => 2,
        AddPhase::Counting { .. } => 1,
        AddPhase::Over => 0,
    }
}

/// Every step leads closer to the end.
proof fn lemma_closer(before: AddFeed, event: AddFeedEvent, after: AddFeed, action: AddFeedAction)
    requires
        before.awaits(event),
        follows(before, event, after, action),
    ensures
        distance(after.phase) < distance(before.phase),
{
}

/// The distance shrinks along a run.
proof fn lemma_distance(
    url: Seq<char>,
    folder_id: Option<i64>,
    s: Settings,
    run: Run,
    i: int,
    j: int,
)
    requires
        is_run(url, folder_id, s, run),
        0 <= i <= j <= run.events.len(),
    ensures
        distance(run.states[j].phase) <= distance(run.states[i].phase) - (j - i),
    decreases j - i,
{
    if i < j {
        lemma_distance(url, folder_id, s, run, i, j - 1);
        let e = run.events[j - 1];
        lemma_closer(run.states[j - 1], e, run.states[j], run.actions[j]);
    }
}

/// A subscription comes to its end: no run takes more than a dozen steps.
pub proof fn law_subscriptions_end(url: Seq<char>, folder_id: Option<i64>, s: Settings, run: Run)
    requires
        is_run(url, folder_id, s, run),
    ensures
        run.events.len() <= 12,
{
    lemma_distance(url, folder_id, s, run, 0, run.events.len() as int);
}

/// A feed is stored only once the store has answered that it does not hold it.
pub proof fn law_known_feeds_are_not_stored_again(
    url: Seq<char>,
    folder_id: Option<i64>,
    s: Settings,
    run: Run,
    i: int,
)
    requires
        is_run(url, folder_id, s, run),
        0 <= i < run.actions.len(),
        run.actions[i] is Insert,
    ensures
        i > 0,
        run.events[i - 1] == AddFeedEvent::Found(false),
{
    if i > 0 {
        let e = run.events[i - 1];
        assert(run.states[i - 1].awaits(e));
    }
}

/// A refusal comes before anything is stored: behind the insertion only a failed action ends the
/// subscription with an error.
pub proof fn law_refusals_come_before_storing(
    url: Seq<char>,
    folder_id: Option<i64>,
    s: Settings,
    run: Run,
    i: int,
    j: int,
)
    requires
        is_run(url, folder_id, s, run),
        0 <= i < j < run.actions.len(),
        run.actions[i] is Insert,
        run.actions[j] matches AddFeedAction::Stop(Err(_)),
    ensures
        run.events[j - 1] is Failed,
{
    law_known_feeds_are_not_stored_again(url, folder_id, s, run, i);
    let e = run.events[i - 1];
    assert(run.states[i].phase is Inserting);
    lemma_distance(url, folder_id, s, run, i, j - 1);
    let last = run.events[j - 1];
    assert(run.states[j - 1].awaits(last));
}

/// The kind is settled in this state.
pub open spec fn settled_kind(state: AddFeed, kind: SourceType) -> bool {
    match state.phase {
        AddPhase::Sorting { .. } => false,
        AddPhase::Resolving => false,
        AddPhase::Fetching { pinned, .. } => pinned == Some(kind),
        AddPhase::Discovering { pinned } => pinned == Some(kind),
        AddPhase::FetchingCandidate { pinned, .. } => pinned == Some(kind),
        AddPhase::Parsing { pinned, .. } => pinned == Some(kind),
        AddPhase::Classifying { .. } => false,
        AddPhase::Looking { draft } => draft.source_type == kind,
        AddPhase::Inserting { draft } => draft.source_type == kind,
        AddPhase::Decorating { draft, .. } => draft.source_type == kind,
        AddPhase::Filling { draft, .. } => draft.source_type == kind,
        AddPhase::Counting { draft, .. } => draft.source_type == kind,
        AddPhase::Over => true,
    }
}

/// A kind that was pinned when the URL was sorted wins over what the document looks like: the feed
/// gets it, and nobody is asked to classify the document.
pub proof fn law_pinned_kind_wins(
    url: Seq<char>,
    folder_id: Option<i64>,
    s: Settings,
    run: Run,
    kind: SourceType,
    i: int,
    j: int,
)
    requires
        is_run(url, folder_id, s, run),
        0 <= i < j < run.actions.len(),
        settled_kind(run.states[i], kind),
    ensures
        settled_kind(run.states[j], kind),
        !(run.actions[j] is Classify),
        run.actions[j] matches AddFeedAction::Stop(Ok(feed)) ==> feed.source_type == kind,
    decreases j,
{
    if i < j - 1 {
        law_pinned_kind_wins(url, folder_id, s, run, kind, i, j - 1);
    }
    let e = run.events[j - 1];
    assert(run.states[j - 1].awaits(e));
}

/// An RSSHub subscription whose stored form is `kept`.
pub open spec fn keeps_route(state: AddFeed, kept: Seq<char>) -> bool {
    match state.phase {
        AddPhase::Fetching { stored, .. } => option_text(stored) == Some(kept),
        AddPhase::Parsing { feed_url, .. } => feed_url@ == kept,
        AddPhase::Looking { draft } => draft.feed_url@ == kept,
        AddPhase::Inserting { draft } => draft.feed_url@ == kept,
        AddPhase::Decorating { draft, .. } => draft.feed_url@ == kept,
        AddPhase::Filling { draft, .. } => draft.feed_url@ == kept,
        AddPhase::Counting { draft, .. } => draft.feed_url@ == kept,
        AddPhase::Over => true,
        _ => false,
    }
}

/// An RSSHub route is stored in its instance-independent form, whichever instance served it and
/// wherever that instance redirected, and no page is ever scraped for it.
pub proof fn law_rsshub_routes_are_stored_as_such(
    url: Seq<char>,
    folder_id: Option<i64>,
    s: Settings,
    run: Run,
    j: int,
)
    requires
        is_run(url, folder_id, s, run),
        is_rsshub(url),
        0 <= j < run.actions.len(),
    ensures
        keeps_route(run.states[j], canonical_form(url)),
        settled_kind(run.states[j], SourceType::Rss),
        !(run.actions[j] is Discover),
        !(run.actions[j] is Normalize),
        run.actions[j] matches AddFeedAction::Stop(Ok(feed)) ==> feed.feed_url@ == canonical_form(
            url,
        ) && feed.source_type == SourceType::Rss,
    decreases j,
{
    if j > 0 {
        law_rsshub_routes_are_stored_as_such(url, folder_id, s, run, j - 1);
        let e = run.events[j - 1];
        assert(run.states[j - 1].awaits(e));
    }
}

/// The first action: an RSSHub URL is fetched through the instance that is set, or through the public
/// one where none is; any other URL is handed over as it was pasted.
pub proof fn law_pasted_urls_are_looked_at_first(
    url: Seq<char>,
    folder_id: Option<i64>,
    s: Settings,
    run: Run,
    instance: Seq<char>,
)
    requires
        is_run(url, folder_id, s, run),
    ensures
        !is_rsshub(url) ==> (run.actions[0] matches AddFeedAction::Normalize { url: u } && u@ == url),
        is_rsshub(url) && s.at("rsshub_instance"@) == StoredView::Value(instance) ==> (
        run.actions[0] matches AddFeedAction::Fetch { url: u } && u@ == expanded(
            canonical_form(url),
            instance,
        )),
        is_rsshub(url) && s.at("rsshub_instance"@) is Missing ==> (
        run.actions[0] matches AddFeedAction::Fetch { url: u } && u@ == expanded(
            canonical_form(url),
            "https://rsshub.app"@,
        )),
{
}

/// What sorting a URL leads to: a known special source is fetched from the feed URL that it was
/// rewritten to, the page of a YouTube channel is resolved, and anything else is fetched from the
/// URL that was pasted.
pub proof fn law_sorted_urls_are_fetched(
    url: Seq<char>,
    folder_id: Option<i64>,
    s: Settings,
    run: Run,
    i: int,
)
    requires
        is_run(url, folder_id, s, run),
        0 <= i < run.events.len(),
    ensures
        match run.events[i] {
            AddFeedEvent::Normalized(Normalized::Feed { url: rewritten, .. }) => {
                run.actions[i + 1] matches AddFeedAction::Fetch { url: u } && u@ == rewritten@
            },
            AddFeedEvent::Normalized(Normalized::NeedsYoutubeResolution { page_url }) => {
                run.actions[i + 1] matches AddFeedAction::ResolveChannel { page_url: p } && p@
                    == page_url@
            },
            AddFeedEvent::Normalized(Normalized::Untouched) => {
                run.actions[i + 1] matches AddFeedAction::Fetch { url: u } && u@ == url
            },
            AddFeedEvent::Channel(Some(channel)) => {
                run.actions[i + 1] matches AddFeedAction::Fetch { url: u } && u@ == channel@
            },
            AddFeedEvent::Channel(None) => {
                run.actions[i + 1] matches AddFeedAction::Stop(Err(e)) && e@ == AppErrorView::Code(
                    "youtubeChannelNotFound"@,
                )
            },
            AddFeedEvent::Candidates(found) => if found@.len() == 0 {
                run.actions[i + 1] matches AddFeedAction::Stop(Err(e)) && e@ == AppErrorView::Code(
                    "noFeedFound"@,
                )
            } else {
                run.actions[i + 1] matches AddFeedAction::Fetch { url: u } && u@ == found@[0]@
            },
            AddFeedEvent::Found(true) => {
                run.actions[i + 1] matches AddFeedAction::Stop(Err(e)) && e@ == AppErrorView::Code(
                    "alreadySubscribed"@,
                )
            },
            AddFeedEvent::Failed(error) => {
                run.actions[i + 1] matches AddFeedAction::Stop(Err(e)) && e@ == error@
            },
            _ => true,
        },
{
    let e = run.events[i];
    assert(run.states[i].awaits(e));
    if e is Normalized && i > 0 {
        let earlier = run.events[i - 1];
        assert(run.states[i - 1].awaits(earlier));
    }
}

/// The feed is settled to be at `address`.
pub open spec fn is_settled_at(state: AddFeed, address: Seq<char>) -> bool {
    match state.phase {
        AddPhase::FetchingCandidate { candidate, .. } => candidate@ == address,
        AddPhase::Parsing { feed_url, .. } => feed_url@ == address,
        AddPhase::Classifying { feed_url, .. } => feed_url@ == address,
        AddPhase::Looking { draft } => draft.feed_url@ == address,
        AddPhase::Inserting { draft } => draft.feed_url@ == address,
        AddPhase::Decorating { draft, .. } => draft.feed_url@ == address,
        AddPhase::Filling { draft, .. } => draft.feed_url@ == address,
        AddPhase::Counting { draft, .. } => draft.feed_url@ == address,
        AddPhase::Over => true,
        _ => false,
    }
}

/// Whatever an action says of the address of the feed, it says `address`.
pub open spec fn speaks_of(action: AddFeedAction, address: Seq<char>) -> bool {
    match action {
        AddFeedAction::Classify { feed_url } => feed_url@ == address,
        AddFeedAction::Find { feed_url } => feed_url@ == address,
        AddFeedAction::Insert { draft, .. } => draft.feed_url@ == address,
        AddFeedAction::Stop(Ok(feed)) => feed.feed_url@ == address,
        _ => true,
    }
}

proof fn lemma_address(
    url: Seq<char>,
    folder_id: Option<i64>,
    s: Settings,
    run: Run,
    address: Seq<char>,
    i: int,
    j: int,
)
    requires
        is_run(url, folder_id, s, run),
        0 <= i < j < run.actions.len(),
        is_settled_at(run.states[i], address),
    ensures
        is_settled_at(run.states[j], address),
        speaks_of(run.actions[j], address),
    decreases j,
{
    if i < j - 1 {
        lemma_address(url, folder_id, s, run, address, i, j - 1);
    }
    let e = run.events[j - 1];
    assert(run.states[j - 1].awaits(e));
}

/// Where no page has been searched and the URL is no RSSHub one, a feed document is parsed, looked
/// up and stored under the URL that it came from; any other document is searched for feeds.
pub proof fn law_feeds_are_stored_where_they_were_found(
    url: Seq<char>,
    folder_id: Option<i64>,
    s: Settings,
    run: Run,
    i: int,
    j: int,
)
    requires
        is_run(url, folder_id, s, run),
        !is_rsshub(url),
        0 <= i < j < run.actions.len(),
        run.events[i] is Document,
        forall|k: int| 0 <= k < i ==> !(#[trigger] run.events[k] is Candidates),
    ensures
        ({
            let found = run.events[i]->final_url@;
            if run.events[i]->is_feed {
                &&& run.actions[i + 1] matches AddFeedAction::Parse { base } && base@ == found
                &&& speaks_of(run.actions[j], found)
            } else {
                run.actions[i + 1] matches AddFeedAction::Discover { page_url } && page_url@ == found
            }
        }),
{
    let e = run.events[i];
    assert(run.states[i].awaits(e));
    lemma_before_the_document(url, folder_id, s, run, i);
    if run.events[i]->is_feed {
        if j > i + 1 {
            lemma_address(url, folder_id, s, run, run.events[i]->final_url@, i + 1, j);
        }
    }
}

proof fn lemma_before_the_document(
    url: Seq<char>,
    folder_id: Option<i64>,
    s: Settings,
    run: Run,
    i: int,
)
    requires
        is_run(url, folder_id, s, run),
        !is_rsshub(url),
        0 <= i < run.states.len(),
        forall|k: int| 0 <= k < i ==> !(#[trigger] run.events[k] is Candidates),
    ensures
        !(run.states[i].phase is FetchingCandidate),
        run.states[i].phase matches AddPhase::Fetching { stored, .. } ==> stored is None,
    decreases i,
{
    if i > 0 {
        lemma_before_the_document(url, folder_id, s, run, i - 1);
        let e = run.events[i - 1];
        assert(run.states[i - 1].awaits(e));
        assert(!(run.events[i - 1] is Candidates));
    }
}

/// A known special source whose document is a feed and arrives without a redirect is stored under the
/// feed URL that the pasted URL was rewritten to, with the kind that came with it.
pub proof fn law_special_sources_are_stored_under_their_feed_url(
    url: Seq<char>,
    folder_id: Option<i64>,
    s: Settings,
    run: Run,
    rewritten: String,
    kind: SourceType,
    j: int,
)
    requires
        is_run(url, folder_id, s, run),
        run.events.len() >= 2,
        run.events[0] == AddFeedEvent::Normalized(
            Normalized::Feed { url: rewritten, source_type: kind },
        ),
        run.events[1] is Document,
        run.events[1]->is_feed,
        run.events[1]->final_url@ == rewritten@,
        0 <= j < run.actions.len(),
    ensures
        run.actions[1] == (AddFeedAction::Fetch { url: rewritten }),
        run.actions[j] matches AddFeedAction::Find { feed_url } ==> feed_url@ == rewritten@,
        run.actions[j] matches AddFeedAction::Insert { draft, .. } ==> draft.feed_url@ == rewritten@
            && draft.source_type == kind,
        run.actions[j] matches AddFeedAction::Stop(Ok(feed)) ==> feed.feed_url@ == rewritten@
            && feed.source_type == kind,
{
    let e0 = run.events[0];
    assert(run.states[0].awaits(e0));
    assert(!is_rsshub(url));
    let e1 = run.events[1];
    assert(run.states[1].awaits(e1));
    if j > 1 {
        law_feeds_are_stored_where_they_were_found(url, folder_id, s, run, 1, j);
        law_pinned_kind_wins(url, folder_id, s, run, kind, 1, j);
        if run.actions[j] is Insert {
            let e = run.events[j - 1];
            assert(run.states[j - 1].awaits(e));
        }
    }
}

/// The feed of a YouTube channel is one of YouTube.
pub proof fn law_channels_are_youtube_feeds(
    url: Seq<char>,
    folder_id: Option<i64>,
    s: Settings,
    run: Run,
    i: int,
    j: int,
)
    requires
        is_run(url, folder_id, s, run),
        0 <= i < j < run.actions.len(),
        run.events[i] matches AddFeedEvent::Channel(Some(_)),
    ensures
        !(run.actions[j] is Classify),
        run.actions[j] matches AddFeedAction::Stop(Ok(feed)) ==> feed.source_type
            == SourceType::Youtube,
{
    let e = run.events[i];
    assert(run.states[i].awaits(e));
    if j > i + 1 {
        law_pinned_kind_wins(url, folder_id, s, run, SourceType::Youtube, i + 1, j);
    }
}

/// A page that links to feeds leads to the first of them: it is fetched, its document is parsed
/// against its own address, and it is looked up and stored under that address.
pub proof fn law_the_first_linked_feed_is_stored(
    url: Seq<char>,
    folder_id: Option<i64>,
    s: Settings,
    run: Run,
    i: int,
    j: int,
)
    requires
        is_run(url, folder_id, s, run),
        0 <= i < j < run.actions.len(),
        run.events[i] matches AddFeedEvent::Candidates(found) && found@.len() > 0,
    ensures
        ({
            let first = run.events[i]->Candidates_0@[0]@;
            &&& run.actions[i + 1] matches AddFeedAction::Fetch { url: u } && u@ == first
            &&& run.actions[j] matches AddFeedAction::Parse { base } ==> base@ == first
            &&& speaks_of(run.actions[j], first)
        }),
{
    let e = run.events[i];
    assert(run.states[i].awaits(e));
    let first = run.events[i]->Candidates_0@[0]@;
    assert(is_settled_at(run.states[i + 1], first));
    if j > i + 1 {
        lemma_address(url, folder_id, s, run, first, i + 1, j);
        if j > i + 2 {
            lemma_address(url, folder_id, s, run, first, i + 1, j - 1);
        }
        let last = run.events[j - 1];
        assert(run.states[j - 1].awaits(last));
    }
}

/// The document of an RSSHub route is parsed against the address that it came from.
pub proof fn law_rsshub_documents_keep_their_base(
    url: Seq<char>,
    folder_id: Option<i64>,
    s: Settings,
    run: Run,
    i: int,
)
    requires
        is_run(url, folder_id, s, run),
        is_rsshub(url),
        0 <= i < run.events.len(),
        run.events[i] is Document,
    ensures
        run.actions[i + 1] matches AddFeedAction::Parse { base } && base@
            == run.events[i]->final_url@,
{
    let e = run.events[i];
    assert(run.states[i].awaits(e));
    law_rsshub_routes_are_stored_as_such(url, folder_id, s, run, i);
}

/// `draft` says of a feed what its document says: the site, the description, the title where the
/// document has one and the address of the feed where it has none, and the icon: the feed's own, or
/// one looked up by the host of its site, or none.
pub open spec fn is_about(draft: Draft, parsed: ParsedFeed) -> bool {
    &&& option_text(draft.site_url) == option_text(parsed.site_url)
    &&& option_text(draft.description) == option_text(parsed.description)
    &&& match option_text(parsed.title) {
        Some(t) => draft.title@ == if t.len() > 0 {
            t
        } else {
            draft.feed_url@
        },
        None => draft.title@ == draft.feed_url@,
    }
    &&& match option_text(parsed.icon) {
        Some(i) => option_text(draft.favicon_url) == Some(i),
        None => match option_text(parsed.site_url) {
            None => draft.favicon_url is None,
            Some(site) => match parsed_url(site) {
                None => draft.favicon_url is None,
                Some(u) => match host_text(u) {
                    None => draft.favicon_url is None,
                    Some(host) => option_text(draft.favicon_url) == Some(
                        "https://www.google.com/s2/favicons?domain="@ + host + "&sz=64"@,
                    ),
                },
            },
        },
    }
}

/// The document has been read, and everything since says what it says.
pub open spec fn has_read(state: AddFeed, parsed: ParsedFeed) -> bool {
    match state.phase {
        AddPhase::Classifying { parsed: p, .. } => p == parsed,
        AddPhase::Looking { draft } => is_about(draft, parsed),
        AddPhase::Inserting { draft } => is_about(draft, parsed),
        AddPhase::Decorating { .. } => true,
        AddPhase::Filling { .. } => true,
        AddPhase::Counting { .. } => true,
        AddPhase::Over => true,
        _ => false,
    }
}

/// The feed that is stored is the one that its document describes, in the folder that was asked for.
pub proof fn law_the_parsed_document_is_stored(
    url: Seq<char>,
    folder_id: Option<i64>,
    s: Settings,
    run: Run,
    parsed: ParsedFeed,
    i: int,
    j: int,
)
    requires
        is_run(url, folder_id, s, run),
        0 <= i < j < run.actions.len(),
        run.events[i] == AddFeedEvent::Parsed(parsed),
    ensures
        has_read(run.states[j], parsed),
        run.actions[j] matches AddFeedAction::Insert { draft, folder_id: f } ==> is_about(draft, parsed)
            && f == folder_id,
    decreases j,
{
    if i < j - 1 {
        law_the_parsed_document_is_stored(url, folder_id, s, run, parsed, i, j - 1);
    }
    lemma_folder(url, folder_id, s, run, j - 1);
    let e = run.events[j - 1];
    assert(run.states[j - 1].awaits(e));
}

proof fn lemma_folder(url: Seq<char>, folder_id: Option<i64>, s: Settings, run: Run, j: int)
    requires
        is_run(url, folder_id, s, run),
        0 <= j < run.states.len(),
    ensures
        run.states[j].folder_id == folder_id,
    decreases j,
{
    if j > 0 {
        lemma_folder(url, folder_id, s, run, j - 1);
        let e = run.events[j - 1];
        assert(run.states[j - 1].awaits(e));
    }
}

/// Where nothing was known of the kind beforehand, the feed gets the kind that its document was
/// found to be of.
pub proof fn law_classified_feeds_get_their_kind(
    url: Seq<char>,
    folder_id: Option<i64>,
    s: Settings,
    run: Run,
    kind: SourceType,
    i: int,
    j: int,
)
    requires
        is_run(url, folder_id, s, run),
        0 <= i < j < run.actions.len(),
        run.events[i] == AddFeedEvent::Kind(kind),
    ensures
        run.actions[j] matches AddFeedAction::Insert { draft, .. } ==> draft.source_type == kind,
        run.actions[j] matches AddFeedAction::Stop(Ok(feed)) ==> feed.source_type == kind,
{
    let e = run.events[i];
    assert(run.states[i].awaits(e));
    assert(settled_kind(run.states[i + 1], kind));
    if j > i + 1 {
        law_pinned_kind_wins(url, folder_id, s, run, kind, i + 1, j);
        let last = run.events[j - 1];
        assert(run.states[j - 1].awaits(last));
    }
}

/// The draft that was stored is at hand in this state.
pub open spec fn has_stored(state: AddFeed, d: Draft) -> bool {
    match state.phase {
        AddPhase::Inserting { draft } => draft == d,
        AddPhase::Decorating { draft, .. } => draft == d,
        AddPhase::Filling { draft, .. } => draft == d,
        AddPhase::Counting { draft, .. } => draft == d,
        AddPhase::Over => true,
        _ => false,
    }
}

proof fn lemma_stored_draft(
    url: Seq<char>,
    folder_id: Option<i64>,
    s: Settings,
    run: Run,
    d: Draft,
    i: int,
    j: int,
)
    requires
        is_run(url, folder_id, s, run),
        0 <= i <= j < run.states.len(),
        has_stored(run.states[i], d),
    ensures
        has_stored(run.states[j], d),
    decreases j,
{
    if i < j {
        lemma_stored_draft(url, folder_id, s, run, d, i, j - 1);
        let e = run.events[j - 1];
        assert(run.states[j - 1].awaits(e));
    }
}

/// The feed that a subscription ends with is the one that it stored, field by field, and it is in the
/// folder it was put into; what is stored as its icon is the icon of the draft.
pub proof fn law_the_stored_feed_is_returned(
    url: Seq<char>,
    folder_id: Option<i64>,
    s: Settings,
    run: Run,
    draft: Draft,
    folder: Option<i64>,
    i: int,
    j: int,
)
    requires
        is_run(url, folder_id, s, run),
        0 <= i < j < run.actions.len(),
        run.actions[i] == (AddFeedAction::Insert { draft, folder_id: folder }),
    ensures
        run.actions[j] matches AddFeedAction::Stop(Ok(feed)) ==> {
            &&& feed.feed_url@ == draft.feed_url@
            &&& option_text(feed.site_url) == option_text(draft.site_url)
            &&& feed.title@ == draft.title@
            &&& option_text(feed.description) == option_text(draft.description)
            &&& option_text(feed.favicon_url) == option_text(draft.favicon_url)
            &&& feed.source_type == draft.source_type
            &&& feed.folder_id == folder
            &&& feed.fetch_error is None
        },
        run.actions[j] matches AddFeedAction::SetIcon { favicon_url, .. } ==> option_text(
            draft.favicon_url,
        ) == Some(favicon_url@),
{
    law_known_feeds_are_not_stored_again(url, folder_id, s, run, i);
    let e = run.events[i - 1];
    assert(run.states[i - 1].awaits(e));
    lemma_stored_draft(url, folder_id, s, run, draft, i, j - 1);
    lemma_folder(url, folder_id, s, run, i - 1);
    lemma_folder(url, folder_id, s, run, j - 1);
    let last = run.events[j - 1];
    assert(run.states[j - 1].awaits(last));
    lemma_distance(url, folder_id, s, run, i, j - 1);
}

/// The feed is stored under `n`.
pub open spec fn is_numbered(state: AddFeed, n: i64) -> bool {
    match state.phase {
        AddPhase::Decorating { id, .. } => id == n,
        AddPhase::Filling { id, .. } => id == n,
        AddPhase::Counting { id, .. } => id == n,
        AddPhase::Over => true,
        _ => false,
    }
}

/// Everything done behind the insertion is done to the feed that was inserted: its icon, its
/// articles, its count and the feed that is returned carry the id that the store gave it.
pub proof fn law_the_inserted_feed_is_filled(
    url: Seq<char>,
    folder_id: Option<i64>,
    s: Settings,
    run: Run,
    n: i64,
    i: int,
    j: int,
)
    requires
        is_run(url, folder_id, s, run),
        0 <= i < j < run.actions.len(),
        run.events[i] == AddFeedEvent::Inserted(n),
    ensures
        is_numbered(run.states[j], n),
        match run.actions[j] {
            AddFeedAction::SetIcon { id, .. } => id == n,
            AddFeedAction::StoreArticles { id } => id == n,
            AddFeedAction::Count { id } => id == n,
            AddFeedAction::Stop(Ok(feed)) => feed.id == n,
            AddFeedAction::Stop(Err(_)) => true,
            _ => false,
        },
    decreases j,
{
    if i < j - 1 {
        law_the_inserted_feed_is_filled(url, folder_id, s, run, n, i, j - 1);
    }
    let e = run.events[j - 1];
    assert(run.states[j - 1].awaits(e));
}

/// A subscription that ends well has stored the feed, then its articles, and then counted; the feed
/// carries what the count said.
pub proof fn law_good_ends_come_from_the_count(
    url: Seq<char>,
    folder_id: Option<i64>,
    s: Settings,
    run: Run,
    j: int,
)
    requires
        is_run(url, folder_id, s, run),
        0 <= j < run.actions.len(),
    ensures
        run.actions[j] matches AddFeedAction::Stop(Ok(feed)) ==> {
            &&& j > 1
            &&& run.actions[j - 1] is Count
            &&& run.actions[j - 2] is StoreArticles
            &&& run.events[j - 1] == (AddFeedEvent::Counted {
                last_fetched_at: feed.last_fetched_at,
                unread: feed.unread_count,
            })
        },
        run.actions[j] is Count ==> j > 0 && run.actions[j - 1] is StoreArticles,
        run.actions[j] is StoreArticles ==> j > 0 && (run.actions[j - 1] is SetIcon
            || run.actions[j - 1] is Insert),
        run.actions[j] is SetIcon ==> j > 0 && run.actions[j - 1] is Insert,
{
    if j > 0 {
        lemma_actions(url, folder_id, s, run, j);
        lemma_actions(url, folder_id, s, run, j - 1);
        let e = run.events[j - 1];
        assert(run.states[j - 1].awaits(e));
        if j > 1 {
            lemma_actions(url, folder_id, s, run, j - 2);
            let earlier = run.events[j - 2];
            assert(run.states[j - 2].awaits(earlier));
        }
    }
}

/// What each late phase waits for is what was asked for last.
proof fn lemma_actions(url: Seq<char>, folder_id: Option<i64>, s: Settings, run: Run, j: int)
    requires
        is_run(url, folder_id, s, run),
        0 <= j < run.actions.len(),
    ensures
        run.states[j].phase is Inserting <==> run.actions[j] is Insert,
        run.states[j].phase is Decorating <==> run.actions[j] is SetIcon,
        run.states[j].phase is Filling <==> run.actions[j] is StoreArticles,
        run.states[j].phase is Counting <==> run.actions[j] is Count,
        run.states[j].phase is Over <==> run.actions[j] is Stop,
{
    if j > 0 {
        let e = run.events[j - 1];
        assert(run.states[j - 1].awaits(e));
    }
}

/// A URL that is nothing special says nothing of the kind of its feed: once its document is parsed,
/// the kind is asked for, and the feed gets the kind that was found.
pub proof fn law_ordinary_urls_are_classified(
    url: Seq<char>,
    folder_id: Option<i64>,
    s: Settings,
    run: Run,
    i: int,
)
    requires
        is_run(url, folder_id, s, run),
        run.events.len() > 0,
        run.events[0] == AddFeedEvent::Normalized(Normalized::Untouched),
        0 <= i < run.events.len(),
        run.events[i] is Parsed,
    ensures
        run.actions[i + 1] is Classify,
{
    let e = run.events[i];
    assert(run.states[i].awaits(e));
    let first = run.events[0];
    assert(run.states[0].awaits(first));
    lemma_nothing_pinned(url, folder_id, s, run, i);
}

proof fn lemma_nothing_pinned(url: Seq<char>, folder_id: Option<i64>, s: Settings, run: Run, i: int)
    requires
        is_run(url, folder_id, s, run),
        run.events.len() > 0,
        run.events[0] == AddFeedEvent::Normalized(Normalized::Untouched),
        1 <= i < run.states.len(),
    ensures
        match run.states[i].phase {
            AddPhase::Fetching { pinned, .. } => pinned is None,
            AddPhase::Discovering { pinned } => pinned is None,
            AddPhase::FetchingCandidate { pinned, .. } => pinned is None,
            AddPhase::Parsing { pinned, .. } => pinned is None,
            AddPhase::Sorting { .. } => false,
            AddPhase::Resolving => false,
            _ => true,
        },
    decreases i,
{
    let e = run.events[i - 1];
    assert(run.states[i - 1].awaits(e));
    if i > 1 {
        lemma_nothing_pinned(url, folder_id, s, run, i - 1);
    }
}

/// How a subscription goes on once its document is parsed: the feed is looked up before anything is
/// stored, a new one is stored, then its icon where it has one, then its articles, then they are
/// counted.
pub proof fn law_storing_goes_step_by_step(
    url: Seq<char>,
    folder_id: Option<i64>,
    s: Settings,
    run: Run,
    i: int,
)
    requires
        is_run(url, folder_id, s, run),
        0 <= i < run.events.len(),
    ensures
        match run.events[i] {
            AddFeedEvent::Parsed(_) => run.actions[i + 1] is Find || run.actions[i + 1] is Classify,
            AddFeedEvent::Kind(_) => run.actions[i + 1] is Find,
            AddFeedEvent::Found(false) => run.actions[i + 1] is Insert,
            AddFeedEvent::Inserted(n) => {
                &&& run.actions[i] is Insert
                &&& match option_text(run.actions[i]->draft.favicon_url) {
                    Some(icon) => run.actions[i + 1] matches AddFeedAction::SetIcon {
                        id,
                        favicon_url,
                    } && id == n && favicon_url@ == icon,
                    None => run.actions[i + 1] == (AddFeedAction::StoreArticles { id: n }),
                }
            },
            AddFeedEvent::Done => {
                ||| run.actions[i] is SetIcon && run.actions[i + 1] is StoreArticles
                ||| run.actions[i] is StoreArticles && run.actions[i + 1] is Count
            },
            AddFeedEvent::Counted { .. } => run.actions[i + 1] matches AddFeedAction::Stop(Ok(_)),
            _ => true,
        },
        run.actions[i + 1] matches AddFeedAction::Stop(Err(_)) ==> {
            ||| run.events[i] is Failed
            ||| run.events[i] == AddFeedEvent::Found(true)
            ||| run.events[i] matches AddFeedEvent::Channel(None)
            ||| run.events[i] matches AddFeedEvent::Candidates(found) && found@.len() == 0
        },
{
    let e = run.events[i];
    assert(run.states[i].awaits(e));
    lemma_actions(url, folder_id, s, run, i);
    if run.actions[i] is Insert {
        law_known_feeds_are_not_stored_again(url, folder_id, s, run, i);
        let earlier = run.events[i - 1];
        assert(run.states[i - 1].awaits(earlier));
    }
}

} // verus!
