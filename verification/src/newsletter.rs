//! Email newsletters as sources.
//!
//! [`AddNewsletter`] holds the decisions of adding a mailbox: its fields are checked, a mailbox that
//! is known already is refused before the slow round-trip, the mailbox is polled once to verify the
//! credentials, and what it holds is ingested.

use crate::error::{AppError, AppErrorView, AppResult};
use crate::opml::{lemma_tally_bound, tally};
use crate::subscribe::{Feed, SourceType};
use crate::text::{is_white_space, law_trimming, lemma_blank, option_text, trim, trimmed};
use vstd::prelude::*;

verus! {

// ------------------------------------------------------------ configured sources

/// A configured newsletter source as it is stored.
pub struct NewsletterRow {
    pub feed_id: i64,
    pub title: String,
    pub host: String,
    pub port: u16,
    pub username: String,
    pub password: String,
    pub folder: String,
}

/// A configured newsletter source as it is shown: without its password.
pub struct NewsletterSource {
    pub feed_id: i64,
    pub title: String,
    pub host: String,
    pub port: u16,
    pub username: String,
    pub folder: String,
}

/// `source` shows `row`.
pub open spec fn shows(source: NewsletterSource, row: NewsletterRow) -> bool {
    &&& source.feed_id == row.feed_id
    &&& source.title == row.title
    &&& source.host == row.host
    &&& source.port == row.port
    &&& source.username == row.username
    &&& source.folder == row.folder
}

/// Every configured newsletter source, passwords omitted.
pub fn list_newsletter_sources(rows: &Vec<NewsletterRow>) -> (r: Vec<NewsletterSource>)
    ensures
        r@.len() == rows@.len(),
        forall|i: int| 0 <= i < rows@.len() ==> shows(#[trigger] r@[i], rows@[i]),
{
    let mut sources: Vec<NewsletterSource> = Vec::new();
    let n: usize = rows.len();
    let mut i: usize = 0;
    while i < n
        invariant
            n == rows@.len(),
            i <= n,
            sources@.len() == i,
            forall|k: int| 0 <= k < i ==> shows(#[trigger] sources@[k], rows@[k]),
        decreases n - i,
    {
        sources.push(
            NewsletterSource {
                feed_id: rows[i].feed_id,
                title: rows[i].title.clone(),
                host: rows[i].host.clone(),
                port: rows[i].port,
                username: rows[i].username.clone(),
                folder: rows[i].folder.clone(),
            },
        );
        i = i + 1;
    }
    sources
}

// ------------------------------------------------------------------- the mailbox

/// The mailbox to start polling, as it was typed.
pub struct NewsletterInput {
    /// A display name for the source.
    pub title: Option<String>,
    pub host: String,
    pub port: u16,
    pub username: String,
    /// An app password or token.
    pub password: String,
    /// The mailbox to poll, such as `INBOX` or `Newsletters`.
    pub folder: String,
}

/// A mailbox that can be polled.
pub struct NewsletterConfig {
    pub host: String,
    pub port: u16,
    pub username: String,
    pub password: String,
    pub folder: String,
}

impl NewsletterConfig {
    fn copy(&self) -> (r: NewsletterConfig)
        ensures
            r == *self,
    {
        NewsletterConfig {
            host: self.host.clone(),
            port: self.port,
            username: self.username.clone(),
            password: self.password.clone(),
            folder: self.folder.clone(),
        }
    }
}

/// The host, the user name or the password is missing.
pub open spec fn lacks_fields(input: NewsletterInput) -> bool {
    trimmed(input.host@).len() == 0 || trimmed(input.username@).len() == 0 || input.password@.len()
        == 0
}

/// The folder that is polled.
pub open spec fn polled_folder(folder: Seq<char>) -> Seq<char> {
    if trimmed(folder).len() == 0 {
        "INBOX"@
    } else {
        trimmed(folder)
    }
}

/// The name of the source: the title where there is one, else the user name.
pub open spec fn source_name(title: Option<Seq<char>>, username: Seq<char>) -> Seq<char> {
    match title {
        Some(t) if trimmed(t).len() > 0 => trimmed(t),
        _ => trimmed(username),
    }
}

/// `config` is the mailbox that was typed. The password is kept as it is: white space may be part
/// of it.
pub open spec fn is_config(config: NewsletterConfig, input: NewsletterInput) -> bool {
    &&& config.host@ == trimmed(input.host@)
    &&& config.port == input.port
    &&& config.username@ == trimmed(input.username@)
    &&& config.password == input.password
    &&& config.folder@ == polled_folder(input.folder@)
}

/// Reads the mailbox and the name of the source from what was typed.
pub fn newsletter_config(input: NewsletterInput) -> (r: AppResult<(NewsletterConfig, String)>)
    ensures
        match r {
            Ok(c) => !lacks_fields(input) && is_config(c.0, input) && c.1@ == source_name(
                option_text(input.title),
                input.username@,
            ),
            Err(e) => lacks_fields(input) && e@ == AppErrorView::Code("newsletterMissingFields"@),
        },
{
    let folder = trim(input.folder.as_str());
    let config = NewsletterConfig {
        host: trim(input.host.as_str()).to_string(),
        port: input.port,
        username: trim(input.username.as_str()).to_string(),
        password: input.password,
        folder: if folder.is_empty() {
            "INBOX".to_string()
        } else {
            folder.to_string()
        },
    };
    if config.host.as_str().is_empty() || config.username.as_str().is_empty()
        || config.password.as_str().is_empty() {
        return Err(AppError::code("newsletterMissingFields"));
    }
    let title = match &input.title {
        Some(t) => {
            let t = trim(t.as_str());
            if t.is_empty() {
                config.username.clone()
            } else {
                t.to_string()
            }
        },
        None => config.username.clone(),
    };
    Ok((config, title))
}

// ------------------------------------------------------------------ the machine

/// A mailbox on its way into the store.
pub struct Mailbox {
    pub config: NewsletterConfig,
    pub title: String,
    pub feed_url: String,
}

/// Messages being ingested.
pub struct Ingestion {
    pub id: i64,
    pub title: String,
    pub feed_url: String,
    /// The number of messages.
    pub count: u32,
    /// The message being ingested.
    pub next: u32,
    /// The unread articles stored so far.
    pub unread: u32,
    /// Whether each message so far gave a new unread article.
    pub answers: Ghost<Seq<bool>>,
}

impl Ingestion {
    /// `unread` counts the messages so far that gave a new unread article.
    pub open spec fn valid(self) -> bool {
        &&& self.next <= self.count
        &&& self.answers@.len() == self.next
        &&& self.unread == tally(self.answers@, true)
    }
}

/// Where an addition stands.
pub enum AddNewsletter {
    /// Waiting for the URL that stands for the mailbox.
    Naming { config: NewsletterConfig, title: String },
    /// Waiting to learn whether the mailbox is stored already.
    Looking { mailbox: Mailbox },
    /// Waiting for the poll.
    Probing { mailbox: Mailbox },
    /// Waiting for the id of the stored source.
    Inserting { mailbox: Mailbox, count: u32 },
    /// Waiting for a message to be stored.
    Ingesting(Ingestion),
    /// Waiting for the poll to be recorded.
    Recording(Ingestion),
    /// The result has been given.
    Over,
}

/// What happened outside.
pub enum NewsletterEvent {
    /// The URL that stands for the mailbox.
    Named(String),
    /// Whether the mailbox is stored already.
    Found(bool),
    /// The poll gave this many messages.
    Polled(u32),
    /// The poll took too long.
    TimedOut,
    /// The task that polls broke down.
    Broken(String),
    Inserted(i64),
    /// Whether the message gave a new unread article.
    Ingested(bool),
    Recorded { last_fetched_at: Option<i64> },
    /// What was asked for failed.
    Failed(AppError),
}

/// What to do next.
pub enum NewsletterAction {
    /// Give the URL that stands for the mailbox.
    Name { config: NewsletterConfig },
    /// Look the mailbox up in the store.
    Find { feed_url: String },
    /// Poll the mailbox for its recent messages, with a limit on the time.
    Poll { config: NewsletterConfig },
    /// Store the source.
    Insert { feed_url: String, title: String, config: NewsletterConfig },
    /// Store the article of this message, if it gives one.
    Ingest { id: i64, index: u32 },
    /// Record the poll.
    Record { id: i64 },
    /// Stop: this is the result.
    Stop(AppResult<Feed>),
}

/// The addition has failed with `e`.
pub open spec fn newsletter_fails(
    after: AddNewsletter,
    action: NewsletterAction,
    e: AppErrorView,
) -> bool {
    &&& after is Over
    &&& action matches NewsletterAction::Stop(Err(x)) && x@ == e
}

/// How an addition begins.
pub open spec fn newsletter_begins(
    input: NewsletterInput,
    state: AddNewsletter,
    action: NewsletterAction,
) -> bool {
    if lacks_fields(input) {
        newsletter_fails(state, action, AppErrorView::Code("newsletterMissingFields"@))
    } else {
        &&& state matches AddNewsletter::Naming { config, title } && is_config(config, input)
            && title@ == source_name(option_text(input.title), input.username@) && action
            == NewsletterAction::Name { config }
    }
}

/// The ingestion goes on with its next message, or is recorded behind the last one.
pub open spec fn ingests(
    id: i64,
    title: String,
    feed_url: String,
    count: u32,
    answers: Seq<bool>,
    after: AddNewsletter,
    action: NewsletterAction,
) -> bool {
    let index = answers.len();
    &&& match after {
        AddNewsletter::Ingesting(i) => {
            &&& index < count
            &&& i.id == id && i.title == title && i.feed_url == feed_url && i.count == count
            &&& i.answers@ == answers
            &&& action matches NewsletterAction::Ingest { id: a, index: n } && a == id && n == index
        },
        AddNewsletter::Recording(i) => {
            &&& index >= count
            &&& i.id == id && i.title == title && i.feed_url == feed_url && i.count == count
            &&& i.answers@ == answers
            &&& action == NewsletterAction::Record { id }
        },
        _ => false,
    }
}

/// `feed` is the stored source.
pub open spec fn is_newsletter_feed(
    feed: Feed,
    ingestion: Ingestion,
    last_fetched_at: Option<i64>,
) -> bool {
    &&& feed.id == ingestion.id
    &&& feed.feed_url == ingestion.feed_url
    &&& feed.site_url is None
    &&& feed.title == ingestion.title
    &&& feed.description is None
    &&& feed.favicon_url is None
    &&& feed.folder_id is None
    &&& feed.source_type == SourceType::Newsletter
    &&& feed.last_fetched_at == last_fetched_at
    &&& feed.fetch_error is None
    &&& feed.unread_count == tally(ingestion.answers@, true)
}

/// What follows an event.
pub open spec fn newsletter_follows(
    before: AddNewsletter,
    event: NewsletterEvent,
    after: AddNewsletter,
    action: NewsletterAction,
) -> bool {
    match event {
        NewsletterEvent::Failed(e) => newsletter_fails(after, action, e@),
        NewsletterEvent::Named(feed_url) => {
            &&& after == AddNewsletter::Looking {
                mailbox: Mailbox {
                    config: before->Naming_config,
                    title: before->Naming_title,
                    feed_url,
                },
            }
            &&& action == NewsletterAction::Find { feed_url }
        },
        NewsletterEvent::Found(true) => newsletter_fails(
            after,
            action,
            AppErrorView::Code("alreadySubscribed"@),
        ),
        NewsletterEvent::Found(false) => {
            &&& after == AddNewsletter::Probing { mailbox: before->Looking_mailbox }
            &&& action == NewsletterAction::Poll { config: before->Looking_mailbox.config }
        },
        NewsletterEvent::TimedOut => newsletter_fails(
            after,
            action,
            AppErrorView::Code("newsletterPollTimeout"@),
        ),
        NewsletterEvent::Broken(m) => newsletter_fails(
            after,
            action,
            AppErrorView::Other("newsletter poll task: "@ + m@),
        ),
        NewsletterEvent::Polled(count) => {
            let mailbox = before->Probing_mailbox;
            &&& after == AddNewsletter::Inserting { mailbox, count }
            &&& action == NewsletterAction::Insert {
                feed_url: mailbox.feed_url,
                title: mailbox.title,
                config: mailbox.config,
            }
        },
        NewsletterEvent::Inserted(id) => ingests(
            id,
            before->Inserting_mailbox.title,
            before->Inserting_mailbox.feed_url,
            before->Inserting_count,
            Seq::empty(),
            after,
            action,
        ),
        NewsletterEvent::Ingested(fresh) => ingests(
            before->Ingesting_0.id,
            before->Ingesting_0.title,
            before->Ingesting_0.feed_url,
            before->Ingesting_0.count,
            before->Ingesting_0.answers@.push(fresh),
            after,
            action,
        ),
        NewsletterEvent::Recorded { last_fetched_at } => {
            &&& after is Over
            &&& action matches NewsletterAction::Stop(Ok(feed)) && is_newsletter_feed(
                feed,
                before->Recording_0,
                last_fetched_at,
            )
        },
    }
}

/// Turns to the next message.
fn ingest(ingestion: Ingestion) -> (r: (AddNewsletter, NewsletterAction))
    requires
        ingestion.valid(),
    ensures
        r.0.valid(),
        ingests(
            ingestion.id,
            ingestion.title,
            ingestion.feed_url,
            ingestion.count,
            ingestion.answers@,
            r.0,
            r.1,
        ),
{
    let id: i64 = ingestion.id;
    let index: u32 = ingestion.next;
    if index < ingestion.count {
        (AddNewsletter::Ingesting(ingestion), NewsletterAction::Ingest { id, index })
    } else {
        (AddNewsletter::Recording(ingestion), NewsletterAction::Record { id })
    }
}

fn refuse(code: &'static str) -> (r: (AddNewsletter, NewsletterAction))
    ensures
        r.0.valid(),
        newsletter_fails(r.0, r.1, AppErrorView::Code(code@)),
{
    (AddNewsletter::Over, NewsletterAction::Stop(Err(AppError::code(code))))
}

impl AddNewsletter {
    /// Every message before the next one has been answered for, and a message is left while
    /// messages are being ingested.
    pub open spec fn valid(self) -> bool {
        match self {
            AddNewsletter::Ingesting(i) => i.valid() && i.next < i.count,
            AddNewsletter::Recording(i) => i.valid() && i.next == i.count,
            _ => true,
        }
    }

    /// The addition waits for this event.
    pub open spec fn awaits(self, event: NewsletterEvent) -> bool {
        match event {
            NewsletterEvent::Named(_) => self is Naming,
            NewsletterEvent::Found(_) => self is Looking,
            NewsletterEvent::Polled(_) => self is Probing,
            NewsletterEvent::TimedOut => self is Probing,
            NewsletterEvent::Broken(_) => self is Probing,
            NewsletterEvent::Inserted(_) => self is Inserting,
            NewsletterEvent::Ingested(_) => self is Ingesting,
            NewsletterEvent::Recorded { .. } => self is Recording,
            NewsletterEvent::Failed(_) => !(self is Over),
        }
    }

    /// Begins to add a mailbox.
    pub fn start(input: NewsletterInput) -> (r: (AddNewsletter, NewsletterAction))
        ensures
            r.0.valid(),
            newsletter_begins(input, r.0, r.1),
    {
        match newsletter_config(input) {
            Ok((config, title)) => {
                let copy = config.copy();
                (AddNewsletter::Naming { config, title }, NewsletterAction::Name { config: copy })
            },
            Err(e) => (AddNewsletter::Over, NewsletterAction::Stop(Err(e))),
        }
    }

    /// Takes the next step. When the addition succeeds, every message has been answered for, and
    /// the unread count is the number of messages that gave a new unread article.
    pub fn step(self, event: NewsletterEvent) -> (r: (AddNewsletter, NewsletterAction))
        requires
            self.valid(),
            self.awaits(event),
        ensures
            r.0.valid(),
            newsletter_follows(self, event, r.0, r.1),
            r.1 matches NewsletterAction::Stop(Ok(feed)) ==> self is Recording
                && self->Recording_0.answers@.len() == self->Recording_0.count,
    {
        match (self, event) {
            (_, NewsletterEvent::Failed(e)) => (
                AddNewsletter::Over,
                NewsletterAction::Stop(Err(e)),
            ),
            (AddNewsletter::Naming { config, title }, NewsletterEvent::Named(feed_url)) => {
                let target = feed_url.clone();
                (
                    AddNewsletter::Looking { mailbox: Mailbox { config, title, feed_url } },
                    NewsletterAction::Find { feed_url: target },
                )
            },
            (AddNewsletter::Looking { mailbox }, NewsletterEvent::Found(known)) => if known {
                refuse("alreadySubscribed")
            } else {
                let config = mailbox.config.copy();
                (AddNewsletter::Probing { mailbox }, NewsletterAction::Poll { config })
            },
            (AddNewsletter::Probing { .. }, NewsletterEvent::TimedOut) => refuse(
                "newsletterPollTimeout",
            ),
            (AddNewsletter::Probing { .. }, NewsletterEvent::Broken(m)) => {
                let mut message = "newsletter poll task: ".to_string();
                message.append(m.as_str());
                (AddNewsletter::Over, NewsletterAction::Stop(Err(AppError::other(message))))
            },
            (AddNewsletter::Probing { mailbox }, NewsletterEvent::Polled(count)) => {
                let action = NewsletterAction::Insert {
                    feed_url: mailbox.feed_url.clone(),
                    title: mailbox.title.clone(),
                    config: mailbox.config.copy(),
                };
                (AddNewsletter::Inserting { mailbox, count }, action)
            },
            (AddNewsletter::Inserting { mailbox, count }, NewsletterEvent::Inserted(id)) => ingest(
                Ingestion {
                    id,
                    title: mailbox.title,
                    feed_url: mailbox.feed_url,
                    count,
                    next: 0,
                    unread: 0,
                    answers: Ghost(Seq::empty()),
                },
            ),
            (AddNewsletter::Ingesting(before), NewsletterEvent::Ingested(fresh)) => {
                let ghost known = before.answers@;
                let unread: u32 = if fresh {
                    proof {
                        lemma_tally_bound(known, true);
                    }
                    before.unread + 1
                } else {
                    before.unread
                };
                assert(known.push(fresh).drop_last() =~= known);
                ingest(
                    Ingestion {
                        id: before.id,
                        title: before.title,
                        feed_url: before.feed_url,
                        count: before.count,
                        next: before.next + 1,
                        unread,
                        answers: Ghost(known.push(fresh)),
                    },
                )
            },
            (
                AddNewsletter::Recording(ingestion),
                NewsletterEvent::Recorded { last_fetched_at },
            ) => (
                AddNewsletter::Over,
                NewsletterAction::Stop(
                    Ok(
                        Feed {
                            id: ingestion.id,
                            feed_url: ingestion.feed_url,
                            site_url: None,
                            title: ingestion.title,
                            description: None,
                            favicon_url: None,
                            folder_id: None,
                            source_type: SourceType::Newsletter,
                            last_fetched_at,
                            fetch_error: None,
                            unread_count: ingestion.unread as i64,
                        },
                    ),
                ),
            ),
            (_, _) => {
                assert(false);
                refuse("unexpectedEvent")
            },
        }
    }
}

/// A mailbox that is stored already is refused before the slow round-trip: the mailbox is polled
/// only once the store has answered that it does not hold it, and stored only after a poll.
pub proof fn law_duplicates_are_refused_before_the_poll(
    before: AddNewsletter,
    event: NewsletterEvent,
    after: AddNewsletter,
    action: NewsletterAction,
)
    requires
        before.awaits(event),
        newsletter_follows(before, event, after, action),
    ensures
        action is Poll ==> event == NewsletterEvent::Found(false),
        action is Insert ==> event is Polled,
{
}

// ------------------------------------------------------------------------- laws

/// A mailbox is read from what was typed: host, user name and folder without white space around
/// them, the port and the password as they are. Where no folder is typed it is `INBOX`, and where
/// the title is blank or missing the user name stands for it.
pub proof fn law_typed_mailboxes(
    input: NewsletterInput,
    config: NewsletterConfig,
    lead: Seq<char>,
    core: Seq<char>,
    tail: Seq<char>,
)
    requires
        is_config(config, input),
        forall|i: int| 0 <= i < lead.len() ==> is_white_space(#[trigger] lead[i]),
        forall|i: int| 0 <= i < tail.len() ==> is_white_space(#[trigger] tail[i]),
        core.len() > 0 ==> !is_white_space(core[0]) && !is_white_space(core.last()),
    ensures
        ({
            let typed = lead + core + tail;
            &&& input.host@ == typed ==> config.host@ == core
            &&& input.username@ == typed ==> config.username@ == core
            &&& input.folder@ == typed && core.len() > 0 ==> config.folder@ == core
            &&& input.folder@ == typed && core.len() == 0 ==> config.folder@ == "INBOX"@
            &&& config.password@ == input.password@
            &&& config.port == input.port
            &&& core.len() > 0 ==> source_name(Some(typed), input.username@) == core
            &&& core.len() == 0 ==> source_name(Some(typed), input.username@) == source_name(
                None,
                input.username@,
            )
            &&& input.username@ == typed ==> source_name(None, input.username@) == core
            &&& core.len() == 0 && (input.host@ == typed || input.username@ == typed)
                ==> lacks_fields(input)
            &&& input.password@.len() == 0 ==> lacks_fields(input)
        }),
{
    law_trimming(lead, core, tail);
}

/// Nothing is missing where the host, the user name and the password all hold something.
pub proof fn law_complete_mailboxes_are_accepted(input: NewsletterInput, h: int, u: int)
    requires
        0 <= h < input.host@.len(),
        !is_white_space(input.host@[h]),
        0 <= u < input.username@.len(),
        !is_white_space(input.username@[u]),
        input.password@.len() > 0,
    ensures
        !lacks_fields(input),
{
    lemma_blank(input.host@);
    lemma_blank(input.username@);
}

/// An addition as it went: the events between its states, and the action behind each state.
pub struct NewsletterRun {
    pub states: Seq<AddNewsletter>,
    pub actions: Seq<NewsletterAction>,
    pub events: Seq<NewsletterEvent>,
}

/// An addition of `input` went like this.
pub open spec fn is_newsletter_run(input: NewsletterInput, run: NewsletterRun) -> bool {
    &&& run.states.len() == run.events.len() + 1
    &&& run.actions.len() == run.events.len() + 1
    &&& run.states[0].valid()
    &&& newsletter_begins(input, run.states[0], run.actions[0])
    &&& forall|i: int|
        0 <= i < run.events.len() ==> {
            &&& run.states[i].awaits(#[trigger] run.events[i])
            &&& run.states[i + 1].valid()
            &&& newsletter_follows(
                run.states[i],
                run.events[i],
                run.states[i + 1],
                run.actions[i + 1],
            )
        }
}

/// The mailbox and the name that this state carries are these.
pub open spec fn keeps_mailbox(state: AddNewsletter, c: NewsletterConfig, name: Seq<char>) -> bool {
    match state {
        AddNewsletter::Naming { config, title } => config == c && title@ == name,
        AddNewsletter::Looking { mailbox } => mailbox.config == c && mailbox.title@ == name,
        AddNewsletter::Probing { mailbox } => mailbox.config == c && mailbox.title@ == name,
        AddNewsletter::Inserting { mailbox, .. } => mailbox.config == c && mailbox.title@ == name,
        AddNewsletter::Ingesting(i) => i.title@ == name,
        AddNewsletter::Recording(i) => i.title@ == name,
        AddNewsletter::Over => true,
    }
}

/// The mailbox that was typed is the one that is polled and stored, password and all, under the name
/// that was chosen for it; a mailbox with a field missing goes nowhere.
pub proof fn law_the_typed_mailbox_is_added(input: NewsletterInput, run: NewsletterRun, j: int)
    requires
        is_newsletter_run(input, run),
        0 <= j < run.actions.len(),
    ensures
        lacks_fields(input) ==> run.events.len() == 0 && (
        run.actions[0] matches NewsletterAction::Stop(Err(e)) && e@ == AppErrorView::Code(
            "newsletterMissingFields"@,
        )),
        !lacks_fields(input) ==> {
            let name = source_name(option_text(input.title), input.username@);
            &&& run.actions[0] is Name
            &&& is_config(run.actions[0]->Name_config, input)
            &&& keeps_mailbox(run.states[j], run.actions[0]->Name_config, name)
            &&& match run.actions[j] {
                NewsletterAction::Poll { config } => config == run.actions[0]->Name_config,
                NewsletterAction::Insert { config, title, .. } => {
                    config == run.actions[0]->Name_config && title@ == name
                },
                NewsletterAction::Stop(Ok(feed)) => feed.title@ == name,
                _ => true,
            }
        },
    decreases j,
{
    if lacks_fields(input) {
        if run.events.len() > 0 {
            let e = run.events[0];
            assert(run.states[0].awaits(e));
        }
    } else if j > 0 {
        law_the_typed_mailbox_is_added(input, run, j - 1);
        let e = run.events[j - 1];
        assert(run.states[j - 1].awaits(e));
    }
}

/// The URL that stands for the mailbox in this state is this one.
pub open spec fn keeps_address(state: AddNewsletter, url: Seq<char>) -> bool {
    match state {
        AddNewsletter::Naming { .. } => false,
        AddNewsletter::Looking { mailbox } => mailbox.feed_url@ == url,
        AddNewsletter::Probing { mailbox } => mailbox.feed_url@ == url,
        AddNewsletter::Inserting { mailbox, .. } => mailbox.feed_url@ == url,
        AddNewsletter::Ingesting(i) => i.feed_url@ == url,
        AddNewsletter::Recording(i) => i.feed_url@ == url,
        AddNewsletter::Over => true,
    }
}

/// The mailbox is looked up, stored and returned under the URL that was given for it.
pub proof fn law_the_named_mailbox_is_stored(
    input: NewsletterInput,
    run: NewsletterRun,
    url: String,
    i: int,
    j: int,
)
    requires
        is_newsletter_run(input, run),
        0 <= i < j < run.actions.len(),
        run.events[i] == NewsletterEvent::Named(url),
    ensures
        keeps_address(run.states[j], url@),
        j == i + 1 ==> run.actions[j] is Find,
        match run.actions[j] {
            NewsletterAction::Find { feed_url } => feed_url@ == url@,
            NewsletterAction::Insert { feed_url, .. } => feed_url@ == url@,
            NewsletterAction::Stop(Ok(feed)) => feed.feed_url@ == url@,
            _ => true,
        },
    decreases j,
{
    if i < j - 1 {
        law_the_named_mailbox_is_stored(input, run, url, i, j - 1);
    }
    let e = run.events[j - 1];
    assert(run.states[j - 1].awaits(e));
}

/// What keeps a mailbox out is said: that it is known already, that the poll took too long, how the
/// polling task broke down, or what else failed.
pub proof fn law_refused_mailboxes_say_why(input: NewsletterInput, run: NewsletterRun, i: int)
    requires
        is_newsletter_run(input, run),
        0 <= i < run.events.len(),
    ensures
        match run.events[i] {
            NewsletterEvent::Found(true) => {
                run.actions[i + 1] matches NewsletterAction::Stop(Err(e)) && e@
                    == AppErrorView::Code("alreadySubscribed"@)
            },
            NewsletterEvent::Found(false) => run.actions[i + 1] is Poll,
            NewsletterEvent::TimedOut => {
                run.actions[i + 1] matches NewsletterAction::Stop(Err(e)) && e@
                    == AppErrorView::Code("newsletterPollTimeout"@)
            },
            NewsletterEvent::Broken(m) => {
                run.actions[i + 1] matches NewsletterAction::Stop(Err(e)) && e@
                    == AppErrorView::Other("newsletter poll task: "@ + m@)
            },
            NewsletterEvent::Failed(error) => {
                run.actions[i + 1] matches NewsletterAction::Stop(Err(e)) && e@ == error@
            },
            NewsletterEvent::Polled(_) => run.actions[i + 1] is Insert,
            NewsletterEvent::Recorded { .. } => {
                run.actions[i + 1] matches NewsletterAction::Stop(Ok(_))
            },
            _ => !(run.actions[i + 1] is Stop),
        },
{
    let e = run.events[i];
    assert(run.states[i].awaits(e));
}

/// How many of these events report a new unread article.
pub open spec fn fresh_in(events: Seq<NewsletterEvent>) -> nat
    decreases events.len(),
{
    if events.len() == 0 {
        0
    } else {
        fresh_in(events.drop_last()) + if events.last() == NewsletterEvent::Ingested(true) {
            1nat
        } else {
            0nat
        }
    }
}

proof fn lemma_fresh(input: NewsletterInput, run: NewsletterRun, j: int)
    requires
        is_newsletter_run(input, run),
        0 <= j < run.states.len(),
    ensures
        match run.states[j] {
            AddNewsletter::Ingesting(i) => tally(i.answers@, true) == fresh_in(run.events.take(j)),
            AddNewsletter::Recording(i) => tally(i.answers@, true) == fresh_in(run.events.take(j)),
            AddNewsletter::Over => true,
            _ => fresh_in(run.events.take(j)) == 0,
        },
    decreases j,
{
    if j > 0 {
        lemma_fresh(input, run, j - 1);
        let e = run.events[j - 1];
        assert(run.states[j - 1].awaits(e));
        assert(run.events.take(j).drop_last() =~= run.events.take(j - 1));
        assert(run.events.take(j).last() == e);
        if let AddNewsletter::Ingesting(i) = run.states[j - 1] {
            if let NewsletterEvent::Ingested(fresh) = e {
                assert(i.answers@.push(fresh).drop_last() =~= i.answers@);
            }
        }
    }
}

/// The source that is returned counts the messages that gave a new unread article, is of the
/// newsletter kind, was fetched when the poll was recorded, and has nothing that only a web feed has.
pub proof fn law_the_returned_source(input: NewsletterInput, run: NewsletterRun, j: int)
    requires
        is_newsletter_run(input, run),
        0 <= j < run.actions.len(),
    ensures
        run.actions[j] matches NewsletterAction::Stop(Ok(feed)) ==> {
            &&& j > 0
            &&& feed.unread_count == fresh_in(run.events.take(j))
            &&& run.events[j - 1] == (NewsletterEvent::Recorded {
                last_fetched_at: feed.last_fetched_at,
            })
            &&& feed.source_type == SourceType::Newsletter
            &&& feed.site_url is None && feed.description is None && feed.favicon_url is None
            &&& feed.folder_id is None && feed.fetch_error is None
        },
{
    if j > 0 {
        lemma_fresh(input, run, j - 1);
        let e = run.events[j - 1];
        assert(run.states[j - 1].awaits(e));
        assert(run.events.take(j).drop_last() =~= run.events.take(j - 1));
        assert(run.events.take(j).last() == e);
    }
}

/// A source with `count` messages was stored under `n`, and `done` of them have been answered for.
pub open spec fn has_ingested(state: AddNewsletter, n: i64, count: u32, done: int) -> bool {
    match state {
        AddNewsletter::Ingesting(i) => i.id == n && i.count == count && i.answers@.len() == done
            && done < count,
        AddNewsletter::Recording(i) => i.id == n && i.count == count && i.answers@.len() == done
            && done == count,
        AddNewsletter::Over => true,
        _ => false,
    }
}

/// Once a source is stored, its messages are ingested one by one, from the first to the last of those
/// that the poll gave, and then the poll is recorded; all of it under the id that the store gave.
pub proof fn law_messages_are_ingested_in_turn(
    input: NewsletterInput,
    run: NewsletterRun,
    count: u32,
    n: i64,
    i: int,
    j: int,
)
    requires
        is_newsletter_run(input, run),
        0 <= i,
        i + 1 < j < run.actions.len(),
        run.events[i] == NewsletterEvent::Polled(count),
        run.events[i + 1] == NewsletterEvent::Inserted(n),
    ensures
        has_ingested(run.states[j], n, count, j - (i + 2)),
        match run.actions[j] {
            NewsletterAction::Ingest { id, index } => id == n && index == j - (i + 2) && index < count,
            NewsletterAction::Record { id } => id == n && j - (i + 2) == count,
            NewsletterAction::Stop(Ok(feed)) => feed.id == n && j - (i + 2) == count + 1,
            NewsletterAction::Stop(Err(_)) => run.events[j - 1] is Failed,
            _ => false,
        },
    decreases j,
{
    let polled = run.events[i];
    assert(run.states[i].awaits(polled));
    let e = run.events[j - 1];
    assert(run.states[j - 1].awaits(e));
    if j > i + 2 {
        law_messages_are_ingested_in_turn(input, run, count, n, i, j - 1);
    }
}

/// A source is shown as it is stored, field by field.
pub proof fn law_sources_are_shown_as_stored(source: NewsletterSource, row: NewsletterRow)
    requires
        shows(source, row),
    ensures
        source.feed_id == row.feed_id,
        source.title@ == row.title@,
        source.host@ == row.host@,
        source.port == row.port,
        source.username@ == row.username@,
        source.folder@ == row.folder@,
{
}

} // verus!
