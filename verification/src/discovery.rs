//! Searching for feeds: what the page that a query names offers, and what the curated directory
//! lists.
//!
//! [`FeedSearch`] holds the decisions: whoever drives it performs each [`SearchAction`] and hands
//! back what came of it as a [`SearchEvent`].

use crate::text::same_text;
use vstd::prelude::*;

verus! {

/// One result of a feed search.
pub struct DiscoveryResult {
    pub feed_url: String,
    pub title: Option<String>,
    /// The position in the curated directory of a result that comes from there.
    pub entry: Option<usize>,
}

/// What became of the page that the query names.
pub enum Scrape {
    /// The query is no URL, or the page could not be fetched.
    Nothing,
    /// The page is itself a feed.
    Feed { final_url: String, title: Option<String> },
    /// The page links to these feeds.
    Page { feed_urls: Vec<String> },
}

impl DiscoveryResult {
    /// A result that a fetched page gave.
    pub fn from_scrape(feed_url: String, title: Option<String>) -> (r: DiscoveryResult)
        ensures
            r == (DiscoveryResult { feed_url, title, entry: None }),
    {
        DiscoveryResult { feed_url, title, entry: None }
    }
}

/// The results that a scraped page gives.
pub open spec fn scraped(scrape: Scrape) -> Seq<DiscoveryResult> {
    match scrape {
        Scrape::Nothing => seq![],
        Scrape::Feed { final_url, title } => seq![
            DiscoveryResult { feed_url: final_url, title, entry: None },
        ],
        Scrape::Page { feed_urls } => Seq::new(
            feed_urls@.len(),
            |i: int| DiscoveryResult { feed_url: feed_urls@[i], title: None, entry: None },
        ),
    }
}

/// Some result is at `url`.
pub open spec fn lists(results: Seq<DiscoveryResult>, url: Seq<char>) -> bool {
    exists|i: int| 0 <= i < results.len() && #[trigger] results[i].feed_url@ == url
}

/// `results` with every hit at its end whose feed is not listed yet.
pub open spec fn merged(results: Seq<DiscoveryResult>, hits: Seq<DiscoveryResult>) -> Seq<
    DiscoveryResult,
>
    decreases hits.len(),
{
    if hits.len() == 0 {
        results
    } else {
        let head = merged(results, hits.drop_last());
        if lists(head, hits.last().feed_url@) {
            head
        } else {
            head.push(hits.last())
        }
    }
}

/// Whether some result is at `url`.
fn is_listed(results: &Vec<DiscoveryResult>, url: &str) -> (b: bool)
    ensures
        b == lists(results@, url@),
{
    let n: usize = results.len();
    let mut i: usize = 0;
    while i < n
        invariant
            n == results@.len(),
            i <= n,
            forall|k: int| 0 <= k < i ==> #[trigger] results@[k].feed_url@ != url@,
        decreases n - i,
    {
        if same_text(results[i].feed_url.as_str(), url) {
            assert(results@[i as int].feed_url@ == url@);
            return true;
        }
        i = i + 1;
    }
    false
}

fn copy_title(title: &Option<String>) -> (r: Option<String>)
    ensures
        r == *title,
{
    match title {
        Some(t) => Some(t.clone()),
        None => None,
    }
}

/// Merges live page-scrape results with the matches of the curated directory: first what the page
/// gave, being most specific to what was typed, then each directory match that is not listed yet.
/// A page that gave nothing leaves the directory matches.
pub fn search_feed_directory(scrape: Scrape, hits: &Vec<DiscoveryResult>) -> (r: Vec<
    DiscoveryResult,
>)
    ensures
        r@ == merged(scraped(scrape), hits@),
{
    let mut results: Vec<DiscoveryResult> = Vec::new();
    match &scrape {
        Scrape::Nothing => {},
        Scrape::Feed { final_url, title } => {
            results.push(DiscoveryResult::from_scrape(final_url.clone(), copy_title(title)));
        },
        Scrape::Page { feed_urls } => {
            let n: usize = feed_urls.len();
            let mut i: usize = 0;
            while i < n
                invariant
                    n == feed_urls@.len(),
                    i <= n,
                    scrape == (Scrape::Page { feed_urls: *feed_urls }),
                    results@ == scraped(scrape).take(i as int),
                decreases n - i,
            {
                results.push(DiscoveryResult::from_scrape(feed_urls[i].clone(), None));
                i = i + 1;
                assert(results@ =~= scraped(scrape).take(i as int));
            }
        },
    }
    assert(results@ =~= scraped(scrape));
    let n: usize = hits.len();
    let mut i: usize = 0;
    assert(hits@.take(0) =~= seq![]);
    while i < n
        invariant
            n == hits@.len(),
            i <= n,
            results@ == merged(scraped(scrape), hits@.take(i as int)),
        decreases n - i,
    {
        let ghost next = hits@.take(i + 1);
        assert(next.drop_last() =~= hits@.take(i as int));
        assert(next.last() == hits@[i as int]);
        if !is_listed(&results, hits[i].feed_url.as_str()) {
            results.push(
                DiscoveryResult {
                    feed_url: hits[i].feed_url.clone(),
                    title: copy_title(&hits[i].title),
                    entry: hits[i].entry,
                },
            );
        }
        i = i + 1;
    }
    assert(hits@.take(n as int) =~= hits@);
    results
}

// ------------------------------------------------------------------ the machine

/// Where a search stands.
pub enum FeedSearch {
    /// Waiting for the page that the query names.
    Fetching,
    /// Waiting for the title of the feed that the page is.
    Titling { final_url: String },
    /// Waiting for the feeds that the page links to.
    Scraping,
    /// Waiting for the matches of the directory.
    Listing { scrape: Scrape },
    /// The result has been given.
    Over,
}

/// What happened outside.
pub enum SearchEvent {
    /// A document arrived from `final_url`.
    Document { final_url: String, is_feed: bool },
    /// The page could not be fetched.
    Unreachable,
    /// The title of the feed, if it could be parsed and has one.
    Title(Option<String>),
    /// The feeds that the page links to.
    Candidates(Vec<String>),
    /// The matches of the directory.
    Hits(Vec<DiscoveryResult>),
}

/// What to do next.
pub enum SearchAction {
    Fetch { url: String },
    /// Read the title of the feed that was fetched from here.
    ReadTitle { base: String },
    /// Find the feeds that the page fetched from here links to.
    Discover { page_url: String },
    SearchDirectory,
    /// Stop: these are the results.
    Stop(Vec<DiscoveryResult>),
}

/// The directory is next.
pub open spec fn lists_directory(scrape: Scrape, after: FeedSearch, action: SearchAction) -> bool {
    &&& after == FeedSearch::Listing { scrape }
    &&& action is SearchDirectory
}

/// How a search begins: the page is fetched where the query stands for a URL.
pub open spec fn search_begins(
    target: Option<String>,
    state: FeedSearch,
    action: SearchAction,
) -> bool {
    match target {
        Some(url) => state is Fetching && action == SearchAction::Fetch { url },
        None => lists_directory(Scrape::Nothing, state, action),
    }
}

/// What follows an event.
pub open spec fn search_follows(
    before: FeedSearch,
    event: SearchEvent,
    after: FeedSearch,
    action: SearchAction,
) -> bool {
    match event {
        SearchEvent::Unreachable => lists_directory(Scrape::Nothing, after, action),
        SearchEvent::Document { final_url, is_feed } => if is_feed {
            &&& after == FeedSearch::Titling { final_url }
            &&& action == SearchAction::ReadTitle { base: final_url }
        } else {
            &&& after is Scraping
            &&& action == SearchAction::Discover { page_url: final_url }
        },
        SearchEvent::Title(title) => lists_directory(
            Scrape::Feed { final_url: before->Titling_final_url, title },
            after,
            action,
        ),
        SearchEvent::Candidates(feed_urls) => lists_directory(
            Scrape::Page { feed_urls },
            after,
            action,
        ),
        SearchEvent::Hits(hits) => {
            &&& after is Over
            &&& action matches SearchAction::Stop(results) && results@ == merged(
                scraped(before->Listing_scrape),
                hits@,
            )
        },
    }
}

impl FeedSearch {
    /// The search waits for this event.
    pub open spec fn awaits(self, event: SearchEvent) -> bool {
        match event {
            SearchEvent::Document { .. } => self is Fetching,
            SearchEvent::Unreachable => self is Fetching,
            SearchEvent::Title(_) => self is Titling,
            SearchEvent::Candidates(_) => self is Scraping,
            SearchEvent::Hits(_) => self is Listing,
        }
    }

    /// Begins a search. `target` is the URL that the query stands for, if it looks like one.
    pub fn start(target: Option<String>) -> (r: (FeedSearch, SearchAction))
        ensures
            search_begins(target, r.0, r.1),
    {
        match target {
            Some(url) => (FeedSearch::Fetching, SearchAction::Fetch { url }),
            None => (
                FeedSearch::Listing { scrape: Scrape::Nothing },
                SearchAction::SearchDirectory,
            ),
        }
    }

    /// Takes the next step.
    pub fn step(self, event: SearchEvent) -> (r: (FeedSearch, SearchAction))
        requires
            self.awaits(event),
        ensures
            search_follows(self, event, r.0, r.1),
    {
        let scrape = match (self, event) {
            (_, SearchEvent::Document { final_url, is_feed }) => {
                if is_feed {
                    let base = final_url.clone();
                    return (FeedSearch::Titling { final_url }, SearchAction::ReadTitle { base });
                }
                return (FeedSearch::Scraping, SearchAction::Discover { page_url: final_url });
            },
            (FeedSearch::Listing { scrape }, SearchEvent::Hits(hits)) => {
                return (
                    FeedSearch::Over,
                    SearchAction::Stop(search_feed_directory(scrape, &hits)),
                );
            },
            (FeedSearch::Titling { final_url }, SearchEvent::Title(title)) => Scrape::Feed {
                final_url,
                title,
            },
            (_, SearchEvent::Candidates(feed_urls)) => Scrape::Page { feed_urls },
            (_, _) => Scrape::Nothing,
        };
        (FeedSearch::Listing { scrape }, SearchAction::SearchDirectory)
    }
}

// ------------------------------------------------------------------------- laws

/// What the page gave comes first, and in its own order.
pub proof fn law_scrape_results_come_first(
    results: Seq<DiscoveryResult>,
    hits: Seq<DiscoveryResult>,
)
    ensures
        results.is_prefix_of(merged(results, hits)),
    decreases hits.len(),
{
    if hits.len() > 0 {
        law_scrape_results_come_first(results, hits.drop_last());
        let head = merged(results, hits.drop_last());
        assert(head.push(hits.last()).subrange(0, results.len() as int) =~= head.subrange(
            0,
            results.len() as int,
        ));
    } else {
        assert(results.subrange(0, results.len() as int) =~= results);
    }
}

/// No feed that the directory matches is lost, and nothing is listed that nobody found.
pub proof fn law_nothing_is_lost_or_made_up(
    results: Seq<DiscoveryResult>,
    hits: Seq<DiscoveryResult>,
    url: Seq<char>,
)
    ensures
        lists(merged(results, hits), url) <==> lists(results, url) || lists(hits, url),
    decreases hits.len(),
{
    if hits.len() > 0 {
        let front = hits.drop_last();
        let last = hits.last();
        let head = merged(results, front);
        law_nothing_is_lost_or_made_up(results, front, url);
        assert(lists(hits, url) <==> lists(front, url) || last.feed_url@ == url) by {
            if lists(front, url) {
                let i = choose|i: int| 0 <= i < front.len() && #[trigger] front[i].feed_url@ == url;
                assert(hits[i].feed_url@ == url);
            }
            if last.feed_url@ == url {
                assert(hits[hits.len() - 1].feed_url@ == url);
            }
            if lists(hits, url) && last.feed_url@ != url {
                let i = choose|i: int| 0 <= i < hits.len() && #[trigger] hits[i].feed_url@ == url;
                assert(front[i].feed_url@ == url);
            }
        }
        let longer = head.push(last);
        assert(lists(longer, url) <==> lists(head, url) || last.feed_url@ == url) by {
            if lists(head, url) {
                let i = choose|i: int| 0 <= i < head.len() && #[trigger] head[i].feed_url@ == url;
                assert(longer[i].feed_url@ == url);
            }
            if last.feed_url@ == url {
                assert(longer[head.len() as int].feed_url@ == url);
            }
            if lists(longer, url) && last.feed_url@ != url {
                let i = choose|i: int|
                    0 <= i < longer.len() && #[trigger] longer[i].feed_url@ == url;
                assert(head[i].feed_url@ == url);
            }
        }
    }
}

/// A directory match is never a second listing of a feed.
pub proof fn law_directory_matches_are_not_repeated(
    results: Seq<DiscoveryResult>,
    hits: Seq<DiscoveryResult>,
)
    ensures
        forall|i: int, j: int|
            0 <= i < j < merged(results, hits).len() && results.len() <= j
                ==> #[trigger] merged(results, hits)[i].feed_url@ != #[trigger] merged(
                results,
                hits,
            )[j].feed_url@,
    decreases hits.len(),
{
    law_scrape_results_come_first(results, hits);
    if hits.len() > 0 {
        let head = merged(results, hits.drop_last());
        law_directory_matches_are_not_repeated(results, hits.drop_last());
        let all = merged(results, hits);
        assert forall|i: int, j: int| 0 <= i < j < all.len() && results.len() <= j implies
            #[trigger] all[i].feed_url@ != #[trigger] all[j].feed_url@ by {
            assert(all[i] == head[i]);
            if j < head.len() {
                assert(all[j] == head[j]);
            } else {
                assert(head[i].feed_url@ != hits.last().feed_url@);
            }
        }
    }
}

/// A page that gave nothing does not break discovery: distinct directory matches all stay, in
/// their order.
pub proof fn law_failed_scrape_leaves_the_directory(hits: Seq<DiscoveryResult>)
    requires
        forall|i: int, j: int|
            0 <= i < j < hits.len() ==> #[trigger] hits[i].feed_url@ != #[trigger] hits[j].feed_url@,
    ensures
        merged(scraped(Scrape::Nothing), hits) == hits,
    decreases hits.len(),
{
    let nothing = scraped(Scrape::Nothing);
    if hits.len() > 0 {
        let front = hits.drop_last();
        assert forall|i: int, j: int| 0 <= i < j < front.len() implies #[trigger] front[i].feed_url@
            != #[trigger] front[j].feed_url@ by {
            assert(front[i] == hits[i]);
            assert(front[j] == hits[j]);
        }
        law_failed_scrape_leaves_the_directory(front);
        assert(!lists(front, hits.last().feed_url@)) by {
            assert forall|i: int| 0 <= i < front.len() implies #[trigger] front[i].feed_url@
                != hits.last().feed_url@ by {
                assert(front[i] == hits[i]);
                assert(hits[i].feed_url@ != hits[hits.len() - 1].feed_url@);
            }
        }
        assert(front.push(hits.last()) =~= hits);
    } else {
        assert(hits =~= nothing);
    }
}

/// A page that cannot be fetched does not break the search: it ends with the distinct matches of
/// the directory.
pub proof fn law_unreachable_pages_are_not_fatal(
    asked: FeedSearch,
    action: SearchAction,
    hits: Vec<DiscoveryResult>,
    after: FeedSearch,
    result: SearchAction,
)
    requires
        search_follows(FeedSearch::Fetching, SearchEvent::Unreachable, asked, action),
        search_follows(asked, SearchEvent::Hits(hits), after, result),
        forall|i: int, j: int|
            0 <= i < j < hits@.len() ==> #[trigger] hits@[i].feed_url@
                != #[trigger] hits@[j].feed_url@,
    ensures
        asked.awaits(SearchEvent::Hits(hits)),
        result matches SearchAction::Stop(results) && results@ == hits@,
{
    law_failed_scrape_leaves_the_directory(hits@);
}

/// Matches come in one by one: merging two lists of matches is merging the one and then the other,
/// and a single match is added at the end exactly where no result has its address.
pub proof fn law_matches_are_added_one_by_one(
    results: Seq<DiscoveryResult>,
    a: Seq<DiscoveryResult>,
    b: Seq<DiscoveryResult>,
    hit: DiscoveryResult,
)
    ensures
        merged(results, a + b) == merged(merged(results, a), b),
        (exists|i: int| 0 <= i < results.len() && #[trigger] results[i].feed_url@ == hit.feed_url@)
            ==> merged(results, seq![hit]) == results,
        (forall|i: int| 0 <= i < results.len() ==> #[trigger] results[i].feed_url@ != hit.feed_url@)
            ==> merged(results, seq![hit]) == results.push(hit),
        merged(results, seq![]) == results,
    decreases b.len(),
{
    if b.len() == 0 {
        assert(a + b =~= a);
    } else {
        law_matches_are_added_one_by_one(results, a, b.drop_last(), hit);
        assert((a + b).drop_last() =~= a + b.drop_last());
    }
    assert(seq![hit].drop_last() =~= Seq::<DiscoveryResult>::empty());
    assert(merged(results, Seq::<DiscoveryResult>::empty()) == results);
}

/// Matches that are new all stay, behind what the page gave and in their own order, each as the
/// directory lists it.
pub proof fn law_new_matches_all_stay(
    results: Seq<DiscoveryResult>,
    hits: Seq<DiscoveryResult>,
)
    requires
        forall|i: int, j: int|
            0 <= i < j < hits.len() ==> #[trigger] hits[i].feed_url@ != #[trigger] hits[j].feed_url@,
        forall|i: int, j: int|
            0 <= i < results.len() && 0 <= j < hits.len() ==> #[trigger] results[i].feed_url@
                != #[trigger] hits[j].feed_url@,
    ensures
        merged(results, hits) == results + hits,
    decreases hits.len(),
{
    if hits.len() == 0 {
        assert(results + hits =~= results);
    } else {
        let front = hits.drop_last();
        let last = hits.len() - 1;
        assert forall|i: int, j: int| 0 <= i < j < front.len() implies #[trigger] front[i].feed_url@
            != #[trigger] front[j].feed_url@ by {
            assert(front[i] == hits[i] && front[j] == hits[j]);
        }
        assert forall|i: int, j: int| 0 <= i < results.len() && 0 <= j < front.len() implies
            #[trigger] results[i].feed_url@ != #[trigger] front[j].feed_url@ by {
            assert(front[j] == hits[j]);
        }
        law_new_matches_all_stay(results, front);
        let head = results + front;
        assert forall|i: int| 0 <= i < head.len() implies #[trigger] head[i].feed_url@
            != hits[last].feed_url@ by {
            if i < results.len() {
                assert(head[i] == results[i]);
            } else {
                assert(head[i] == hits[i - results.len()]);
            }
        }
        assert(head.push(hits[last]) =~= results + hits);
    }
}

/// What a page gives: the feed that it is, under the address that it came from and with its title, or
/// every feed that it links to, in the order of the links and without a title.
pub proof fn law_pages_give_their_feeds(
    final_url: String,
    title: Option<String>,
    feed_urls: Vec<String>,
    i: int,
)
    ensures
        scraped(Scrape::Nothing).len() == 0,
        ({
            let one = scraped(Scrape::Feed { final_url, title });
            &&& one.len() == 1
            &&& one[0].feed_url@ == final_url@
            &&& one[0].title == title
            &&& one[0].entry is None
        }),
        ({
            let all = scraped(Scrape::Page { feed_urls });
            &&& all.len() == feed_urls@.len()
            &&& 0 <= i < all.len() ==> all[i].feed_url@ == feed_urls@[i]@ && all[i].title is None
                && all[i].entry is None
        }),
{
}

/// A search as it went: the events between its states, and the action behind each state.
pub struct SearchRun {
    pub states: Seq<FeedSearch>,
    pub actions: Seq<SearchAction>,
    pub events: Seq<SearchEvent>,
}

/// A search for `target` went like this.
pub open spec fn is_search_run(target: Option<String>, run: SearchRun) -> bool {
    &&& run.states.len() == run.events.len() + 1
    &&& run.actions.len() == run.events.len() + 1
    &&& search_begins(target, run.states[0], run.actions[0])
    &&& forall|i: int|
        0 <= i < run.events.len() ==> run.states[i].awaits(#[trigger] run.events[i])
            && search_follows(
            run.states[i],
            run.events[i],
            run.states[i + 1],
            run.actions[i + 1],
        )
}

/// What each step of a search leads to: the page that the query names is fetched, a feed is asked for
/// its title and any other page for its links, and then the directory is searched, also where there
/// is no page or it cannot be fetched.
pub proof fn law_every_search_asks_the_directory(
    target: Option<String>,
    run: SearchRun,
    i: int,
)
    requires
        is_search_run(target, run),
        0 <= i < run.actions.len(),
    ensures
        i == 0 ==> match target {
            Some(t) => run.actions[0] matches SearchAction::Fetch { url } && url@ == t@,
            None => run.actions[0] is SearchDirectory,
        },
        i > 0 ==> match run.events[i - 1] {
            SearchEvent::Document { final_url, is_feed } => if is_feed {
                run.actions[i] matches SearchAction::ReadTitle { base } && base@ == final_url@
            } else {
                run.actions[i] matches SearchAction::Discover { page_url } && page_url@ == final_url@
            },
            SearchEvent::Hits(_) => run.actions[i] is Stop,
            _ => run.actions[i] is SearchDirectory,
        },
        run.actions[i] is Stop ==> i > 0 && run.actions[i - 1] is SearchDirectory,
{
    if i > 0 {
        let e = run.events[i - 1];
        assert(run.states[i - 1].awaits(e));
        if i > 1 {
            let earlier = run.events[i - 2];
            assert(run.states[i - 2].awaits(earlier));
        }
    }
}

/// The results of a search: a page that is a feed heads them under the address that it came from, a
/// page that links to feeds heads them with its links, and without either the matches of the
/// directory stand alone.
pub proof fn law_search_results(target: Option<String>, run: SearchRun, i: int)
    requires
        is_search_run(target, run),
        0 < i < run.events.len(),
        run.events[i] is Hits,
    ensures
        run.actions[i + 1] matches SearchAction::Stop(results) && match run.events[i - 1] {
            SearchEvent::Title(title) => {
                &&& i > 1
                &&& run.events[i - 2] is Document
                &&& results@.len() > 0
                &&& results@[0].feed_url@ == run.events[i - 2]->final_url@
                &&& results@[0].title == title
                &&& results@ == merged(seq![results@[0]], run.events[i]->Hits_0@)
            },
            SearchEvent::Candidates(links) => {
                &&& results@.len() >= links@.len()
                &&& forall|k: int|
                    0 <= k < links@.len() ==> #[trigger] results@[k].feed_url@ == links@[k]@
                &&& results@ == merged(results@.take(links@.len() as int), run.events[i]->Hits_0@)
            },
            _ => results@ == merged(seq![], run.events[i]->Hits_0@),
        },
{
    let e = run.events[i];
    assert(run.states[i].awaits(e));
    let before = run.events[i - 1];
    assert(run.states[i - 1].awaits(before));
    let hits = run.events[i]->Hits_0@;
    let scrape = run.states[i]->Listing_scrape;
    let first = scraped(scrape);
    law_scrape_results_come_first(first, hits);
    let all = merged(first, hits);
    assert(all.subrange(0, first.len() as int) == first);
    assert(all.take(first.len() as int) =~= first);
    assert forall|k: int| 0 <= k < first.len() implies #[trigger] all[k] == first[k] by {
        assert(all.subrange(0, first.len() as int)[k] == first[k]);
    }
    match before {
        SearchEvent::Title(title) => {
            assert(run.states[i - 1] is Titling);
            assert(i > 1);
            let document = run.events[i - 2];
            assert(run.states[i - 2].awaits(document));
            assert(first =~= seq![all[0]]);
        },
        SearchEvent::Candidates(links) => {},
        _ => {
            assert(first =~= seq![]);
        },
    }
}

} // verus!
