//! Importing a list of subscriptions.
//!
//! [`OpmlImport`] goes through the list inside one transaction: feeds that are stored already are
//! passed over, the others are inserted into their folder and counted.

use crate::error::{AppError, AppResult};
use vstd::prelude::*;

verus! {

/// One feed of an imported list.
pub struct OpmlFeed {
    pub feed_url: String,
    pub title: String,
    /// The name of the folder that the feed goes into.
    pub folder: Option<String>,
}

/// Where an import stands.
#[derive(Debug, Clone, Copy, PartialEq, Eq, Structural)]
pub enum ImportPhase {
    /// Waiting to learn whether the next feed is stored already.
    Looking,
    /// Waiting for the id of its folder.
    Sorting,
    /// Waiting for it to be stored.
    Inserting,
    /// Waiting for the transaction to be committed.
    Committing,
    /// The result has been given.
    Over,
}

/// What happened outside.
pub enum ImportEvent {
    /// Whether the feed is stored already.
    Found(bool),
    /// The id of the folder.
    Folder(i64),
    /// What was asked for is done.
    Done,
    /// What was asked for failed.
    Failed(AppError),
}

/// What to do next.
pub enum ImportAction {
    /// Look the feed up in the store.
    Find { feed_url: String },
    /// Find or make the folder of this name.
    ResolveFolder { name: String },
    /// Store the feed.
    Insert { feed_url: String, title: String, folder_id: Option<i64> },
    /// Commit the transaction.
    Commit,
    /// Stop: this is the result. An error leaves the transaction to be rolled back.
    Stop(AppResult<usize>),
}

/// An import on its way.
pub struct OpmlImport {
    pub feeds: Vec<OpmlFeed>,
    /// The feed that is being handled.
    pub next: usize,
    /// The feeds stored so far.
    pub added: usize,
    pub phase: ImportPhase,
    /// What the store answered so far, feed by feed.
    pub answers: Ghost<Seq<bool>>,
}

/// How often `answers` holds `answer`.
pub open spec fn tally(answers: Seq<bool>, answer: bool) -> nat
    decreases answers.len(),
{
    if answers.len() == 0 {
        0
    } else {
        tally(answers.drop_last(), answer) + if answers.last() == answer {
            1nat
        } else {
            0nat
        }
    }
}

pub proof fn lemma_tally_bound(answers: Seq<bool>, answer: bool)
    ensures
        tally(answers, answer) <= answers.len(),
    decreases answers.len(),
{
    if answers.len() > 0 {
        lemma_tally_bound(answers.drop_last(), answer);
    }
}

/// The import goes on with feed number `next`, or commits behind the last one.
pub open spec fn goes_on(
    feeds: Seq<OpmlFeed>,
    next: int,
    added: int,
    after: OpmlImport,
    action: ImportAction,
) -> bool {
    &&& after.next == next
    &&& after.added == added
    &&& if next < feeds.len() {
        &&& after.phase == ImportPhase::Looking
        &&& action == ImportAction::Find { feed_url: feeds[next].feed_url }
    } else {
        &&& after.phase == ImportPhase::Committing
        &&& action is Commit
    }
}

/// The feed being handled is to be stored in a folder.
pub open spec fn inserts(
    before: OpmlImport,
    folder_id: Option<i64>,
    after: OpmlImport,
    action: ImportAction,
) -> bool {
    let feed = before.feeds@[before.next as int];
    &&& after.phase == ImportPhase::Inserting
    &&& after.next == before.next
    &&& after.added == before.added
    &&& action == ImportAction::Insert { feed_url: feed.feed_url, title: feed.title, folder_id }
}

/// What follows an event.
pub open spec fn import_follows(
    before: OpmlImport,
    event: ImportEvent,
    after: OpmlImport,
    action: ImportAction,
) -> bool {
    &&& after.feeds == before.feeds
    &&& match event {
        ImportEvent::Failed(e) => {
            &&& after.phase == ImportPhase::Over
            &&& action matches ImportAction::Stop(Err(x)) && x == e
        },
        ImportEvent::Found(true) => goes_on(
            before.feeds@,
            before.next + 1,
            before.added as int,
            after,
            action,
        ),
        ImportEvent::Found(false) => match before.feeds@[before.next as int].folder {
            Some(name) => {
                &&& after.phase == ImportPhase::Sorting
                &&& after.next == before.next
                &&& after.added == before.added
                &&& action == ImportAction::ResolveFolder { name }
            },
            None => inserts(before, None, after, action),
        },
        ImportEvent::Folder(id) => inserts(before, Some(id), after, action),
        ImportEvent::Done => if before.phase == ImportPhase::Inserting {
            goes_on(before.feeds@, before.next + 1, before.added + 1, after, action)
        } else {
            &&& after.phase == ImportPhase::Over
            &&& action matches ImportAction::Stop(Ok(n)) && n == before.added
        },
    }
}

impl OpmlImport {
    /// Every feed before the next one has been answered for, and `added` counts those that the
    /// store did not hold.
    pub open spec fn valid(self) -> bool {
        let known = self.answers@;
        match self.phase {
            ImportPhase::Looking => {
                &&& self.next < self.feeds@.len()
                &&& known.len() == self.next
                &&& self.added == tally(known, false)
            },
            ImportPhase::Sorting => {
                &&& self.next < self.feeds@.len()
                &&& known.len() == self.next + 1
                &&& !known.last()
                &&& self.added == tally(known.drop_last(), false)
            },
            ImportPhase::Inserting => {
                &&& self.next < self.feeds@.len()
                &&& known.len() == self.next + 1
                &&& !known.last()
                &&& self.added == tally(known.drop_last(), false)
            },
            ImportPhase::Committing => {
                &&& self.next == self.feeds@.len()
                &&& known.len() == self.next
                &&& self.added == tally(known, false)
            },
            ImportPhase::Over => true,
        }
    }

    /// The import waits for this event.
    pub open spec fn awaits(self, event: ImportEvent) -> bool {
        match event {
            ImportEvent::Found(_) => self.phase == ImportPhase::Looking,
            ImportEvent::Folder(_) => self.phase == ImportPhase::Sorting,
            ImportEvent::Done => self.phase == ImportPhase::Inserting || self.phase
                == ImportPhase::Committing,
            ImportEvent::Failed(_) => self.phase != ImportPhase::Over,
        }
    }

    /// Begins to import a list.
    pub fn start(feeds: Vec<OpmlFeed>) -> (r: (OpmlImport, ImportAction))
        ensures
            r.0.valid(),
            r.0.feeds == feeds,
            r.0.answers@.len() == 0,
            goes_on(feeds@, 0, 0, r.0, r.1),
    {
        let import = OpmlImport {
            feeds,
            next: 0,
            added: 0,
            phase: ImportPhase::Over,
            answers: Ghost(Seq::empty()),
        };
        import.go_on()
    }

    /// Turns to the next feed.
    fn go_on(self) -> (r: (OpmlImport, ImportAction))
        requires
            self.next <= self.feeds@.len(),
            self.answers@.len() == self.next,
            self.added == tally(self.answers@, false),
        ensures
            r.0.valid(),
            r.0.feeds == self.feeds,
            r.0.answers == self.answers,
            goes_on(self.feeds@, self.next as int, self.added as int, r.0, r.1),
    {
        let mut import = self;
        if import.next < import.feeds.len() {
            import.phase = ImportPhase::Looking;
            let feed_url = import.feeds[import.next].feed_url.clone();
            (import, ImportAction::Find { feed_url })
        } else {
            import.phase = ImportPhase::Committing;
            (import, ImportAction::Commit)
        }
    }

    /// Has the feed being handled stored.
    fn insert(self, folder_id: Option<i64>) -> (r: (OpmlImport, ImportAction))
        requires
            self.next < self.feeds@.len(),
            self.answers@.len() == self.next + 1,
            !self.answers@.last(),
            self.added == tally(self.answers@.drop_last(), false),
        ensures
            r.0.valid(),
            r.0.feeds == self.feeds,
            r.0.answers == self.answers,
            inserts(self, folder_id, r.0, r.1),
    {
        let mut import = self;
        import.phase = ImportPhase::Inserting;
        let feed_url = import.feeds[import.next].feed_url.clone();
        let title = import.feeds[import.next].title.clone();
        (import, ImportAction::Insert { feed_url, title, folder_id })
    }

    /// Takes the next step. When the import succeeds, the store has answered for every feed of the
    /// list, and the result counts the feeds that it did not hold.
    pub fn step(self, event: ImportEvent) -> (r: (OpmlImport, ImportAction))
        requires
            self.valid(),
            self.awaits(event),
        ensures
            r.0.valid(),
            import_follows(self, event, r.0, r.1),
            r.0.answers@ == match event {
                ImportEvent::Found(known) => self.answers@.push(known),
                _ => self.answers@,
            },
            r.1 matches ImportAction::Stop(Ok(n)) ==> self.answers@.len() == self.feeds@.len() && n
                == tally(self.answers@, false),
    {
        let mut import = self;
        let total: usize = import.feeds.len();
        match event {
            ImportEvent::Failed(e) => {
                import.phase = ImportPhase::Over;
                (import, ImportAction::Stop(Err(e)))
            },
            ImportEvent::Found(known) => {
                import.answers = Ghost(self.answers@.push(known));
                assert(import.answers@.drop_last() =~= self.answers@);
                if known {
                    import.next = import.next + 1;
                    return import.go_on();
                }
                let name = match &import.feeds[import.next].folder {
                    Some(name) => Some(name.clone()),
                    None => None,
                };
                match name {
                    Some(name) => {
                        import.phase = ImportPhase::Sorting;
                        (import, ImportAction::ResolveFolder { name })
                    },
                    None => import.insert(None),
                }
            },
            ImportEvent::Folder(id) => import.insert(Some(id)),
            ImportEvent::Done => {
                if import.phase == ImportPhase::Inserting {
                    proof {
                        lemma_tally_bound(self.answers@.drop_last(), false);
                    }
                    import.next = import.next + 1;
                    import.added = import.added + 1;
                    import.go_on()
                } else {
                    let added: usize = import.added;
                    import.phase = ImportPhase::Over;
                    (import, ImportAction::Stop(Ok(added)))
                }
            },
        }
    }
}

/// A feed is stored only when the store has just answered that it does not hold it, or once the
/// folder of such a feed is known.
pub proof fn law_known_feeds_are_passed_over(
    before: OpmlImport,
    event: ImportEvent,
    after: OpmlImport,
    action: ImportAction,
)
    requires
        before.valid(),
        before.awaits(event),
        import_follows(before, event, after, action),
        action is Insert,
    ensures
        event == ImportEvent::Found(false) || (event is Folder && !before.answers@.last()),
        action->Insert_feed_url == before.feeds@[before.next as int].feed_url,
{
}

/// The distinct URLs of a list.
pub open spec fn url_set(feeds: Seq<OpmlFeed>) -> Set<Seq<char>>
    decreases feeds.len(),
{
    if feeds.len() == 0 {
        Set::empty()
    } else {
        url_set(feeds.drop_last()).insert(feeds.last().feed_url@)
    }
}

/// An import as it went: the events between its states, the action behind each state, and the URLs
/// that stand in the store at each state, as the transaction sees it.
pub struct ImportRun {
    pub states: Seq<OpmlImport>,
    pub actions: Seq<ImportAction>,
    pub events: Seq<ImportEvent>,
    pub stores: Seq<Set<Seq<char>>>,
}

/// The store does what it is asked: it tells the truth about what it holds, takes up a feed that it
/// reports as stored, and changes in no other way.
pub open spec fn performs(
    action: ImportAction,
    event: ImportEvent,
    before: Set<Seq<char>>,
    after: Set<Seq<char>>,
) -> bool {
    match action {
        ImportAction::Find { feed_url } => after == before && (event matches ImportEvent::Found(known)
            ==> known == before.contains(feed_url@)),
        ImportAction::Insert { feed_url, .. } => after == if event is Done {
            before.insert(feed_url@)
        } else {
            before
        },
        _ => after == before,
    }
}

/// An import of `feeds` went like this.
pub open spec fn is_import_run(feeds: Seq<OpmlFeed>, run: ImportRun) -> bool {
    &&& run.states.len() == run.events.len() + 1
    &&& run.actions.len() == run.events.len() + 1
    &&& run.stores.len() == run.events.len() + 1
    &&& run.states[0].valid()
    &&& run.states[0].feeds@ == feeds
    &&& goes_on(feeds, 0, 0, run.states[0], run.actions[0])
    &&& forall|i: int|
        0 <= i < run.events.len() ==> {
            &&& run.states[i].awaits(#[trigger] run.events[i])
            &&& run.states[i + 1].valid()
            &&& import_follows(run.states[i], run.events[i], run.states[i + 1], run.actions[i + 1])
            &&& performs(run.actions[i], run.events[i], run.stores[i], run.stores[i + 1])
        }
}

/// How far an import has come: the store holds what it held and every feed before the next one, and
/// `added` counts those that are new.
pub open spec fn has_come_to(
    feeds: Seq<OpmlFeed>,
    start: Set<Seq<char>>,
    state: OpmlImport,
    action: ImportAction,
    store: Set<Seq<char>>,
) -> bool {
    let done = url_set(feeds.take(state.next as int));
    &&& state.feeds@ == feeds
    &&& start.subset_of(store)
    &&& state.phase != ImportPhase::Over ==> {
        &&& state.next <= feeds.len()
        &&& store == start.union(done)
        &&& state.added == done.difference(start).len()
    }
    &&& match state.phase {
        ImportPhase::Looking => action == ImportAction::Find {
            feed_url: feeds[state.next as int].feed_url,
        },
        ImportPhase::Sorting => action is ResolveFolder && !store.contains(
            feeds[state.next as int].feed_url@,
        ),
        ImportPhase::Inserting => {
            &&& state.next < feeds.len()
            &&& action is Insert
            &&& action->Insert_feed_url == feeds[state.next as int].feed_url
            &&& !store.contains(feeds[state.next as int].feed_url@)
        },
        ImportPhase::Committing => action is Commit && state.next == feeds.len(),
        ImportPhase::Over => action matches ImportAction::Stop(result) && (result matches Ok(n) ==> {
            &&& store == start.union(url_set(feeds))
            &&& n == url_set(feeds).difference(start).len()
        }),
    }
}

proof fn lemma_url_set_finite(feeds: Seq<OpmlFeed>)
    ensures
        url_set(feeds).finite(),
    decreases feeds.len(),
{
    if feeds.len() > 0 {
        lemma_url_set_finite(feeds.drop_last());
    }
}

/// One feed more.
proof fn lemma_next_feed(feeds: Seq<OpmlFeed>, k: int, start: Set<Seq<char>>)
    requires
        0 <= k < feeds.len(),
    ensures
        url_set(feeds.take(k + 1)) == url_set(feeds.take(k)).insert(feeds[k].feed_url@),
        ({
            let before = url_set(feeds.take(k));
            let after = url_set(feeds.take(k + 1));
            let url = feeds[k].feed_url@;
            &&& start.union(after) == start.union(before).insert(url)
            &&& start.union(before).contains(url) ==> after.difference(start).len()
                == before.difference(start).len()
            &&& !start.union(before).contains(url) ==> after.difference(start).len()
                == before.difference(start).len() + 1
        }),
{
    let before = url_set(feeds.take(k));
    let after = url_set(feeds.take(k + 1));
    let url = feeds[k].feed_url@;
    assert(feeds.take(k + 1).drop_last() =~= feeds.take(k));
    assert(feeds.take(k + 1).last() == feeds[k]);
    lemma_url_set_finite(feeds.take(k));
    assert(start.union(after) =~= start.union(before).insert(url));
    if start.union(before).contains(url) {
        assert(after.difference(start) =~= before.difference(start));
    } else {
        assert(after.difference(start) =~= before.difference(start).insert(url));
    }
}

proof fn lemma_import_progress(feeds: Seq<OpmlFeed>, run: ImportRun, i: int)
    requires
        is_import_run(feeds, run),
        0 <= i < run.states.len(),
    ensures
        has_come_to(feeds, run.stores[0], run.states[i], run.actions[i], run.stores[i]),
    decreases i,
{
    let start = run.stores[0];
    if i == 0 {
        assert(feeds.take(0) =~= seq![]);
        assert(url_set(feeds.take(0)) =~= Set::<Seq<char>>::empty());
        assert(start.union(Set::<Seq<char>>::empty()) =~= start);
        assert(Set::<Seq<char>>::empty().difference(start) =~= Set::<Seq<char>>::empty());
    } else {
        lemma_import_progress(feeds, run, i - 1);
        let event = run.events[i - 1];
        let before = run.states[i - 1];
        let k = before.next as int;
        if k < feeds.len() && before.phase != ImportPhase::Over {
            lemma_next_feed(feeds, k, start);
            let url = feeds[k].feed_url@;
            let held = start.union(url_set(feeds.take(k)));
            if held.contains(url) {
                assert(held.insert(url) =~= held);
            }
        }
        assert(feeds.take(feeds.len() as int) =~= feeds);
    }
}

/// A successful import stores every feed of the list that the store did not hold, keeps what it
/// held, and counts the distinct new URLs, however often the list repeats one.
pub proof fn law_import_adds_each_new_feed(feeds: Seq<OpmlFeed>, run: ImportRun, n: usize)
    requires
        is_import_run(feeds, run),
        run.actions.last() == ImportAction::Stop(Ok(n)),
    ensures
        run.stores.last() == run.stores[0].union(url_set(feeds)),
        n == url_set(feeds).difference(run.stores[0]).len(),
{
    lemma_import_progress(feeds, run, run.events.len() as int);
}

/// A feed is stored only while the store does not hold it, so that none is stored twice.
pub proof fn law_import_stores_no_feed_twice(feeds: Seq<OpmlFeed>, run: ImportRun, i: int)
    requires
        is_import_run(feeds, run),
        0 <= i < run.actions.len(),
        run.actions[i] is Insert,
    ensures
        !run.stores[i].contains(run.actions[i]->Insert_feed_url@),
        run.stores[0].subset_of(run.stores[i]),
{
    lemma_import_progress(feeds, run, i);
}

/// An import that fails has committed nothing: its transaction is rolled back, and no feed of it
/// stays.
pub proof fn law_failed_imports_are_not_committed(feeds: Seq<OpmlFeed>, run: ImportRun, j: int)
    requires
        is_import_run(feeds, run),
        run.actions.last() matches ImportAction::Stop(Err(_)),
        0 <= j < run.events.len(),
    ensures
        !(run.actions[j] is Commit && run.events[j] is Done),
{
    if run.actions[j] is Commit && run.events[j] is Done {
        lemma_import_progress(feeds, run, j);
        let event = run.events[j];
        assert(run.states[j].awaits(event));
        assert(run.states[j + 1].phase == ImportPhase::Over);
        if j + 1 < run.events.len() {
            let next = run.events[j + 1];
            assert(run.states[j + 1].awaits(next));
        }
        assert(run.actions[j + 1] == run.actions.last());
    }
}

/// Importing a list again adds nothing: no feed is stored, the store stays as it is, and the count
/// is zero.
pub proof fn law_second_import_adds_nothing(
    feeds: Seq<OpmlFeed>,
    first: ImportRun,
    n: usize,
    second: ImportRun,
    m: usize,
    i: int,
)
    requires
        is_import_run(feeds, first),
        first.actions.last() == ImportAction::Stop(Ok(n)),
        is_import_run(feeds, second),
        second.actions.last() == ImportAction::Stop(Ok(m)),
        second.stores[0] == first.stores.last(),
        0 <= i < second.actions.len(),
    ensures
        m == 0,
        second.stores.last() == second.stores[0],
        !(second.actions[i] is Insert),
{
    law_import_adds_each_new_feed(feeds, first, n);
    law_import_adds_each_new_feed(feeds, second, m);
    let start = second.stores[0];
    let urls = url_set(feeds);
    assert(start.union(urls) =~= start);
    assert(urls.difference(start) =~= Set::<Seq<char>>::empty());
    if second.actions[i] is Insert {
        law_import_stores_no_feed_twice(feeds, second, i);
        lemma_import_progress(feeds, second, i);
        lemma_url_in_set(feeds, second.states[i].next as int);
    }
}

proof fn lemma_url_in_set(feeds: Seq<OpmlFeed>, k: int)
    requires
        0 <= k < feeds.len(),
    ensures
        url_set(feeds).contains(feeds[k].feed_url@),
    decreases feeds.len(),
{
    if k < feeds.len() - 1 {
        lemma_url_in_set(feeds.drop_last(), k);
    }
}

/// Counting goes answer by answer.
pub proof fn law_answers_are_counted(a: Seq<bool>, b: Seq<bool>, answer: bool)
    ensures
        tally(a + b, answer) == tally(a, answer) + tally(b, answer),
        tally(seq![answer], answer) == 1,
        tally(seq![!answer], answer) == 0,
    decreases b.len(),
{
    reveal_with_fuel(tally, 2);
    assert(seq![answer].drop_last() =~= Seq::<bool>::empty());
    assert(seq![!answer].drop_last() =~= Seq::<bool>::empty());
    if b.len() == 0 {
        assert(a + b =~= a);
    } else {
        law_answers_are_counted(a, b.drop_last(), answer);
        assert((a + b).drop_last() =~= a + b.drop_last());
    }
}

/// How many feeds have been looked up by these actions.
pub open spec fn lookups(actions: Seq<ImportAction>) -> nat
    decreases actions.len(),
{
    if actions.len() == 0 {
        0
    } else {
        lookups(actions.drop_last()) + if actions.last() is Find {
            1nat
        } else {
            0nat
        }
    }
}

/// What an import is about in this state: which feed of the list, and what was asked for last.
pub open spec fn is_about_feed(feeds: Seq<OpmlFeed>, run: ImportRun, i: int) -> bool {
    let state = run.states[i];
    let k = state.next as int;
    &&& state.feeds@ == feeds
    &&& state.phase == ImportPhase::Looking ==> lookups(run.actions.take(i + 1)) == k + 1
    &&& state.phase == ImportPhase::Sorting ==> {
        &&& lookups(run.actions.take(i + 1)) == k + 1
        &&& k < feeds.len()
        &&& run.actions[i] matches ImportAction::ResolveFolder { name } && feeds[k].folder == Some(name)
    }
    &&& state.phase == ImportPhase::Inserting ==> lookups(run.actions.take(i + 1)) == k + 1
    &&& state.phase == ImportPhase::Committing ==> lookups(run.actions.take(i + 1)) == feeds.len()
        && k == feeds.len()
}

proof fn lemma_about_feed(feeds: Seq<OpmlFeed>, run: ImportRun, i: int)
    requires
        is_import_run(feeds, run),
        0 <= i < run.states.len(),
    ensures
        is_about_feed(feeds, run, i),
    decreases i,
{
    let now = run.actions.take(i + 1);
    assert(now.drop_last() =~= run.actions.take(i));
    assert(now.last() == run.actions[i]);
    if i == 0 {
        assert(run.actions.take(0) =~= Seq::<ImportAction>::empty());
    } else {
        lemma_about_feed(feeds, run, i - 1);
        let event = run.events[i - 1];
        assert(run.states[i - 1].awaits(event));
    }
}

/// The list is gone through from its first feed to its last: the lookups are those of its feeds, in
/// their order, and nothing is committed before all of them.
pub proof fn law_lists_are_walked_in_order(feeds: Seq<OpmlFeed>, run: ImportRun, i: int)
    requires
        is_import_run(feeds, run),
        0 <= i < run.actions.len(),
    ensures
        run.actions[i] matches ImportAction::Find { feed_url } ==> lookups(run.actions.take(i))
            < feeds.len() && feed_url@ == feeds[lookups(run.actions.take(i)) as int].feed_url@,
        run.actions[i] is Commit ==> lookups(run.actions.take(i)) == feeds.len(),
        i > 0 ==> (run.events[i - 1] matches ImportEvent::Failed(e) ==> run.actions[i]
            == ImportAction::Stop(Err(e))),
{
    lemma_about_feed(feeds, run, i);
    let now = run.actions.take(i + 1);
    assert(now.drop_last() =~= run.actions.take(i));
    assert(now.last() == run.actions[i]);
    if i > 0 {
        let event = run.events[i - 1];
        assert(run.states[i - 1].awaits(event));
    }
}

/// A feed is stored as the list has it: under its URL and its title, without a folder where it names
/// none, and else in the folder that was just found or made under the name that it gives.
pub proof fn law_feeds_are_stored_as_listed(feeds: Seq<OpmlFeed>, run: ImportRun, i: int) -> (k: int)
    requires
        is_import_run(feeds, run),
        0 <= i < run.actions.len(),
        run.actions[i] is Insert,
    ensures
        k == lookups(run.actions.take(i)) - 1,
        0 <= k < feeds.len(),
        run.actions[i]->Insert_feed_url@ == feeds[k].feed_url@,
        run.actions[i]->Insert_title@ == feeds[k].title@,
        match feeds[k].folder {
            None => {
                &&& run.actions[i]->folder_id is None
                &&& i > 0 && run.events[i - 1] == ImportEvent::Found(false)
            },
            Some(name) => {
                &&& i > 0
                &&& run.actions[i - 1] matches ImportAction::ResolveFolder { name: n } && n@ == name@
                &&& run.events[i - 1] matches ImportEvent::Folder(id) && run.actions[i]->folder_id
                    == Some(id)
            },
        },
{
    lemma_about_feed(feeds, run, i);
    let now = run.actions.take(i + 1);
    assert(now.drop_last() =~= run.actions.take(i));
    assert(now.last() == run.actions[i]);
    assert(i > 0);
    lemma_about_feed(feeds, run, i - 1);
    let event = run.events[i - 1];
    assert(run.states[i - 1].awaits(event));
    let k = run.states[i].next as int;
    assert(run.states[i].valid());
    k
}

/// An import goes on until the end of the list or until something fails: a known feed leads to the
/// next one, a new feed to its folder or into the store, a stored feed to the next one, and the
/// commit to the count.
pub proof fn law_imports_go_on_until_something_fails(feeds: Seq<OpmlFeed>, run: ImportRun, i: int)
    requires
        is_import_run(feeds, run),
        0 <= i < run.events.len(),
    ensures
        match run.events[i] {
            ImportEvent::Found(true) => run.actions[i + 1] is Find || run.actions[i + 1] is Commit,
            ImportEvent::Found(false) => {
                run.actions[i + 1] is ResolveFolder || run.actions[i + 1] is Insert
            },
            ImportEvent::Folder(_) => run.actions[i + 1] is Insert,
            ImportEvent::Done => {
                ||| run.actions[i] is Insert && (run.actions[i + 1] is Find
                    || run.actions[i + 1] is Commit)
                ||| run.actions[i] is Commit && (run.actions[i + 1] matches ImportAction::Stop(Ok(_)))
            },
            ImportEvent::Failed(e) => run.actions[i + 1] == ImportAction::Stop(Err(e)),
        },
{
    let event = run.events[i];
    assert(run.states[i].awaits(event));
    lemma_import_progress(feeds, run, i);
}

} // verus!
