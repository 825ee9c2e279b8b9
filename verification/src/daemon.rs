//! The state that the reconciliation loop guards, and the steps of one tick.
//!
//! A tick reaps finished downloads, takes over changed files, decides
//! whether to crawl, queues what a finished crawl found, and starts
//! downloads while there is room. Each step is a method of [`State`]; the
//! loop around them waits, reads and spawns.

use vstd::prelude::*;
use std::collections::VecDeque;
use crate::config::{Config, DownloadFilter};
use crate::error::Error;
use crate::laws::{
    covers, deduplicated, law_enqueue_keeps_dedup, law_reap_counts, law_reap_keeps_dedup,
    law_no_filter_keeps_all, law_start_keeps_dedup,
};
use crate::media::MediaEntry;
use crate::source::Sources;
use crate::text::{listed, texts};
use crate::time::{utc_now, Timestamp};

verus! {

/// What the loop and the admin interface share. `H` is whatever the caller
/// keeps to await one running download.
pub struct State<H> {
    pub config: Config,
    pub sources: Sources,
    /// Items waiting for a download, oldest first.
    pub dl_queue: VecDeque<MediaEntry>,
    /// Items being downloaded, each with the handle of its download.
    pub dl_tasks: Vec<(MediaEntry, H)>,
}

/// The links of a sequence of items, in order.
pub open spec fn links(entries: Seq<MediaEntry>) -> Seq<Seq<char>> {
    entries.map_values(|e: MediaEntry| e.link@)
}

/// The links of the items of a sequence of running downloads, in order.
pub open spec fn task_links<H>(tasks: Seq<(MediaEntry, H)>) -> Seq<Seq<char>> {
    tasks.map_values(|t: (MediaEntry, H)| t.0.link@)
}

/// Whether the download at position `i` is reported as finished. Positions
/// that `finished` does not cover count as still running.
pub open spec fn is_finished(finished: Seq<bool>, i: int) -> bool {
    0 <= i < finished.len() && finished[i]
}

/// The downloads that go on running, in their order.
pub open spec fn still_running<H>(tasks: Seq<(MediaEntry, H)>, finished: Seq<bool>) -> Seq<
    (MediaEntry, H),
>
    decreases tasks.len(),
{
    if tasks.len() == 0 {
        tasks
    } else if is_finished(finished, tasks.len() - 1) {
        still_running(tasks.drop_last(), finished)
    } else {
        still_running(tasks.drop_last(), finished).push(tasks.last())
    }
}

/// The downloads that are finished, the one started last coming first.
pub open spec fn finished_tasks<H>(tasks: Seq<(MediaEntry, H)>, finished: Seq<bool>) -> Seq<
    (MediaEntry, H),
>
    decreases tasks.len(),
{
    if tasks.len() == 0 {
        tasks
    } else if is_finished(finished, tasks.len() - 1) {
        seq![tasks.last()] + finished_tasks(tasks.drop_last(), finished)
    } else {
        finished_tasks(tasks.drop_last(), finished)
    }
}

/// Whether an item with the link `link` may join `queue`: no item of the
/// queue has that link, no running download has it (`busy`), and the
/// library does not hold it (`stored`).
pub open spec fn is_new(
    queue: Seq<MediaEntry>,
    busy: Seq<Seq<char>>,
    stored: Seq<Seq<char>>,
    link: Seq<char>,
) -> bool {
    !links(queue).contains(link) && !busy.contains(link) && !stored.contains(link)
}

/// The queue after the items of `found` were offered to it one by one, in
/// order: each joins at the back if it is new at that moment.
pub open spec fn admitted(
    queue: Seq<MediaEntry>,
    busy: Seq<Seq<char>>,
    stored: Seq<Seq<char>>,
    found: Seq<MediaEntry>,
) -> Seq<MediaEntry>
    decreases found.len(),
{
    if found.len() == 0 {
        queue
    } else {
        let earlier = admitted(queue, busy, stored, found.drop_last());
        if is_new(earlier, busy, stored, found.last().link@) {
            earlier.push(found.last())
        } else {
            earlier
        }
    }
}

/// Whether an item published at `published` gets past `filter` at the time
/// `now`. Without a filter every item does.
pub open spec fn passes(
    filter: Option<DownloadFilter>,
    published: Option<Timestamp>,
    now: Timestamp,
) -> bool {
    !(filter matches Some(f) && f.excludes(published, now))
}

/// The items of `found` that get past `filter` at the time `now`, in order.
pub open spec fn kept(filter: Option<DownloadFilter>, now: Timestamp, found: Seq<MediaEntry>) -> Seq<
    MediaEntry,
>
    decreases found.len(),
{
    if found.len() == 0 {
        found
    } else if passes(filter, found.last().published, now) {
        kept(filter, now, found.drop_last()).push(found.last())
    } else {
        kept(filter, now, found.drop_last())
    }
}

/// Whether the time since the last crawl calls for a new one: it does when
/// there was no crawl yet, or when more than `interval` seconds have gone.
pub open spec fn interval_over(since_last_sync: Option<u64>, interval: u64) -> bool {
    since_last_sync matches Some(seconds) ==> seconds > interval
}

/// How many more downloads may start when `running` are under way and the
/// limit is `parallel`.
pub open spec fn free_slots(parallel: u64, running: nat) -> nat {
    if parallel > running {
        (parallel - running) as nat
    } else {
        0
    }
}

/// How many downloads start when `queued` items wait.
pub open spec fn admissions(parallel: u64, running: nat, queued: nat) -> nat {
    if queued < free_slots(parallel, running) {
        queued
    } else {
        free_slots(parallel, running)
    }
}

/// A notice from the file watcher.
#[derive(Debug)]
pub struct FileEvent {
    /// Whether the files were only read, not changed.
    pub access: bool,
    /// The files the notice is about.
    pub paths: Vec<String>,
}

/// What a notice from the file watcher asks the loop to read again.
#[derive(Debug, Clone, Copy, PartialEq, Eq, Structural)]
pub enum Reload {
    Nothing,
    Config,
    Sources,
}

/// Whether an item is kept out of the queue by what the library answered
/// when it was asked for the item's link: `Ok(true)` says that the link is
/// recorded. An answer that failed keeps the item out too, so that nothing
/// is downloaded twice; a later crawl finds the item again.
pub fn counts_as_stored(answer: &Result<bool, Error>) -> (stored: bool)
    ensures
        stored == !(answer matches Ok(false)),
{
    match answer {
        Ok(recorded) => *recorded,
        Err(_) => true,
    }
}

/// Looks for a link among queued items.
fn queue_holds(queue: &VecDeque<MediaEntry>, link: &String) -> (held: bool)
    ensures
        held == links(queue@).contains(link@),
{
    let mut i: usize = 0;
    while i < queue.len()
        invariant
            i <= queue@.len(),
            !links(queue@.take(i as int)).contains(link@),
        decreases queue@.len() - i,
    {
        if queue[i].link == *link {
            assert(links(queue@)[i as int] == link@);
            return true;
        }
        assert(queue@.take(i + 1) == queue@.take(i as int).push(queue@[i as int]));
        assert(links(queue@.take(i + 1)) == links(queue@.take(i as int)).push(queue@[i as int].link@));
        i += 1;
    }
    assert(queue@.take(i as int) == queue@);
    false
}

/// Looks for a link among running downloads.
fn tasks_hold<H>(tasks: &Vec<(MediaEntry, H)>, link: &String) -> (held: bool)
    ensures
        held == task_links(tasks@).contains(link@),
{
    let mut i: usize = 0;
    while i < tasks.len()
        invariant
            i <= tasks@.len(),
            !task_links(tasks@.take(i as int)).contains(link@),
        decreases tasks@.len() - i,
    {
        if tasks[i].0.link == *link {
            assert(task_links(tasks@)[i as int] == link@);
            return true;
        }
        assert(tasks@.take(i + 1) == tasks@.take(i as int).push(tasks@[i as int]));
        assert(task_links(tasks@.take(i + 1)) == task_links(tasks@.take(i as int)).push(
            tasks@[i as int].0.link@,
        ));
        i += 1;
    }
    assert(tasks@.take(i as int) == tasks@);
    false
}

impl<H> State<H> {
    /// The links of the queue followed by those of the running downloads.
    pub open spec fn held_links(&self) -> Seq<Seq<char>> {
        links(self.dl_queue@) + task_links(self.dl_tasks@)
    }

    /// No link is held twice, in the queue, among the running downloads or
    /// across the two.
    pub open spec fn no_link_twice(&self) -> bool {
        self.held_links().no_duplicates()
    }

    /// No link is held twice, and none that is held is in `library`, the
    /// links of the downloads that were recorded.
    pub open spec fn deduplicated_with(&self, library: Set<Seq<char>>) -> bool {
        deduplicated(links(self.dl_queue@), task_links(self.dl_tasks@), library)
    }

    /// A state with nothing queued and nothing running.
    pub fn new(config: Config, sources: Sources) -> (state: Self)
        ensures
            state.config == config,
            state.sources == sources,
            state.dl_queue@.len() == 0,
            state.dl_tasks@.len() == 0,
            state.no_link_twice(),
            forall|library: Set<Seq<char>>| #[trigger] state.deduplicated_with(library),
    {
        let state = State { config, sources, dl_queue: VecDeque::new(), dl_tasks: Vec::new() };
        assert(state.held_links() =~= Seq::<Seq<char>>::empty());
        state
    }

    /// Takes the finished downloads out of the state. `finished[i]` tells
    /// whether the download at position `i` has ended. The others stay as
    /// they were, in their order; the finished ones are handed back, the one
    /// started last first.
    pub fn reap(&mut self, finished: &Vec<bool>) -> (done: Vec<(MediaEntry, H)>)
        ensures
            final(self).dl_tasks@ == still_running(old(self).dl_tasks@, finished@),
            done@ == finished_tasks(old(self).dl_tasks@, finished@),
            final(self).dl_tasks@.len() + done@.len() == old(self).dl_tasks@.len(),
            old(self).no_link_twice() ==> final(self).no_link_twice(),
            forall|library: Set<Seq<char>>, recorded: Set<Seq<char>>|
                #![trigger final(self).deduplicated_with(library.union(recorded))]
                old(self).deduplicated_with(library) && recorded.subset_of(
                    task_links(done@).to_set(),
                ) ==> final(self).deduplicated_with(library.union(recorded)),
            final(self).dl_queue == old(self).dl_queue,
            final(self).config == old(self).config,
            final(self).sources == old(self).sources,
    {
        let ghost before = self.dl_tasks@;
        proof {
            law_reap_counts(before, finished@);
            if self.no_link_twice() {
                law_reap_keeps_dedup(
                    links(self.dl_queue@),
                    before,
                    finished@,
                    Set::empty(),
                    Set::empty(),
                );
            }
            assert forall|library: Set<Seq<char>>, recorded: Set<Seq<char>>|
                self.deduplicated_with(library) && recorded.subset_of(
                    task_links(finished_tasks(before, finished@)).to_set(),
                ) implies deduplicated(
                links(self.dl_queue@),
                task_links(still_running(before, finished@)),
                library.union(recorded),
            ) by {
                law_reap_keeps_dedup(links(self.dl_queue@), before, finished@, library, recorded);
            }
        }
        let mut done: Vec<(MediaEntry, H)> = Vec::new();
        let mut running: Vec<(MediaEntry, H)> = Vec::new();
        let mut i: usize = self.dl_tasks.len();
        assert(before.take(i as int) == before);
        while i > 0
            invariant
                i <= before.len(),
                i == self.dl_tasks@.len(),
                self.dl_tasks@ == before.take(i as int),
                done@ + finished_tasks(before.take(i as int), finished@) == finished_tasks(
                    before,
                    finished@,
                ),
                still_running(before.take(i as int), finished@) + running@.reverse()
                    == still_running(before, finished@),
                self.dl_queue == old(self).dl_queue,
                self.config == old(self).config,
                self.sources == old(self).sources,
            decreases i,
        {
            let ghost prefix = before.take(i as int);
            let task = self.dl_tasks.pop().unwrap();
            i -= 1;
            assert(prefix.drop_last() == before.take(i as int));
            assert(prefix.last() == task);
            if i < finished.len() && finished[i] {
                assert(finished_tasks(prefix, finished@) == seq![task] + finished_tasks(
                    before.take(i as int),
                    finished@,
                ));
                assert(done@.push(task) + finished_tasks(before.take(i as int), finished@)
                    == done@ + (seq![task] + finished_tasks(before.take(i as int), finished@)));
                done.push(task);
            } else {
                assert(still_running(prefix, finished@) == still_running(
                    before.take(i as int),
                    finished@,
                ).push(task));
                assert(running@.push(task).reverse() == seq![task] + running@.reverse());
                assert(still_running(before.take(i as int), finished@).push(task)
                    + running@.reverse() == still_running(before.take(i as int), finished@) + (
                seq![task] + running@.reverse()));
                running.push(task);
            }
        }
        assert(before.take(0) == Seq::<(MediaEntry, H)>::empty());
        let mut j: usize = running.len();
        while j > 0
            invariant
                j == running@.len(),
                self.dl_tasks@ + running@.reverse() == still_running(before, finished@),
                self.dl_queue == old(self).dl_queue,
                self.config == old(self).config,
                self.sources == old(self).sources,
            decreases j,
        {
            let ghost rest = running@;
            let task = running.pop().unwrap();
            j -= 1;
            assert(rest.reverse() == seq![task] + running@.reverse());
            assert(self.dl_tasks@.push(task) + running@.reverse() == self.dl_tasks@ + (seq![task]
                + running@.reverse()));
            self.dl_tasks.push(task);
        }
        assert(running@.reverse() == Seq::<(MediaEntry, H)>::empty());
        done
    }
}

impl<H> State<H> {
    /// Whether an item with this link is queued or being downloaded.
    pub fn holds(&self, link: &String) -> (held: bool)
        ensures
            held == self.held_links().contains(link@),
    {
        let queued = queue_holds(&self.dl_queue, link);
        let running = tasks_hold(&self.dl_tasks, link);
        proof {
            let a = links(self.dl_queue@);
            let b = task_links(self.dl_tasks@);
            if queued {
                let i = choose|i: int| 0 <= i < a.len() && a[i] == link@;
                assert((a + b)[i] == link@);
            }
            if running {
                let i = choose|i: int| 0 <= i < b.len() && b[i] == link@;
                assert((a + b)[a.len() + i] == link@);
            }
        }
        queued || running
    }

    /// Offers the items that a crawl found to the queue, in their order.
    /// `stored` lists the links that the library already holds. An item
    /// joins the back of the queue unless its link is queued, being
    /// downloaded or stored; an item that joined counts as queued for those
    /// that follow.
    pub fn enqueue(&mut self, found: Vec<MediaEntry>, stored: &Vec<String>)
        ensures
            final(self).dl_queue@ == admitted(
                old(self).dl_queue@,
                task_links(old(self).dl_tasks@),
                texts(stored@),
                found@,
            ),
            old(self).no_link_twice() ==> final(self).no_link_twice(),
            forall|library: Set<Seq<char>>| #[trigger]
                old(self).deduplicated_with(library) && covers(texts(stored@), found@, library)
                    ==> final(self).deduplicated_with(library),
            final(self).dl_tasks == old(self).dl_tasks,
            final(self).config == old(self).config,
            final(self).sources == old(self).sources,
    {
        let ghost queue = self.dl_queue@;
        let ghost busy = task_links(self.dl_tasks@);
        let ghost all = found@;
        proof {
            if self.no_link_twice() {
                law_enqueue_keeps_dedup(queue, busy, texts(stored@), all, Set::empty());
            }
            assert forall|library: Set<Seq<char>>| #[trigger]
                self.deduplicated_with(library) && covers(
                    texts(stored@),
                    all,
                    library,
                ) implies deduplicated(
                links(admitted(queue, busy, texts(stored@), all)),
                busy,
                library,
            ) by {
                law_enqueue_keeps_dedup(queue, busy, texts(stored@), all, library);
            }
        }
        for e in it: found
            invariant
                it.seq() == all,
                self.dl_queue@ == admitted(queue, busy, texts(stored@), all.take(it.index() as int)),
                busy == task_links(self.dl_tasks@),
                self.dl_tasks == old(self).dl_tasks,
                self.config == old(self).config,
                self.sources == old(self).sources,
        {
            assert(all.take(it.index() + 1).drop_last() == all.take(it.index() as int));
            if !queue_holds(&self.dl_queue, &e.link) && !tasks_hold(&self.dl_tasks, &e.link)
                && !listed(stored, &e.link) {
                self.dl_queue.push_back(e);
            }
        }
        assert(all.take(all.len() as int) == all);
    }
}

impl<H> State<H> {
    /// What is to be read again on `event`: nothing when files were only
    /// read; else the configuration when its file is named; else the sources
    /// when their file is named.
    pub open spec fn reload_target(&self, event: FileEvent) -> Reload {
        if event.access {
            Reload::Nothing
        } else if texts(event.paths@).contains(self.config.path@) {
            Reload::Config
        } else if texts(event.paths@).contains(self.sources.path_of()) {
            Reload::Sources
        } else {
            Reload::Nothing
        }
    }

    /// Decides what a notice from the file watcher calls for.
    pub fn reload_for(&self, event: &FileEvent) -> (target: Reload)
        ensures
            target == self.reload_target(*event),
    {
        if event.access {
            Reload::Nothing
        } else if listed(&event.paths, &self.config.path) {
            Reload::Config
        } else if listed(&event.paths, self.sources.path()) {
            Reload::Sources
        } else {
            Reload::Nothing
        }
    }

    /// Decides whether a crawl starts now. `crawling` tells whether one is
    /// under way, `since_last_sync` how many seconds ago the last one
    /// started, if there was one. No crawl starts while one is under way.
    /// Else one starts when the interval is over; and if it is not, one
    /// starts when the sources have changed, which lowers their flag.
    pub fn sync_due(&mut self, crawling: bool, since_last_sync: Option<u64>) -> (due: bool)
        ensures
            due == (!crawling && (interval_over(since_last_sync, old(self).config.data.sync_interval)
                || old(self).sources.is_changed())),
            final(self).sources.is_changed() == (old(self).sources.is_changed() && (crawling
                || interval_over(since_last_sync, old(self).config.data.sync_interval))),
            final(self).sources.list() == old(self).sources.list(),
            final(self).sources.path_of() == old(self).sources.path_of(),
            final(self).config == old(self).config,
            final(self).dl_queue == old(self).dl_queue,
            final(self).dl_tasks == old(self).dl_tasks,
    {
        if crawling {
            return false;
        }
        let over = match since_last_sync {
            Some(seconds) => seconds > self.config.data.sync_interval,
            None => true,
        };
        over || self.sources.changed()
    }

    /// Drops from `found` the items that the configured filter excludes at
    /// the time `now`. The others stay in their order.
    pub fn filter_entries_at(&self, found: Vec<MediaEntry>, now: Timestamp) -> (fresh: Vec<
        MediaEntry,
    >)
        ensures
            fresh@ == kept(self.config.data.download_filter, now, found@),
    {
        let ghost all = found@;
        let mut fresh: Vec<MediaEntry> = Vec::new();
        for e in it: found
            invariant
                it.seq() == all,
                fresh@ == kept(self.config.data.download_filter, now, all.take(it.index() as int)),
        {
            assert(all.take(it.index() + 1).drop_last() == all.take(it.index() as int));
            let excluded = match &self.config.data.download_filter {
                Some(filter) => filter.filter_at(&e, now),
                None => false,
            };
            if !excluded {
                fresh.push(e);
            }
        }
        assert(all.take(all.len() as int) == all);
        fresh
    }

    /// Drops from `found` the items that the configured filter excludes at
    /// the time the clock shows. Without a filter nothing is dropped. The
    /// clock is read at most once, and only when the decision on some item
    /// hangs on it.
    pub fn filter_entries(&self, found: Vec<MediaEntry>) -> (fresh: Vec<MediaEntry>)
        ensures
            exists|now: Timestamp|
                fresh@ == #[trigger] kept(self.config.data.download_filter, now, found@),
            self.config.data.download_filter is None ==> fresh@ == found@,
    {
        let ghost all = found@;
        let ghost filter = self.config.data.download_filter;
        let mut clock: Option<Timestamp> = None;
        let mut fresh: Vec<MediaEntry> = Vec::new();
        for e in it: found
            invariant
                it.seq() == all,
                filter == self.config.data.download_filter,
                clock matches Some(now) ==> fresh@ == kept(filter, now, all.take(it.index() as int)),
                clock is None ==> forall|now: Timestamp|
                    fresh@ == #[trigger] kept(filter, now, all.take(it.index() as int)),
        {
            let ghost earlier = all.take(it.index() as int);
            assert(all.take(it.index() + 1).drop_last() == earlier);
            assert(all.take(it.index() + 1).last() == e);
            let excluded = match &self.config.data.download_filter {
                None => false,
                Some(rules) => {
                    if rules.filter_by_date(&e) {
                        true
                    } else {
                        match (e.published, rules.max_age) {
                            (Some(published), Some(limit)) => {
                                let now = match clock {
                                    Some(now) => now,
                                    None => utc_now(),
                                };
                                assert(fresh@ == kept(filter, now, earlier));
                                clock = Some(now);
                                published.older_than(limit, &now)
                            },
                            _ => false,
                        }
                    }
                },
            };
            let ghost before = fresh@;
            let ghost published = e.published;
            let ghost next = all.take(it.index() + 1);
            assert(clock matches Some(now) ==> excluded == !passes(filter, published, now));
            assert(clock is None ==> forall|now: Timestamp|
                excluded == !#[trigger] passes(filter, published, now));
            if !excluded {
                fresh.push(e);
            }
            proof {
                if clock is None {
                    assert forall|now: Timestamp| fresh@ == #[trigger] kept(filter, now, next) by {
                        assert(before == kept(filter, now, earlier));
                        assert(excluded == !passes(filter, published, now));
                    }
                }
            }
        }
        assert(all.take(all.len() as int) == all);
        proof {
            let now = match clock {
                Some(now) => now,
                None => Timestamp { secs: 0, nanos: 0 },
            };
            assert(fresh@ == kept(filter, now, all));
            if filter is None {
                law_no_filter_keeps_all(now, all);
            }
        }
        fresh
    }

    /// Starts downloads while there is room: as long as fewer downloads run
    /// than the configuration allows and the queue is not empty, the item at
    /// the front of the queue leaves it, `spawn` starts its download, and the
    /// item joins the running downloads with the handle that `spawn` gave.
    pub fn start_downloads<F: Fn(&MediaEntry) -> H>(&mut self, spawn: F)
        requires
            forall|e: MediaEntry| call_requires(spawn, (&e,)),
        ensures
            final(self).dl_queue@ == old(self).dl_queue@.skip(
                old(self).admitted_now() as int,
            ),
            final(self).dl_tasks@.len() == old(self).dl_tasks@.len() + old(self).admitted_now(),
            final(self).dl_tasks@.take(old(self).dl_tasks@.len() as int) == old(self).dl_tasks@,
            forall|i: int|
                0 <= i < old(self).admitted_now() ==> {
                    let task = #[trigger] final(self).dl_tasks@[old(self).dl_tasks@.len() + i];
                    task.0 == old(self).dl_queue@[i] && call_ensures(
                        spawn,
                        (&old(self).dl_queue@[i],),
                        task.1,
                    )
                },
            task_links(final(self).dl_tasks@) == task_links(old(self).dl_tasks@) + links(
                old(self).dl_queue@.take(old(self).admitted_now() as int),
            ),
            old(self).dl_tasks@.len() <= old(self).config.data.parallel_downloads ==> final(self)
                .dl_tasks@.len() <= old(self).config.data.parallel_downloads,
            old(self).no_link_twice() ==> final(self).no_link_twice(),
            forall|library: Set<Seq<char>>| #[trigger]
                old(self).deduplicated_with(library) ==> final(self).deduplicated_with(library),
            final(self).config == old(self).config,
            final(self).sources == old(self).sources,
    {
        let ghost queue = self.dl_queue@;
        let ghost tasks = self.dl_tasks@;
        let ghost goal = self.admitted_now();
        proof {
            if self.no_link_twice() {
                law_start_keeps_dedup(queue, task_links(tasks), Set::empty(), goal);
            }
            assert forall|library: Set<Seq<char>>| #[trigger]
                self.deduplicated_with(library) implies deduplicated(
                links(queue.skip(goal as int)),
                task_links(tasks) + links(queue.take(goal as int)),
                library,
            ) by {
                law_start_keeps_dedup(queue, task_links(tasks), library, goal);
            }
        }
        let parallel = self.config.data.parallel_downloads;
        let ghost mut started: nat = 0;
        while (self.dl_tasks.len() as u64) < parallel && self.dl_queue.len() > 0
            invariant
                forall|e: MediaEntry| call_requires(spawn, (&e,)),
                started <= goal,
                goal == admissions(parallel, tasks.len(), queue.len()),
                self.dl_queue@ == queue.skip(started as int),
                self.dl_tasks@.len() == tasks.len() + started,
                self.dl_tasks@.take(tasks.len() as int) == tasks,
                forall|i: int|
                    0 <= i < started ==> {
                        let task = #[trigger] self.dl_tasks@[tasks.len() + i];
                        task.0 == queue[i] && call_ensures(spawn, (&queue[i],), task.1)
                    },
                self.config == old(self).config,
                self.sources == old(self).sources,
            decreases goal - started,
        {
            let entry = self.dl_queue.pop_front().unwrap();
            assert(entry == queue[started as int]);
            let handle = spawn(&entry);
            let ghost earlier = self.dl_tasks@;
            self.dl_tasks.push((entry, handle));
            assert(self.dl_tasks@.take(tasks.len() as int) == earlier.take(tasks.len() as int));
            assert(queue.skip(started as int).subrange(1, queue.len() - started) == queue.skip(
                started as int + 1,
            ));
            proof {
                started = started + 1;
            }
        }
        proof {
            let after = self.dl_tasks@;
            assert(started == goal);
            assert(task_links(after) =~= task_links(tasks) + links(queue.take(goal as int))) by {
                assert forall|i: int| 0 <= i < after.len() implies task_links(after)[i] == (
                task_links(tasks) + links(queue.take(goal as int)))[i] by {
                    if i < tasks.len() {
                        assert(after.take(tasks.len() as int)[i] == after[i]);
                    } else {
                        assert(after[tasks.len() + (i - tasks.len())].0 == queue[i - tasks.len()]);
                    }
                }
            }
        }
    }

    /// How many downloads [`Self::start_downloads`] starts in this state.
    pub open spec fn admitted_now(&self) -> nat {
        admissions(
            self.config.data.parallel_downloads,
            self.dl_tasks@.len(),
            self.dl_queue@.len(),
        )
    }
}

} // verus!
