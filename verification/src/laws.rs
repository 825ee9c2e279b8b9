//! What every tick keeps true: no item is held twice, no more downloads
//! run than the configuration allows, and items leave the queue in the
//! order in which they joined it.

use vstd::prelude::*;
use crate::config::DownloadFilter;
use crate::daemon::{
    admissions, admitted, finished_tasks, free_slots, is_new, kept, links, passes, still_running,
    task_links,
};
use crate::media::MediaEntry;
use crate::time::Timestamp;

verus! {

/// No link occurs twice among the queued items and the running downloads,
/// and none of their links is in the library.
pub open spec fn deduplicated(
    queue: Seq<Seq<char>>,
    running: Seq<Seq<char>>,
    library: Set<Seq<char>>,
) -> bool {
    &&& (queue + running).no_duplicates()
    &&& forall|l: Seq<char>| #[trigger] library.contains(l) ==> !(queue + running).contains(l)
}

/// Whether `stored` names every link of `found` that the library holds.
pub open spec fn covers(
    stored: Seq<Seq<char>>,
    found: Seq<MediaEntry>,
    library: Set<Seq<char>>,
) -> bool {
    forall|i: int|
        0 <= i < found.len() && library.contains(#[trigger] found[i].link@) ==> stored.contains(
            found[i].link@,
        )
}

/// Where nothing is queued and nothing runs, nothing is held twice,
/// whatever the library holds.
pub proof fn law_empty_is_deduplicated(library: Set<Seq<char>>)
    ensures
        deduplicated(Seq::empty(), Seq::empty(), library),
{
    assert(Seq::<Seq<char>>::empty() + Seq::<Seq<char>>::empty() =~= Seq::<Seq<char>>::empty());
}

/// A sequence with one more element at its end has no duplicates exactly
/// when it had none and lacked that element.
proof fn lemma_push_unique<T>(s: Seq<T>, x: T)
    ensures
        s.push(x).no_duplicates() <==> (s.no_duplicates() && !s.contains(x)),
        forall|y: T| s.push(x).contains(y) <==> (y == x || s.contains(y)),
{
    let t = s.push(x);
    assert forall|y: T| t.contains(y) <==> (y == x || s.contains(y)) by {
        if t.contains(y) {
            let i = choose|i: int| 0 <= i < t.len() && t[i] == y;
            if i < s.len() {
                assert(s[i] == y);
            }
        }
        if y == x {
            assert(t[s.len() as int] == y);
        }
        if s.contains(y) {
            let i = choose|i: int| 0 <= i < s.len() && s[i] == y;
            assert(t[i] == y);
        }
    }
    if t.no_duplicates() {
        assert forall|i: int, j: int| 0 <= i < s.len() && 0 <= j < s.len() && i != j implies s[i]
            != s[j] by {
            assert(t[i] == s[i] && t[j] == s[j]);
        }
        if s.contains(x) {
            let i = choose|i: int| 0 <= i < s.len() && s[i] == x;
            assert(t[i] == t[s.len() as int]);
        }
    }
    if s.no_duplicates() && !s.contains(x) {
        assert forall|i: int, j: int| 0 <= i < t.len() && 0 <= j < t.len() && i != j implies t[i]
            != t[j] by {
            if i < s.len() {
                assert(t[i] == s[i]);
            }
            if j < s.len() {
                assert(t[j] == s[j]);
            }
        }
    }
}

/// An element that joins the back of the first part of a sequence without
/// duplicates, and is new to the whole, leaves it without duplicates.
proof fn lemma_join_keeps_unique<T>(a: Seq<T>, b: Seq<T>, x: T)
    requires
        (a + b).no_duplicates(),
        !(a + b).contains(x),
    ensures
        (a.push(x) + b).no_duplicates(),
        forall|y: T| (a.push(x) + b).contains(y) <==> (y == x || (a + b).contains(y)),
{
    let s = a + b;
    let t = a.push(x) + b;
    assert forall|i: int| 0 <= i < t.len() implies (i < a.len() ==> t[i] == s[i]) && (i == a.len()
        ==> t[i] == x) && (i > a.len() ==> t[i] == s[i - 1]) by {}
    assert forall|i: int, j: int| 0 <= i < t.len() && 0 <= j < t.len() && i != j implies t[i]
        != t[j] by {
        let si = if i < a.len() { i } else { i - 1 };
        let sj = if j < a.len() { j } else { j - 1 };
        if i != a.len() && j != a.len() {
            assert(t[i] == s[si] && t[j] == s[sj]);
        } else if i == a.len() {
            assert(t[j] == s[sj]);
        } else {
            assert(t[i] == s[si]);
        }
    }
    assert forall|y: T| t.contains(y) <==> (y == x || s.contains(y)) by {
        if t.contains(y) {
            let i = choose|i: int| 0 <= i < t.len() && t[i] == y;
            if i < a.len() {
                assert(s[i] == y);
            } else if i > a.len() {
                assert(s[i - 1] == y);
            }
        }
        if y == x {
            assert(t[a.len() as int] == y);
        }
        if s.contains(y) {
            let i = choose|i: int| 0 <= i < s.len() && s[i] == y;
            if i < a.len() {
                assert(t[i] == y);
            } else {
                assert(t[i + 1] == y);
            }
        }
    }
}

/// Moving the first element of the first part to the end of the second
/// part keeps the elements and keeps them free of duplicates.
proof fn lemma_front_to_back<T>(q: Seq<T>, b: Seq<T>)
    requires
        q.len() > 0,
        (q + b).no_duplicates(),
    ensures
        (q.drop_first() + b.push(q[0])).no_duplicates(),
        forall|y: T| (q.drop_first() + b.push(q[0])).contains(y) <==> (q + b).contains(y),
{
    let s = q + b;
    let t = q.drop_first() + b.push(q[0]);
    let n = s.len() as int;
    assert(t.len() == n);
    assert forall|i: int| 0 <= i < n implies t[i] == (if i < n - 1 {
        s[i + 1]
    } else {
        s[0]
    }) by {}
    assert forall|i: int, j: int| 0 <= i < n && 0 <= j < n && i != j implies t[i] != t[j] by {
        let si = if i < n - 1 { i + 1 } else { 0 };
        let sj = if j < n - 1 { j + 1 } else { 0 };
        assert(t[i] == s[si] && t[j] == s[sj]);
    }
    assert forall|y: T| t.contains(y) <==> s.contains(y) by {
        if t.contains(y) {
            let i = choose|i: int| 0 <= i < n && t[i] == y;
            let si = if i < n - 1 { i + 1 } else { 0 };
            assert(s[si] == y);
        }
        if s.contains(y) {
            let i = choose|i: int| 0 <= i < n && s[i] == y;
            let ti = if i == 0 { n - 1 } else { i - 1 };
            assert(t[ti] == y);
        }
    }
}

/// An element is in a concatenation when it is in one of its parts.
proof fn lemma_concat_contains<T>(a: Seq<T>, b: Seq<T>, x: T)
    ensures
        (a + b).contains(x) <==> (a.contains(x) || b.contains(x)),
{
    let s = a + b;
    if s.contains(x) {
        let i = choose|i: int| 0 <= i < s.len() && s[i] == x;
        if i < a.len() {
            assert(a[i] == x);
        } else {
            assert(b[i - a.len()] == x);
        }
    }
    if a.contains(x) {
        let i = choose|i: int| 0 <= i < a.len() && a[i] == x;
        assert(s[i] == x);
    }
    if b.contains(x) {
        let i = choose|i: int| 0 <= i < b.len() && b[i] == x;
        assert(s[a.len() + i] == x);
    }
}

/// Offering items to the queue keeps the state free of duplicates. If no
/// link is held twice and none that is held is in the library, and if
/// `stored` names every link of `found` that the library holds, then the
/// same is true once the items of `found` were offered.
pub proof fn law_enqueue_keeps_dedup(
    queue: Seq<MediaEntry>,
    busy: Seq<Seq<char>>,
    stored: Seq<Seq<char>>,
    found: Seq<MediaEntry>,
    library: Set<Seq<char>>,
)
    requires
        deduplicated(links(queue), busy, library),
        covers(stored, found, library),
    ensures
        deduplicated(links(admitted(queue, busy, stored, found)), busy, library),
    decreases found.len(),
{
    if found.len() > 0 {
        let init = found.drop_last();
        assert forall|i: int|
            0 <= i < init.len() && library.contains(
                #[trigger] init[i].link@,
            ) implies stored.contains(init[i].link@) by {
            assert(init[i] == found[i]);
        }
        law_enqueue_keeps_dedup(queue, busy, stored, init, library);
        let earlier = admitted(queue, busy, stored, init);
        let e = found.last();
        if is_new(earlier, busy, stored, e.link@) {
            lemma_concat_contains(links(earlier), busy, e.link@);
            lemma_join_keeps_unique(links(earlier), busy, e.link@);
            assert(links(earlier.push(e)) =~= links(earlier).push(e.link@));
            assert(found[found.len() - 1] == e);
        }
    }
}

/// Offering items never takes an item out of the queue nor moves one: the
/// queue as it was stays at the front, and what joins stands behind it.
pub proof fn law_enqueue_extends(
    queue: Seq<MediaEntry>,
    busy: Seq<Seq<char>>,
    stored: Seq<Seq<char>>,
    found: Seq<MediaEntry>,
)
    ensures
        queue.len() <= admitted(queue, busy, stored, found).len() <= queue.len() + found.len(),
        admitted(queue, busy, stored, found).take(queue.len() as int) == queue,
    decreases found.len(),
{
    if found.len() > 0 {
        law_enqueue_extends(queue, busy, stored, found.drop_last());
        let earlier = admitted(queue, busy, stored, found.drop_last());
        assert(earlier.push(found.last()).take(queue.len() as int) =~= earlier.take(
            queue.len() as int,
        ));
    } else {
        assert(queue.take(queue.len() as int) =~= queue);
    }
}

/// After the items of `found` were offered, none of them is new any more.
proof fn lemma_offered_items_are_held(
    queue: Seq<MediaEntry>,
    busy: Seq<Seq<char>>,
    stored: Seq<Seq<char>>,
    found: Seq<MediaEntry>,
)
    ensures
        forall|i: int|
            0 <= i < found.len() ==> !is_new(
                admitted(queue, busy, stored, found),
                busy,
                stored,
                #[trigger] found[i].link@,
            ),
    decreases found.len(),
{
    if found.len() > 0 {
        let init = found.drop_last();
        let e = found.last();
        lemma_offered_items_are_held(queue, busy, stored, init);
        let earlier = admitted(queue, busy, stored, init);
        let after = admitted(queue, busy, stored, found);
        if is_new(earlier, busy, stored, e.link@) {
            assert(links(after) =~= links(earlier).push(e.link@));
            lemma_push_unique(links(earlier), e.link@);
        }
        assert forall|i: int| 0 <= i < found.len() implies !is_new(
            after,
            busy,
            stored,
            #[trigger] found[i].link@,
        ) by {
            if i < init.len() {
                assert(init[i] == found[i]);
                assert(!is_new(earlier, busy, stored, init[i].link@));
                if links(earlier).contains(found[i].link@) {
                    assert(links(after).contains(found[i].link@));
                }
            } else {
                assert(found[i] == e);
                if is_new(earlier, busy, stored, e.link@) {
                    assert(links(after).contains(e.link@));
                }
            }
        }
    }
}

/// Items of which none is new leave the queue as it is.
proof fn lemma_nothing_new_nothing_joins(
    queue: Seq<MediaEntry>,
    busy: Seq<Seq<char>>,
    stored: Seq<Seq<char>>,
    found: Seq<MediaEntry>,
)
    requires
        forall|i: int| 0 <= i < found.len() ==> !is_new(queue, busy, stored, #[trigger] found[i].link@),
    ensures
        admitted(queue, busy, stored, found) == queue,
    decreases found.len(),
{
    if found.len() > 0 {
        let init = found.drop_last();
        assert forall|i: int| 0 <= i < init.len() implies !is_new(
            queue,
            busy,
            stored,
            #[trigger] init[i].link@,
        ) by {
            assert(init[i] == found[i]);
        }
        lemma_nothing_new_nothing_joins(queue, busy, stored, init);
        assert(found[found.len() - 1] == found.last());
    }
}

/// Offering the same items a second time adds nothing: what a crawl found
/// twice in a row is queued once.
pub proof fn law_enqueue_again_adds_nothing(
    queue: Seq<MediaEntry>,
    busy: Seq<Seq<char>>,
    stored: Seq<Seq<char>>,
    found: Seq<MediaEntry>,
)
    ensures
        admitted(admitted(queue, busy, stored, found), busy, stored, found) == admitted(
            queue,
            busy,
            stored,
            found,
        ),
{
    lemma_offered_items_are_held(queue, busy, stored, found);
    lemma_nothing_new_nothing_joins(admitted(queue, busy, stored, found), busy, stored, found);
}

/// Starting downloads keeps the state free of duplicates: when the first
/// `k` queued items move, in their order, to the end of the running
/// downloads, no link is held twice and none that is held is in the library,
/// if that was so before.
pub proof fn law_start_keeps_dedup(
    queue: Seq<MediaEntry>,
    running: Seq<Seq<char>>,
    library: Set<Seq<char>>,
    k: nat,
)
    requires
        k <= queue.len(),
        deduplicated(links(queue), running, library),
    ensures
        deduplicated(
            links(queue.skip(k as int)),
            running + links(queue.take(k as int)),
            library,
        ),
    decreases k,
{
    if k == 0 {
        assert(queue.skip(0) =~= queue);
        assert(running + links(queue.take(0)) =~= running);
    } else {
        law_start_keeps_dedup(queue, running, library, (k - 1) as nat);
        let q = links(queue.skip(k - 1));
        let b = running + links(queue.take(k - 1));
        lemma_front_to_back(q, b);
        assert(q.drop_first() =~= links(queue.skip(k as int)));
        assert(b.push(q[0]) =~= running + links(queue.take(k as int)));
    }
}

/// What reaping does to the links: those that stay were there before and
/// are still free of duplicates, and those that leave are not among those
/// that stay.
proof fn lemma_reap_splits<H>(
    queue: Seq<Seq<char>>,
    tasks: Seq<(MediaEntry, H)>,
    finished: Seq<bool>,
)
    requires
        (queue + task_links(tasks)).no_duplicates(),
    ensures
        (queue + task_links(still_running(tasks, finished))).no_duplicates(),
        forall|l: Seq<char>| #[trigger]
            (queue + task_links(still_running(tasks, finished))).contains(l) ==> (queue
                + task_links(tasks)).contains(l),
        forall|l: Seq<char>| #[trigger]
            task_links(finished_tasks(tasks, finished)).contains(l) ==> {
                &&& task_links(tasks).contains(l)
                &&& !(queue + task_links(still_running(tasks, finished))).contains(l)
            },
    decreases tasks.len(),
{
    let stay = still_running(tasks, finished);
    let leave = finished_tasks(tasks, finished);
    if tasks.len() == 0 {
        assert(task_links(leave) =~= Seq::<Seq<char>>::empty());
    } else {
        let init = tasks.drop_last();
        let l = tasks.last().0.link@;
        let stay0 = still_running(init, finished);
        let leave0 = finished_tasks(init, finished);
        assert(tasks =~= init.push(tasks.last()));
        assert(task_links(tasks) =~= task_links(init).push(l));
        assert(queue + task_links(tasks) =~= (queue + task_links(init)).push(l));
        lemma_push_unique(queue + task_links(init), l);
        lemma_push_unique(task_links(init), l);
        lemma_concat_contains(queue, task_links(init), l);
        lemma_reap_splits(queue, init, finished);
        assert forall|y: Seq<char>| #[trigger]
            (queue + task_links(stay)).contains(y) implies (queue + task_links(tasks)).contains(
            y,
        ) by {
            if stay == stay0 {
                assert((queue + task_links(init)).contains(y));
            } else {
                assert(task_links(stay) =~= task_links(stay0).push(l));
                assert(queue + task_links(stay) =~= (queue + task_links(stay0)).push(l));
                lemma_push_unique(queue + task_links(stay0), l);
                if y != l {
                    assert((queue + task_links(stay0)).contains(y));
                    assert((queue + task_links(init)).contains(y));
                }
            }
            assert((queue + task_links(init)).push(l).contains(y));
        }
        if stay == stay0 {
            assert(task_links(leave) =~= seq![l] + task_links(leave0));
            assert forall|y: Seq<char>| #[trigger]
                task_links(leave).contains(y) implies task_links(tasks).contains(y) && !(queue
                + task_links(stay)).contains(y) by {
                lemma_concat_contains(seq![l], task_links(leave0), y);
                if seq![l].contains(y) {
                    assert(y == l);
                }
            }
        } else {
            assert(stay == stay0.push(tasks.last()));
            assert(leave == leave0);
            assert(task_links(stay) =~= task_links(stay0).push(l));
            assert(queue + task_links(stay) =~= (queue + task_links(stay0)).push(l));
            lemma_push_unique(queue + task_links(stay0), l);
            assert forall|y: Seq<char>| #[trigger]
                task_links(leave).contains(y) implies task_links(tasks).contains(y) && !(queue
                + task_links(stay)).contains(y) by {
                lemma_concat_contains(queue, task_links(init), y);
            }
        }
    }
}

/// Reaping keeps the state free of duplicates. If no link is held twice
/// and none that is held is in the library, then that is still so once the
/// finished downloads have left and the library has taken in `recorded`,
/// any of the links of those that finished.
pub proof fn law_reap_keeps_dedup<H>(
    queue: Seq<Seq<char>>,
    tasks: Seq<(MediaEntry, H)>,
    finished: Seq<bool>,
    library: Set<Seq<char>>,
    recorded: Set<Seq<char>>,
)
    requires
        deduplicated(queue, task_links(tasks), library),
        forall|l: Seq<char>| #[trigger]
            recorded.contains(l) ==> task_links(finished_tasks(tasks, finished)).contains(l),
    ensures
        deduplicated(
            queue,
            task_links(still_running(tasks, finished)),
            library.union(recorded),
        ),
{
    lemma_reap_splits(queue, tasks, finished);
}

/// Reaping never adds a running download, and every download that was
/// running either stays or is handed back.
pub proof fn law_reap_counts<H>(tasks: Seq<(MediaEntry, H)>, finished: Seq<bool>)
    ensures
        still_running(tasks, finished).len() + finished_tasks(tasks, finished).len()
            == tasks.len(),
    decreases tasks.len(),
{
    if tasks.len() > 0 {
        law_reap_counts(tasks.drop_last(), finished);
    }
}

/// Starting downloads respects the limit: when no more than `parallel`
/// downloads run, no more than `parallel` run afterwards; and when more run,
/// because the limit was lowered under them, none is added.
pub proof fn law_start_within_limit(parallel: u64, running: nat, queued: nat)
    ensures
        admissions(parallel, running, queued) <= queued,
        admissions(parallel, running, queued) <= free_slots(parallel, running),
        running <= parallel ==> running + admissions(parallel, running, queued) <= parallel,
        running > parallel ==> admissions(parallel, running, queued) == 0,
{
}

/// An item that the filter lets pass once, it lets pass again at the same
/// time: filtering what was filtered changes nothing.
pub proof fn law_filter_idempotent(
    filter: Option<DownloadFilter>,
    now: Timestamp,
    found: Seq<MediaEntry>,
)
    ensures
        kept(filter, now, kept(filter, now, found)) == kept(filter, now, found),
        forall|i: int|
            0 <= i < kept(filter, now, found).len() ==> passes(
                filter,
                #[trigger] kept(filter, now, found)[i].published,
                now,
            ),
    decreases found.len(),
{
    if found.len() > 0 {
        let init = found.drop_last();
        law_filter_idempotent(filter, now, init);
        let once = kept(filter, now, found);
        if passes(filter, found.last().published, now) {
            assert(once.drop_last() =~= kept(filter, now, init));
            assert(once.last() == found.last());
        }
    }
}

/// Without a filter every item is kept.
pub proof fn law_no_filter_keeps_all(now: Timestamp, found: Seq<MediaEntry>)
    ensures
        kept(None, now, found) == found,
    decreases found.len(),
{
    if found.len() > 0 {
        law_no_filter_keeps_all(now, found.drop_last());
        assert(found.drop_last().push(found.last()) == found);
    }
}

} // verus!
