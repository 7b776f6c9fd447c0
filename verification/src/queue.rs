//! The durable delivery queue.
//!
//! A [`QueueStore`] holds the subscriber routes and the pending-delivery
//! entries. An entry is created by ingestion with a fresh id, zero attempts
//! and an immediate due time; the delivery worker later either deletes it
//! (delivered) or reschedules it (failed), possibly marking it expired.
//! Claiming joins each due, unexpired entry against its route — so an entry
//! whose route was deactivated after enqueue is silently skipped — and
//! yields the oldest-due entries first.

use vstd::prelude::*;
use crate::dsn::opt_bytes;
use crate::routes::{Route, RouteView};
use crate::dsn::clone_bytes;

verus! {

/// One pending or historical delivery.
pub struct QueueEntry {
    pub id: i64,
    pub route_id: i32,
    /// The serialized event, immutable once enqueued.
    pub payload: Vec<u8>,
    pub attempts: i32,
    /// Seconds-since-epoch time at which the entry becomes due.
    pub next_attempt_at: i64,
    /// Diagnostic text of the last failed attempt.
    pub last_error: Option<Vec<u8>>,
    /// Terminal permanent-failure marker; the entry is kept for audit.
    pub expired: bool,
    pub created_at: i64,
}

/// Mathematical image of a [`QueueEntry`].
#[verifier::ext_equal]
pub struct EntryView {
    pub id: i64,
    pub route_id: i32,
    pub payload: Seq<u8>,
    pub attempts: i32,
    pub next_attempt_at: i64,
    pub last_error: Option<Seq<u8>>,
    pub expired: bool,
    pub created_at: i64,
}

impl View for QueueEntry {
    type V = EntryView;

    open spec fn view(&self) -> EntryView {
        EntryView {
            id: self.id,
            route_id: self.route_id,
            payload: self.payload@,
            attempts: self.attempts,
            next_attempt_at: self.next_attempt_at,
            last_error: opt_bytes(self.last_error),
            expired: self.expired,
            created_at: self.created_at,
        }
    }
}

/// A claimed delivery job: a due entry joined with its route at claim time.
pub struct Job {
    pub entry_id: i64,
    pub url: Vec<u8>,
    pub secret: Vec<u8>,
    pub payload: Vec<u8>,
    pub attempts: i32,
    pub next_attempt_at: i64,
}

/// Mathematical image of a [`Job`].
#[verifier::ext_equal]
pub struct JobView {
    pub entry_id: i64,
    pub url: Seq<u8>,
    pub secret: Seq<u8>,
    pub payload: Seq<u8>,
    pub attempts: i32,
    pub next_attempt_at: i64,
}

impl View for Job {
    type V = JobView;

    open spec fn view(&self) -> JobView {
        JobView {
            entry_id: self.entry_id,
            url: self.url@,
            secret: self.secret@,
            payload: self.payload@,
            attempts: self.attempts,
            next_attempt_at: self.next_attempt_at,
        }
    }
}

/// The first route with the given id, if any.
pub open spec fn route_first(routes: Seq<RouteView>, rid: i32) -> Option<RouteView>
    decreases routes.len(),
{
    if routes.len() == 0 {
        None
    } else if routes[0].id == rid {
        Some(routes[0])
    } else {
        route_first(routes.drop_first(), rid)
    }
}

/// The entry may be claimed now: due, not expired, and its route exists and
/// is active.
pub open spec fn entry_eligible(routes: Seq<RouteView>, e: EntryView, now: i64) -> bool {
    e.next_attempt_at <= now && !e.expired && match route_first(routes, e.route_id) {
        Some(r) => r.active,
        None => false,
    }
}

/// The job a claim of entry `e` against route `r` yields.
pub open spec fn job_of(e: EntryView, r: RouteView) -> JobView {
    JobView {
        entry_id: e.id,
        url: r.endpoint_url,
        secret: r.secret,
        payload: e.payload,
        attempts: e.attempts,
        next_attempt_at: e.next_attempt_at,
    }
}

/// The job `j` is the claim of some eligible entry of `entries`.
pub open spec fn job_claims_eligible(
    routes: Seq<RouteView>,
    entries: Seq<EntryView>,
    j: JobView,
    now: i64,
) -> bool {
    exists|k: int|
        0 <= k < entries.len() && entry_eligible(routes, entries[k], now) && j == job_of(
            entries[k],
            route_first(routes, entries[k].route_id).unwrap(),
        )
}

/// The index of the entry with the given id, if present.
pub open spec fn find_entry(entries: Seq<EntryView>, id: i64) -> Option<int>
    decreases entries.len(),
{
    if entries.len() == 0 {
        None
    } else if entries[0].id == id {
        Some(0)
    } else {
        match find_entry(entries.drop_first(), id) {
            Some(i) => Some(i + 1),
            None => None,
        }
    }
}

pub proof fn lemma_find_entry(entries: Seq<EntryView>, id: i64)
    ensures
        match find_entry(entries, id) {
            Some(i) => 0 <= i < entries.len() && entries[i].id == id && forall|j: int|
                0 <= j < i ==> entries[j].id != id,
            None => forall|j: int| 0 <= j < entries.len() ==> entries[j].id != id,
        },
    decreases entries.len(),
{
    if entries.len() > 0 && entries[0].id != id {
        let rest = entries.drop_first();
        lemma_find_entry(rest, id);
        assert(forall|j: int| 1 <= j < entries.len() ==> entries[j] == rest[j - 1]);
    }
}

/// The durable queue: subscriber routes and pending deliveries.
pub struct QueueStore {
    pub routes: Vec<Route>,
    pub entries: Vec<QueueEntry>,
    /// The id the next enqueued entry receives.
    pub next_id: i64,
}

impl QueueStore {
    pub open spec fn routes_view(self) -> Seq<RouteView> {
        self.routes@.map_values(|r: Route| r@)
    }

    pub open spec fn entries_view(self) -> Seq<EntryView> {
        self.entries@.map_values(|e: QueueEntry| e@)
    }

    /// Entry ids are unique and below the next id to hand out.
    pub open spec fn wf(self) -> bool {
        &&& forall|a: int, b: int|
            0 <= a < b < self.entries_view().len() ==> self.entries_view()[a].id
                != self.entries_view()[b].id
        &&& forall|a: int|
            0 <= a < self.entries_view().len() ==> #[trigger] self.entries_view()[a].id
                < self.next_id
    }

    /// An empty queue over the given routes.
    pub fn new(routes: Vec<Route>) -> (s: Self)
        ensures
            s.wf(),
            s.routes_view() == routes@.map_values(|r: Route| r@),
            s.entries_view() == Seq::<EntryView>::empty(),
            s.next_id == 1,
    {
        let s = QueueStore { routes, entries: Vec::new(), next_id: 1 };
        proof {
            assert(s.entries_view() =~= Seq::<EntryView>::empty());
        }
        s
    }

    /// Insert a new pending delivery: a fresh id, zero attempts, due at
    /// `now`, not expired.
    pub fn enqueue(&mut self, route_id: i32, payload: Vec<u8>, now: i64) -> (id: i64)
        requires
            old(self).wf(),
            old(self).next_id < i64::MAX,
        ensures
            final(self).wf(),
            id == old(self).next_id,
            final(self).next_id == old(self).next_id + 1,
            final(self).routes_view() == old(self).routes_view(),
            final(self).entries_view() == old(self).entries_view().push(
                EntryView {
                    id: id,
                    route_id: route_id,
                    payload: payload@,
                    attempts: 0,
                    next_attempt_at: now,
                    last_error: None,
                    expired: false,
                    created_at: now,
                },
            ),
    {
        let id = self.next_id;
        let entry = QueueEntry {
            id,
            route_id,
            payload,
            attempts: 0,
            next_attempt_at: now,
            last_error: None,
            expired: false,
            created_at: now,
        };
        let ghost pre = self.entries_view();
        self.entries.push(entry);
        self.next_id = self.next_id + 1;
        proof {
            assert(self.entries_view() =~= pre.push(
                EntryView {
                    id: id,
                    route_id: route_id,
                    payload: entry.payload@,
                    attempts: 0,
                    next_attempt_at: now,
                    last_error: None,
                    expired: false,
                    created_at: now,
                },
            ));
        }
        id
    }

    /// Delete the entry of a delivered job; an unknown id changes nothing.
    pub fn mark_delivered(&mut self, entry_id: i64)
        requires
            old(self).wf(),
        ensures
            final(self).wf(),
            final(self).routes_view() == old(self).routes_view(),
            final(self).next_id == old(self).next_id,
            match find_entry(old(self).entries_view(), entry_id) {
                Some(k) => final(self).entries_view() == old(self).entries_view().remove(k),
                None => final(self).entries_view() == old(self).entries_view(),
            },
    {
        let ghost ev = self.entries_view();
        let ghost rv = self.routes_view();
        let ghost nid = self.next_id;
        let mut k: usize = 0;
        while k < self.entries.len()
            invariant
                k <= ev.len(),
                self.entries_view() == ev,
                self.routes_view() == rv,
                self.next_id == nid,
                rv == old(self).routes_view(),
                nid == old(self).next_id,
                ev == old(self).entries_view(),
                forall|a: int, b: int| 0 <= a < b < ev.len() ==> ev[a].id != ev[b].id,
                forall|a: int| 0 <= a < ev.len() ==> #[trigger] ev[a].id < nid,
                forall|j: int| 0 <= j < k ==> ev[j].id != entry_id,
            decreases ev.len() - k,
        {
            if self.entries[k].id == entry_id {
                proof {
                    lemma_find_entry(ev, entry_id);
                    assert(ev[k as int] == self.entries@[k as int]@);
                    assert(ev[k as int].id == entry_id);
                    assert(find_entry(ev, entry_id) == Some(k as int));
                }
                self.entries.remove(k);
                proof {
                    let nv = self.entries_view();
                    assert(nv =~= ev.remove(k as int));
                    ev.remove_ensures(k as int);
                    assert forall|a: int, b: int|
                        0 <= a < b < nv.len() implies nv[a].id != nv[b].id by {
                        let a0: int = if a < k { a } else { a + 1 };
                        let b0: int = if b < k { b } else { b + 1 };
                        assert(nv[a] == ev[a0]);
                        assert(nv[b] == ev[b0]);
                    }
                    assert forall|a: int| 0 <= a < nv.len() implies #[trigger] nv[a].id
                        < self.next_id by {
                        let a0: int = if a < k { a } else { a + 1 };
                        assert(nv[a] == ev[a0]);
                    }
                }
                return ;
            }
            k += 1;
        }
        proof {
            lemma_find_entry(ev, entry_id);
        }
    }

    /// Record a failed attempt on an entry: the attempt counter, diagnostic
    /// text, expiry flag and due time are replaced together; id, route,
    /// payload and creation time stay. An unknown id changes nothing.
    pub fn mark_retry(
        &mut self,
        entry_id: i64,
        attempts: i32,
        last_error: Vec<u8>,
        expired: bool,
        next_attempt_at: i64,
    )
        requires
            old(self).wf(),
        ensures
            final(self).wf(),
            final(self).routes_view() == old(self).routes_view(),
            final(self).next_id == old(self).next_id,
            match find_entry(old(self).entries_view(), entry_id) {
                Some(k) => final(self).entries_view() == old(self).entries_view().update(
                    k,
                    (EntryView {
                        attempts: attempts,
                        last_error: Some(last_error@),
                        expired: expired,
                        next_attempt_at: next_attempt_at,
                        ..old(self).entries_view()[k]
                    }),
                ),
                None => final(self).entries_view() == old(self).entries_view(),
            },
    {
        let ghost ev = self.entries_view();
        let ghost rv = self.routes_view();
        let ghost nid = self.next_id;
        let mut k: usize = 0;
        while k < self.entries.len()
            invariant
                k <= ev.len(),
                self.entries_view() == ev,
                self.routes_view() == rv,
                self.next_id == nid,
                rv == old(self).routes_view(),
                nid == old(self).next_id,
                ev == old(self).entries_view(),
                forall|a: int, b: int| 0 <= a < b < ev.len() ==> ev[a].id != ev[b].id,
                forall|a: int| 0 <= a < ev.len() ==> #[trigger] ev[a].id < nid,
                forall|j: int| 0 <= j < k ==> ev[j].id != entry_id,
            decreases ev.len() - k,
        {
            if self.entries[k].id == entry_id {
                proof {
                    lemma_find_entry(ev, entry_id);
                    assert(ev[k as int] == self.entries@[k as int]@);
                    assert(ev[k as int].id == entry_id);
                    assert(find_entry(ev, entry_id) == Some(k as int));
                }
                let e = self.entries.remove(k);
                let updated = QueueEntry {
                    id: e.id,
                    route_id: e.route_id,
                    payload: e.payload,
                    attempts,
                    next_attempt_at,
                    last_error: Some(last_error),
                    expired,
                    created_at: e.created_at,
                };
                self.entries.insert(k, updated);
                proof {
                    let nv = self.entries_view();
                    let ue = EntryView {
                        attempts: attempts,
                        last_error: Some(last_error@),
                        expired: expired,
                        next_attempt_at: next_attempt_at,
                        ..ev[k as int]
                    };
                    assert(nv =~= ev.update(k as int, ue));
                    assert(ue.id == ev[k as int].id);
                    assert forall|a: int, b: int|
                        0 <= a < b < nv.len() implies nv[a].id != nv[b].id by {
                        assert(nv[a].id == ev[a].id);
                        assert(nv[b].id == ev[b].id);
                    }
                    assert forall|a: int| 0 <= a < nv.len() implies #[trigger] nv[a].id
                        < self.next_id by {
                        assert(nv[a].id == ev[a].id);
                    }
                }
                return ;
            }
            k += 1;
        }
        proof {
            lemma_find_entry(ev, entry_id);
        }
    }
}

/// The first route with the given id, as [`route_first`] describes.
pub fn find_route<'a>(routes: &'a Vec<Route>, rid: i32) -> (r: Option<&'a Route>)
    ensures
        match r {
            Some(x) => route_first(routes@.map_values(|t: Route| t@), rid) == Some(x@),
            None => route_first(routes@.map_values(|t: Route| t@), rid) is None,
        },
{
    let ghost rv = routes@.map_values(|t: Route| t@);
    let mut i: usize = 0;
    proof {
        assert(rv.skip(0) =~= rv);
    }
    while i < routes.len()
        invariant
            i <= rv.len(),
            routes@.map_values(|t: Route| t@) == rv,
            route_first(rv.skip(i as int), rid) == route_first(rv, rid),
        decreases rv.len() - i,
    {
        proof {
            assert(rv.skip(i as int)[0] == rv[i as int]);
            assert(rv.skip(i as int).drop_first() =~= rv.skip(i + 1));
        }
        if routes[i].id == rid {
            return Some(&routes[i]);
        }
        i += 1;
    }
    proof {
        assert(rv.skip(i as int) =~= Seq::<RouteView>::empty());
    }
    None
}

/// How many entries are eligible for claiming.
pub open spec fn count_eligible(routes: Seq<RouteView>, entries: Seq<EntryView>, now: i64) -> int
    decreases entries.len(),
{
    if entries.len() == 0 {
        0
    } else {
        count_eligible(routes, entries.drop_last(), now) + (if entry_eligible(
            routes,
            entries.last(),
            now,
        ) {
            1int
        } else {
            0int
        })
    }
}

/// `j` is the claim of an eligible entry among the first `hi` entries.
spec fn claims_prefix(
    routes: Seq<RouteView>,
    entries: Seq<EntryView>,
    hi: int,
    j: JobView,
    now: i64,
) -> bool {
    exists|k: int|
        0 <= k < hi && entry_eligible(routes, entries[k], now) && j == job_of(
            entries[k],
            route_first(routes, entries[k].route_id).unwrap(),
        )
}

impl QueueStore {
    /// Claim up to `limit` deliveries that are ready now.
    ///
    /// A claimed job is always the join of an entry that is due
    /// (`next_attempt_at <= now`), not expired, and whose route exists and
    /// is active, with that route's url and secret as they stand at claim
    /// time. Jobs come oldest-due first; no entry is claimed twice; and
    /// where eligible entries are left unclaimed (the cap), every one of
    /// them is due no earlier than every claimed job.
    #[verifier::rlimit(60)]
    pub fn claim_ready(&self, now: i64, limit: usize) -> (jobs: Vec<Job>)
        requires
            self.wf(),
        ensures
            ({
                let rv = self.routes_view();
                let ev = self.entries_view();
                let jv = jobs@.map_values(|j: Job| j@);
                &&& jv.len() == if limit as int <= count_eligible(rv, ev, now) {
                    limit as int
                } else {
                    count_eligible(rv, ev, now)
                }
                &&& forall|a: int|
                    0 <= a < jv.len() ==> job_claims_eligible(rv, ev, #[trigger] jv[a], now)
                &&& forall|a: int, b: int|
                    0 <= a < b < jv.len() ==> jv[a].next_attempt_at <= jv[b].next_attempt_at
                &&& forall|a: int, b: int|
                    0 <= a < b < jv.len() ==> jv[a].entry_id != jv[b].entry_id
                &&& forall|k: int, a: int|
                    0 <= k < ev.len() && 0 <= a < jv.len() && entry_eligible(rv, ev[k], now)
                        && (forall|b: int| 0 <= b < jv.len() ==> jv[b].entry_id != ev[k].id)
                        ==> jv[a].next_attempt_at <= ev[k].next_attempt_at
            }),
    {
        let ghost rv = self.routes_view();
        let ghost ev = self.entries_view();
        let mut sorted: Vec<Job> = Vec::new();
        let mut i: usize = 0;
        proof {
            assert(ev.take(0) =~= Seq::<EntryView>::empty());
            assert(sorted@.map_values(|j: Job| j@) =~= Seq::<JobView>::empty());
        }
        while i < self.entries.len()
            invariant
                i <= ev.len(),
                self.wf(),
                self.entries_view() == ev,
                self.routes_view() == rv,
                sorted@.len() == count_eligible(rv, ev.take(i as int), now),
                forall|a: int|
                    0 <= a < sorted@.len() ==> claims_prefix(
                        rv,
                        ev,
                        i as int,
                        #[trigger] sorted@[a]@,
                        now,
                    ),
                forall|a: int, b: int|
                    0 <= a < b < sorted@.len() ==> sorted@[a]@.next_attempt_at
                        <= sorted@[b]@.next_attempt_at,
                forall|a: int, b: int|
                    0 <= a < b < sorted@.len() ==> sorted@[a]@.entry_id != sorted@[b]@.entry_id,
                forall|k: int|
                    0 <= k < i && entry_eligible(rv, #[trigger] ev[k], now) ==> exists|a: int|
                        0 <= a < sorted@.len() && sorted@[a]@ == job_of(
                            ev[k],
                            route_first(rv, ev[k].route_id).unwrap(),
                        ),
            decreases ev.len() - i,
        {
            let ghost jpre = sorted@.map_values(|j: Job| j@);
            let e = &self.entries[i];
            proof {
                assert(e@ == ev[i as int]);
                assert(ev.take(i + 1).drop_last() =~= ev.take(i as int));
                assert(ev.take(i + 1).last() == ev[i as int]);
            }
            let mut eligible = false;
            let mut job_opt: Option<Job> = None;
            if e.next_attempt_at <= now && !e.expired {
                match find_route(&self.routes, e.route_id) {
                    Some(r) => {
                        if r.active {
                            eligible = true;
                            job_opt = Some(
                                Job {
                                    entry_id: e.id,
                                    url: clone_bytes(&r.endpoint_url),
                                    secret: clone_bytes(&r.secret),
                                    payload: clone_bytes(&e.payload),
                                    attempts: e.attempts,
                                    next_attempt_at: e.next_attempt_at,
                                },
                            );
                        }
                    },
                    None => {},
                }
            }
            assert(eligible == entry_eligible(rv, ev[i as int], now));
            match job_opt {
                Some(job) => {
                    let ghost jobv = job@;
                    proof {
                        assert(jobv == job_of(
                            ev[i as int],
                            route_first(rv, ev[i as int].route_id).unwrap(),
                        ));
                        assert(forall|a: int|
                            0 <= a < jpre.len() ==> jpre[a] == #[trigger] sorted@[a]@);
                    }
                    let mut p: usize = 0;
                    while p < sorted.len() && sorted[p].next_attempt_at <= job.next_attempt_at
                        invariant
                            p <= sorted@.len(),
                            sorted@.map_values(|j: Job| j@) == jpre,
                            job@ == jobv,
                            forall|q: int|
                                0 <= q < p ==> jpre[q].next_attempt_at <= jobv.next_attempt_at,
                        decreases sorted@.len() - p,
                    {
                        p += 1;
                    }
                    let ghost pos = p as int;
                    proof {
                        assert(pos < jpre.len() ==> jpre[pos].next_attempt_at
                            > jobv.next_attempt_at);
                    }
                    sorted.insert(p, job);
                    proof {
                        let jnew = sorted@.map_values(|j: Job| j@);
                        assert(jnew =~= jpre.insert(pos, jobv));
                        jpre.insert_ensures(pos, jobv);
                        assert(forall|a: int|
                            0 <= a < jnew.len() ==> jnew[a] == #[trigger] sorted@[a]@);
                        // length: one more eligible entry counted
                        assert(jnew.len() == count_eligible(rv, ev.take(i + 1), now));
                        // every held job claims an entry below i + 1
                        assert forall|a: int| 0 <= a < jnew.len() implies claims_prefix(
                            rv,
                            ev,
                            i + 1,
                            #[trigger] jnew[a],
                            now,
                        ) by {
                            if a == pos {
                                assert(entry_eligible(rv, ev[i as int], now) && jnew[a] == job_of(
                                    ev[i as int],
                                    route_first(rv, ev[i as int].route_id).unwrap(),
                                ));
                            } else {
                                let a0: int = if a < pos {
                                    a
                                } else {
                                    a - 1
                                };
                                assert(jnew[a] == jpre[a0]);
                                assert(claims_prefix(rv, ev, i as int, jpre[a0], now));
                                let k = choose|k: int|
                                    0 <= k < i && entry_eligible(rv, ev[k], now) && jpre[a0]
                                        == job_of(
                                        ev[k],
                                        route_first(rv, ev[k].route_id).unwrap(),
                                    );
                                assert(0 <= k < i + 1 && entry_eligible(rv, ev[k], now) && jnew[a]
                                    == job_of(ev[k], route_first(rv, ev[k].route_id).unwrap()));
                            }
                        }
                        // order is kept
                        assert forall|a: int, b: int| 0 <= a < b < jnew.len() implies
                            jnew[a].next_attempt_at <= jnew[b].next_attempt_at by {
                            if a == pos {
                                let b0 = b - 1;
                                assert(jnew[b] == jpre[b0]);
                                assert(jpre[pos].next_attempt_at > jobv.next_attempt_at
                                    || pos >= jpre.len());
                                assert(jpre[pos].next_attempt_at <= jpre[b0].next_attempt_at
                                    || pos == b0);
                            } else if b == pos {
                                assert(jnew[a] == jpre[a]);
                            } else {
                                let a0: int = if a < pos {
                                    a
                                } else {
                                    a - 1
                                };
                                let b0: int = if b < pos {
                                    b
                                } else {
                                    b - 1
                                };
                                assert(jnew[a] == jpre[a0]);
                                assert(jnew[b] == jpre[b0]);
                            }
                        }
                        // no entry is claimed twice
                        assert forall|a: int, b: int| 0 <= a < b < jnew.len() implies
                            jnew[a].entry_id != jnew[b].entry_id by {
                            if a == pos || b == pos {
                                let o: int = if a == pos {
                                    b
                                } else {
                                    a
                                };
                                let o0: int = if o < pos {
                                    o
                                } else {
                                    o - 1
                                };
                                assert(jnew[o] == jpre[o0]);
                                assert(claims_prefix(rv, ev, i as int, jpre[o0], now));
                                let k = choose|k: int|
                                    0 <= k < i && entry_eligible(rv, ev[k], now) && jpre[o0]
                                        == job_of(
                                        ev[k],
                                        route_first(rv, ev[k].route_id).unwrap(),
                                    );
                                assert(ev[k].id != ev[i as int].id);
                            } else {
                                let a0: int = if a < pos {
                                    a
                                } else {
                                    a - 1
                                };
                                let b0: int = if b < pos {
                                    b
                                } else {
                                    b - 1
                                };
                                assert(jnew[a] == jpre[a0]);
                                assert(jnew[b] == jpre[b0]);
                            }
                        }
                        // every eligible entry below i + 1 is claimed
                        assert forall|k: int|
                            0 <= k < i + 1 && entry_eligible(rv, #[trigger] ev[k], now) implies
                            exists|a: int|
                                0 <= a < jnew.len() && jnew[a] == job_of(
                                    ev[k],
                                    route_first(rv, ev[k].route_id).unwrap(),
                                ) by {
                            if k == i as int {
                                assert(jnew[pos] == job_of(
                                    ev[k],
                                    route_first(rv, ev[k].route_id).unwrap(),
                                ));
                            } else {
                                let a0 = choose|a0: int|
                                    0 <= a0 < jpre.len() && jpre[a0] == job_of(
                                        ev[k],
                                        route_first(rv, ev[k].route_id).unwrap(),
                                    );
                                let a: int = if a0 < pos {
                                    a0
                                } else {
                                    a0 + 1
                                };
                                assert(jnew[a] == jpre[a0]);
                            }
                        }
                    }
                },
                None => {
                    proof {
                        assert(sorted@.map_values(|j: Job| j@).len() == count_eligible(
                            rv,
                            ev.take(i + 1),
                            now,
                        ));
                    }
                },
            }
            i += 1;
        }
        let ghost jfull = sorted@.map_values(|j: Job| j@);
        proof {
            assert(ev.take(i as int) =~= ev);
            assert(forall|a: int| 0 <= a < jfull.len() ==> jfull[a] == #[trigger] sorted@[a]@);
        }
        let mut jobs = sorted;
        jobs.truncate(limit);
        proof {
            let jv = jobs@.map_values(|j: Job| j@);
            assert(forall|a: int| 0 <= a < jv.len() ==> jv[a] == #[trigger] jobs@[a]@);
            if limit <= jfull.len() {
                assert(jv =~= jfull.subrange(0, limit as int));
            } else {
                assert(jv =~= jfull);
            }
            // minimality of what was claimed
            assert forall|k: int, a: int|
                0 <= k < ev.len() && 0 <= a < jv.len() && entry_eligible(rv, ev[k], now) && (forall|
                    b: int,
                |
                    0 <= b < jv.len() ==> jv[b].entry_id != ev[k].id) implies jv[a].next_attempt_at
                <= ev[k].next_attempt_at by {
                let a0 = choose|a0: int|
                    0 <= a0 < jfull.len() && jfull[a0] == job_of(
                        ev[k],
                        route_first(rv, ev[k].route_id).unwrap(),
                    );
                assert(jfull[a0].entry_id == ev[k].id);
                if a0 < jv.len() {
                    assert(jv[a0] == jfull[a0]);
                    assert(jv[a0].entry_id == ev[k].id);
                    assert(false);
                }
                assert(a0 >= jv.len());
                assert(jv[a] == jfull[a]);
                assert(jfull[a].next_attempt_at <= jfull[a0].next_attempt_at);
                assert(jfull[a0].next_attempt_at == ev[k].next_attempt_at);
            }
        }
        jobs
    }
}


} // verus!
