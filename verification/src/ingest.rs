//! The ingestion pipeline: one inbound message becomes zero or more queue
//! entries.
//!
//! A message without a delivery-status part is no bounce and is skipped —
//! never a queue write. A bounce is matched against the routes of its
//! target address (sub-address tag stripped); with no matching route it is
//! likewise skipped. Otherwise one entry per matching route is enqueued,
//! all carrying the same serialized event payload.

use vstd::prelude::*;
use vstd::string::StringSliceAdditionalSpecFns;
use crate::dsn::{ParsedEmail, ParsedEmailView, parse_dsn, parse_original_message, scan_dsn,
    original_info_spec};
use crate::payload::{build_payload, format_rfc3339, payload_spec, rfc3339_of};
use crate::queue::{EntryView, QueueStore};
use crate::routes::{Route, RouteView, matching_ids, matching_route_ids, split_target, strip_tag,
    target_domain, target_user};

verus! {

/// The address a bounce is targeted at: the message's first `To` address,
/// or the placeholder where it has none.
pub open spec fn target_addr(e: ParsedEmailView) -> Seq<u8> {
    match e.to {
        Some(a) => a,
        None => "unknown".spec_bytes(),
    }
}

/// What ingestion decided for one message.
pub enum IngestPlan {
    /// No delivery-status part: not a bounce, nothing to do.
    NotBounce,
    /// A bounce, but no active route matches its target: nothing to do.
    NoRoutes,
    /// A bounce with matching routes: enqueue `payload` once per route id.
    Deliver { route_ids: Vec<i32>, payload: Vec<u8> },
}

/// Decide what a message leads to, without touching the queue.
pub fn plan_ingest(email: &ParsedEmail, delimiter: u8, routes: &Vec<Route>, now: i64) -> (r:
    IngestPlan)
    requires
        0 <= now <= 253402300799,
    ensures
        ({
            let rv = routes@.map_values(|x: Route| x@);
            let user = strip_tag(target_user(target_addr(email@)), delimiter);
            let domain = target_domain(target_addr(email@));
            match r {
                IngestPlan::NotBounce => scan_dsn(email@.parts) is None,
                IngestPlan::NoRoutes => scan_dsn(email@.parts) is Some && matching_ids(
                    rv,
                    user,
                    domain,
                ).len() == 0,
                IngestPlan::Deliver { route_ids, payload } => {
                    &&& scan_dsn(email@.parts) is Some
                    &&& route_ids@ == matching_ids(rv, user, domain)
                    &&& route_ids@.len() > 0
                    &&& payload@ == payload_spec(
                        original_info_spec(email@),
                        scan_dsn(email@.parts).unwrap(),
                        rfc3339_of(now),
                    )
                },
            }
        }),
{
    let bounce = match parse_dsn(email) {
        Some(b) => b,
        None => {
            return IngestPlan::NotBounce;
        },
    };
    let addr: &[u8] = match &email.to {
        Some(v) => v.as_slice(),
        None => "unknown".as_bytes(),
    };
    proof {
        assert(addr@ == target_addr(email@));
    }
    let (user, domain) = split_target(addr, delimiter);
    let route_ids = matching_route_ids(routes, user.as_slice(), domain.as_slice());
    if route_ids.len() == 0 {
        return IngestPlan::NoRoutes;
    }
    let info = parse_original_message(email);
    let ts = format_rfc3339(now);
    let payload = build_payload(&info, &bounce, ts.as_slice());
    IngestPlan::Deliver { route_ids, payload }
}

/// The entries that enqueueing `payload` for each id of `ids` appends,
/// with consecutive entry ids from `base`.
pub open spec fn enqueued_entries(ids: Seq<i32>, payload: Seq<u8>, now: i64, base: int) -> Seq<
    EntryView,
>
    decreases ids.len(),
{
    if ids.len() == 0 {
        Seq::empty()
    } else {
        enqueued_entries(ids.drop_last(), payload, now, base).push(
            EntryView {
                id: (base + ids.len() - 1) as i64,
                route_id: ids.last(),
                payload: payload,
                attempts: 0,
                next_attempt_at: now,
                last_error: None,
                expired: false,
                created_at: now,
            },
        )
    }
}

/// How many routes matched; zero where the message was not a bounce or no
/// route matched.
pub enum IngestResult {
    NotBounce,
    NoRoutes,
    Enqueued(usize),
}

proof fn lemma_matching_ids_len(routes: Seq<RouteView>, user: Seq<u8>, domain: Seq<u8>)
    ensures
        matching_ids(routes, user, domain).len() <= routes.len(),
    decreases routes.len(),
{
    if routes.len() > 0 {
        lemma_matching_ids_len(routes.drop_first(), user, domain);
    }
}

/// Run ingestion for one message against the queue: parse, match, and
/// enqueue one entry per matching route.
///
/// A message with no delivery-status part, or with no matching route,
/// leaves the queue exactly as it was.
pub fn ingest_into(store: &mut QueueStore, email: &ParsedEmail, delimiter: u8, now: i64) -> (r:
    IngestResult)
    requires
        old(store).wf(),
        0 <= now <= 253402300799,
        old(store).next_id + old(store).routes@.len() < i64::MAX,
    ensures
        final(store).wf(),
        final(store).routes_view() == old(store).routes_view(),
        ({
            let rv = old(store).routes_view();
            let user = strip_tag(target_user(target_addr(email@)), delimiter);
            let domain = target_domain(target_addr(email@));
            let ids = matching_ids(rv, user, domain);
            match r {
                IngestResult::NotBounce => scan_dsn(email@.parts) is None
                    && final(store).entries_view() == old(store).entries_view()
                    && final(store).next_id == old(store).next_id,
                IngestResult::NoRoutes => scan_dsn(email@.parts) is Some && ids.len() == 0
                    && final(store).entries_view() == old(store).entries_view()
                    && final(store).next_id == old(store).next_id,
                IngestResult::Enqueued(n) => {
                    &&& scan_dsn(email@.parts) is Some
                    &&& n == ids.len()
                    &&& n > 0
                    &&& final(store).entries_view() == old(store).entries_view()
                        + enqueued_entries(
                        ids,
                        payload_spec(
                            original_info_spec(email@),
                            scan_dsn(email@.parts).unwrap(),
                            rfc3339_of(now),
                        ),
                        now,
                        old(store).next_id as int,
                    )
                    &&& final(store).next_id == old(store).next_id + n
                },
            }
        }),
{
    let ghost rv = old(store).routes_view();
    let ghost ev = old(store).entries_view();
    let ghost base = old(store).next_id;
    proof {
        lemma_matching_ids_len(
            rv,
            strip_tag(target_user(target_addr(email@)), delimiter),
            target_domain(target_addr(email@)),
        );
    }
    let plan = plan_ingest(email, delimiter, &store.routes, now);
    match plan {
        IngestPlan::NotBounce => {
            proof {
                assert(store.entries_view() =~= ev);
            }
            IngestResult::NotBounce
        },
        IngestPlan::NoRoutes => IngestResult::NoRoutes,
        IngestPlan::Deliver { route_ids, payload } => {
            let ghost pv = payload@;
            let n = route_ids.len();
            let mut j: usize = 0;
            proof {
                assert(route_ids@.take(0) =~= Seq::<i32>::empty());
                assert(enqueued_entries(route_ids@.take(0), pv, now, base as int)
                    =~= Seq::<EntryView>::empty());
                assert(ev + enqueued_entries(route_ids@.take(0), pv, now, base as int) =~= ev);
            }
            while j < n
                invariant
                    j <= n,
                    n == route_ids@.len(),
                    n <= rv.len(),
                    payload@ == pv,
                    store.wf(),
                    store.routes_view() == rv,
                    base + n < i64::MAX,
                    store.next_id == base + j,
                    store.entries_view() == ev + enqueued_entries(
                        route_ids@.take(j as int),
                        pv,
                        now,
                        base as int,
                    ),
                decreases n - j,
            {
                let rid = route_ids[j];
                let p = crate::dsn::clone_bytes(&payload);
                let ghost pre = store.entries_view();
                let id = store.enqueue(rid, p, now);
                proof {
                    assert(id == (base + j) as i64);
                    assert(store.entries_view() == pre.push(
                        EntryView {
                            id: id,
                            route_id: rid,
                            payload: p@,
                            attempts: 0,
                            next_attempt_at: now,
                            last_error: None,
                            expired: false,
                            created_at: now,
                        },
                    ));
                    assert(p@ == pv);
                    assert(rid == route_ids@[j as int]);
                    let tk = route_ids@.take(j + 1);
                    assert(tk.drop_last() =~= route_ids@.take(j as int));
                    assert(tk.last() == route_ids@[j as int]);
                    assert(enqueued_entries(tk, pv, now, base as int) =~= enqueued_entries(
                        route_ids@.take(j as int),
                        pv,
                        now,
                        base as int,
                    ).push(
                        EntryView {
                            id: (base + j) as i64,
                            route_id: route_ids@[j as int],
                            payload: pv,
                            attempts: 0,
                            next_attempt_at: now,
                            last_error: None,
                            expired: false,
                            created_at: now,
                        },
                    ));
                    assert(store.entries_view() =~~= ev + enqueued_entries(
                        tk,
                        pv,
                        now,
                        base as int,
                    ));
                }
                j += 1;
            }
            proof {
                assert(route_ids@.take(n as int) =~= route_ids@);
            }
            IngestResult::Enqueued(n)
        },
    }
}

} // verus!
