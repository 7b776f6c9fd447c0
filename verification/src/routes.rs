//! Subscriber routes and the matching policy.
//!
//! A route subscribes a webhook endpoint to bounces for a domain, either for
//! one specific local part or — where the local part is absent — as a
//! catch-all for the whole domain. A bounce target matches every active
//! route of its domain whose local part is absent or equal to the target's
//! local part, so a specific route and a catch-all route both receive it.

use vstd::prelude::*;
use crate::dsn::opt_bytes;
use crate::text::bytes_eq;

verus! {

/// One webhook subscription.
pub struct Route {
    pub id: i32,
    pub domain: Vec<u8>,
    /// Absent means catch-all for the domain.
    pub local_part: Option<Vec<u8>>,
    pub endpoint_url: Vec<u8>,
    /// Shared secret the webhook signature is computed with.
    pub secret: Vec<u8>,
    pub active: bool,
}

/// Mathematical image of a [`Route`].
pub struct RouteView {
    pub id: i32,
    pub domain: Seq<u8>,
    pub local_part: Option<Seq<u8>>,
    pub endpoint_url: Seq<u8>,
    pub secret: Seq<u8>,
    pub active: bool,
}

impl View for Route {
    type V = RouteView;

    open spec fn view(&self) -> RouteView {
        RouteView {
            id: self.id,
            domain: self.domain@,
            local_part: opt_bytes(self.local_part),
            endpoint_url: self.endpoint_url@,
            secret: self.secret@,
            active: self.active,
        }
    }
}

/// The route receives bounces addressed to `user@domain`: it is active, for
/// that domain, and either a catch-all or for exactly that local part.
pub open spec fn route_matches(r: RouteView, user: Seq<u8>, domain: Seq<u8>) -> bool {
    r.active && r.domain == domain && (r.local_part is None || r.local_part == Some(user))
}

/// The ids of the routes matching `user@domain`, in order.
pub open spec fn matching_ids(routes: Seq<RouteView>, user: Seq<u8>, domain: Seq<u8>) -> Seq<i32>
    decreases routes.len(),
{
    if routes.len() == 0 {
        Seq::empty()
    } else {
        let rest = matching_ids(routes.drop_first(), user, domain);
        if route_matches(routes[0], user, domain) {
            seq![routes[0].id] + rest
        } else {
            rest
        }
    }
}

/// Whether one route matches `user@domain`, as [`route_matches`] describes.
pub fn route_matches_exec(r: &Route, user: &[u8], domain: &[u8]) -> (b: bool)
    ensures
        b == route_matches(r@, user@, domain@),
{
    if !r.active {
        return false;
    }
    if !bytes_eq(r.domain.as_slice(), domain) {
        return false;
    }
    match &r.local_part {
        None => true,
        Some(lp) => bytes_eq(lp.as_slice(), user),
    }
}

/// Collect the ids of the active routes matching `user@domain`, as
/// [`matching_ids`] describes.
pub fn matching_route_ids(routes: &Vec<Route>, user: &[u8], domain: &[u8]) -> (r: Vec<i32>)
    ensures
        r@ == matching_ids(routes@.map_values(|x: Route| x@), user@, domain@),
{
    let ghost rv = routes@.map_values(|x: Route| x@);
    let mut out: Vec<i32> = Vec::new();
    let mut i: usize = 0;
    proof {
        assert(rv.skip(0) =~= rv);
    }
    while i < routes.len()
        invariant
            i <= rv.len(),
            routes@.map_values(|x: Route| x@) == rv,
            out@ + matching_ids(rv.skip(i as int), user@, domain@) == matching_ids(
                rv,
                user@,
                domain@,
            ),
        decreases rv.len() - i,
    {
        proof {
            assert(rv.skip(i as int)[0] == rv[i as int]);
            assert(rv.skip(i as int).drop_first() =~= rv.skip(i + 1));
        }
        let ghost pre = out@;
        if route_matches_exec(&routes[i], user, domain) {
            out.push(routes[i].id);
            proof {
                assert(pre + (seq![rv[i as int].id] + matching_ids(
                    rv.skip(i + 1),
                    user@,
                    domain@,
                )) =~= out@ + matching_ids(rv.skip(i + 1), user@, domain@));
            }
        }
        i += 1;
    }
    proof {
        assert(rv.skip(i as int) =~= Seq::<RouteView>::empty());
        assert(out@ + Seq::<i32>::empty() =~= out@);
    }
    out
}

/// The local part of `local@domain`: what precedes the first `@`; empty
/// where no `@` occurs.
pub open spec fn target_user(addr: Seq<u8>) -> Seq<u8> {
    match addr.index_of_first(64u8) {
        Some(i) => addr.take(i),
        None => Seq::empty(),
    }
}

/// The domain of `local@domain`: what follows the first `@`; empty where no
/// `@` occurs.
pub open spec fn target_domain(addr: Seq<u8>) -> Seq<u8> {
    match addr.index_of_first(64u8) {
        Some(i) => addr.skip(i + 1),
        None => Seq::empty(),
    }
}

/// The local part with a sub-address tag stripped: what precedes the first
/// delimiter, or all of it where the delimiter does not occur.
pub open spec fn strip_tag(user: Seq<u8>, delim: u8) -> Seq<u8> {
    match user.index_of_first(delim) {
        Some(i) => user.take(i),
        None => user,
    }
}

/// Split a bounce target address into the tag-stripped local part and the
/// domain.
pub fn split_target(addr: &[u8], delim: u8) -> (r: (Vec<u8>, Vec<u8>))
    ensures
        r.0@ == strip_tag(target_user(addr@), delim),
        r.1@ == target_domain(addr@),
{
    proof {
        addr@.index_of_first_ensures(64u8);
    }
    let n = addr.len();
    match crate::text::find_first(addr, 64u8) {
        Some(i) => {
            let user = vstd::slice::slice_subrange(addr, 0, i);
            let domain = vstd::slice::slice_subrange(addr, i + 1, n);
            proof {
                assert(user@ =~= target_user(addr@));
                assert(domain@ =~= target_domain(addr@));
                user@.index_of_first_ensures(delim);
            }
            let stripped = match crate::text::find_first(user, delim) {
                Some(j) => vstd::slice::slice_to_vec(vstd::slice::slice_subrange(user, 0, j)),
                None => vstd::slice::slice_to_vec(user),
            };
            proof {
                assert(stripped@ =~= strip_tag(target_user(addr@), delim));
            }
            (stripped, vstd::slice::slice_to_vec(domain))
        },
        None => {
            let r = (Vec::new(), Vec::new());
            proof {
                target_user(addr@).index_of_first_ensures(delim);
                assert(r.0@ =~= strip_tag(target_user(addr@), delim));
                assert(r.1@ =~= target_domain(addr@));
            }
            r
        },
    }
}

/// A catch-all route and a specific route both serve their domain.
///
/// With one active route for `user@domain` and one active catch-all for
/// `domain`, a bounce to `user@domain` matches both routes, and a bounce
/// to any other local part of the domain matches the catch-all alone.
pub proof fn lemma_catch_all_and_specific(
    r1: RouteView,
    r2: RouteView,
    user: Seq<u8>,
    other: Seq<u8>,
    domain: Seq<u8>,
)
    requires
        r1.active,
        r1.domain == domain,
        r1.local_part == Some(user),
        r2.active,
        r2.domain == domain,
        r2.local_part is None,
        other != user,
    ensures
        matching_ids(seq![r1, r2], user, domain) == seq![r1.id, r2.id],
        matching_ids(seq![r1, r2], other, domain) == seq![r2.id],
{
    let rs = seq![r1, r2];
    reveal_with_fuel(matching_ids, 3);
    assert(rs.drop_first() =~= seq![r2]);
    assert(seq![r2].drop_first() =~= Seq::<RouteView>::empty());
    assert(matching_ids(seq![r2], user, domain) == seq![r2.id] + Seq::<i32>::empty());
    assert(matching_ids(rs, user, domain) =~= seq![r1.id, r2.id]);
    assert(matching_ids(seq![r2], other, domain) == seq![r2.id] + Seq::<i32>::empty());
    assert(matching_ids(rs, other, domain) =~= seq![r2.id]);
}


} // verus!
