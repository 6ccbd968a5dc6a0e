//! The dependents of a set of seeds within a horizon, over the dependency edges: a symbol depends
//! on a seed when a path of `uses`, `imports` and `type_hierarchy` edges leads from it to the seed.
//! A non-seed is reported at its shortest distance to the seeds; a seed at its shortest distance to
//! the other seeds. The connecting kind is the least-ordered kind of a first hop along a shortest
//! path. `contains` edges never count.

use vstd::prelude::*;

use crate::identity::CanonicalId;
use crate::text::str_eq;

use super::dependents::{row_view, rows_ordered, sort_dependents};
use super::store::{kind_order, kind_order_of, DependentRow};

verus! {

/// An edge `(source, kind, destination)` as plain values: the source depends on the destination.
pub type EdgeView = (Seq<char>, Seq<char>, Seq<char>);

/// The edges as plain values.
pub open spec fn edge_views(edges: Seq<(String, String, String)>) -> Seq<EdgeView> {
    edges.map_values(|e: (String, String, String)| (e.0@, e.1@, e.2@))
}

/// The seeds' identities.
pub open spec fn seed_views(seeds: Seq<CanonicalId>) -> Seq<Seq<char>> {
    seeds.map_values(|s: CanonicalId| s@)
}

/// Whether an edge is a dependency edge: `uses`, `imports` or `type_hierarchy`.
pub open spec fn is_dependency(e: EdgeView) -> bool {
    kind_order_of(e.1) < 3
}

/// The seed a node's distance excludes: itself, when it is a seed.
pub open spec fn excluded_for(seeds: Seq<Seq<char>>, x: Seq<char>) -> Option<Seq<char>> {
    if seeds.contains(x) {
        Some(x)
    } else {
        None
    }
}

/// Whether `y` reaches a seed other than `excluded` along exactly `k` dependency edges (`k == 0`:
/// `y` is such a seed).
pub open spec fn level(edges: Seq<EdgeView>, seeds: Seq<Seq<char>>, excluded: Option<Seq<char>>, y: Seq<char>, k: nat) -> bool
    decreases k,
{
    if k == 0 {
        seeds.contains(y) && excluded != Some(y)
    } else {
        exists|i: int|
            0 <= i < edges.len() && is_dependency(#[trigger] edges[i]) && edges[i].0 == y && level(
                edges,
                seeds,
                excluded,
                edges[i].2,
                (k - 1) as nat,
            )
    }
}

/// Whether `x` is at distance `n` from the seeds (from the other seeds, for a seed): it reaches
/// them along `n >= 1` dependency edges and along no fewer.
pub open spec fn at_distance(edges: Seq<EdgeView>, seeds: Seq<Seq<char>>, x: Seq<char>, n: nat) -> bool {
    &&& n >= 1
    &&& level(edges, seeds, excluded_for(seeds, x), x, n)
    &&& forall|m: nat| 1 <= m < n ==> !#[trigger] level(edges, seeds, excluded_for(seeds, x), x, m)
}

/// The least kind order among the first `len` edges that are first hops from `x` along which the
/// destination is at level `k`; 3 where there is none.
pub open spec fn least_kind(
    edges: Seq<EdgeView>,
    seeds: Seq<Seq<char>>,
    excluded: Option<Seq<char>>,
    x: Seq<char>,
    k: nat,
    len: int,
) -> u8
    decreases len,
{
    if len <= 0 {
        3
    } else {
        let rest = least_kind(edges, seeds, excluded, x, k, len - 1);
        let e = edges[len - 1];
        if is_dependency(e) && e.0 == x && level(edges, seeds, excluded, e.2, k) && kind_order_of(e.1) < rest {
            kind_order_of(e.1)
        } else {
            rest
        }
    }
}

/// The tag of a dependency kind order.
pub open spec fn kind_name(order: u8) -> Seq<char> {
    if order == 0 {
        "uses"@
    } else if order == 1 {
        "imports"@
    } else if order == 2 {
        "type_hierarchy"@
    } else {
        Seq::empty()
    }
}

/// The row `x` is reported as at distance `n`: its identity, the distance, and the least kind of a
/// first hop along a shortest path.
pub open spec fn dependent_row(edges: Seq<EdgeView>, seeds: Seq<Seq<char>>, x: Seq<char>, n: nat) -> (Seq<char>, u32, Seq<char>) {
    (x, n as u32, kind_name(least_kind(edges, seeds, excluded_for(seeds, x), x, (n - 1) as nat, edges.len() as int)))
}

/// A node's distance is unique.
pub proof fn lemma_distance_unique(edges: Seq<EdgeView>, seeds: Seq<Seq<char>>, x: Seq<char>, a: nat, b: nat)
    requires
        at_distance(edges, seeds, x, a),
        at_distance(edges, seeds, x, b),
    ensures
        a == b,
{
    if a < b {
        assert(!level(edges, seeds, excluded_for(seeds, x), x, a));
    } else if b < a {
        assert(!level(edges, seeds, excluded_for(seeds, x), x, b));
    }
}

/// The position of `s` in `u`, where it occurs.
pub open spec fn holds_at(u: Seq<String>, j: int, s: Seq<char>) -> bool {
    0 <= j < u.len() && u[j]@ == s
}

/// Whether the strings of `u` are distinct.
pub open spec fn distinct_strings(u: Seq<String>) -> bool {
    forall|a: int, b: int| 0 <= a < b < u.len() ==> (#[trigger] u[a])@ != (#[trigger] u[b])@
}

/// The position of `s` in `u`, appending it when absent.
fn position_or_push(u: &mut Vec<String>, s: &String) -> (r: usize)
    requires
        distinct_strings(old(u)@),
    ensures
        distinct_strings(final(u)@),
        final(u)@.len() >= old(u)@.len(),
        forall|j: int| 0 <= j < old(u)@.len() ==> final(u)@[j] == old(u)@[j],
        holds_at(final(u)@, r as int, s@),
{
    let mut j: usize = 0;
    while j < u.len()
        invariant
            j <= u.len(),
            u@ == old(u)@,
            distinct_strings(u@),
            forall|m: int| 0 <= m < j ==> (#[trigger] u@[m])@ != s@,
        decreases u.len() - j,
    {
        if str_eq(u[j].as_str(), s.as_str()) {
            return j;
        }
        j = j + 1;
    }
    let ghost before = u@;
    u.push(s.clone());
    assert forall|a: int, b: int| 0 <= a < b < u@.len() implies (#[trigger] u@[a])@ != (#[trigger] u@[b])@ by {
        if b < before.len() {
            assert(u@[a] == before[a] && u@[b] == before[b]);
        } else {
            assert(u@[a] == before[a]);
        }
    }
    j
}

/// The nodes the edges name, distinct, with each edge's source and destination positions.
fn universe(edges: &[(String, String, String)]) -> (r: (Vec<String>, Vec<(usize, usize)>))
    ensures
        distinct_strings(r.0@),
        r.1@.len() == edges@.len(),
        forall|i: int|
            0 <= i < edges@.len() ==> holds_at(r.0@, (#[trigger] r.1@[i]).0 as int, edges@[i].0@) && holds_at(
                r.0@,
                r.1@[i].1 as int,
                edges@[i].2@,
            ),
{
    let mut u: Vec<String> = Vec::new();
    let mut at: Vec<(usize, usize)> = Vec::new();
    let mut i: usize = 0;
    while i < edges.len()
        invariant
            i <= edges.len(),
            distinct_strings(u@),
            at@.len() == i,
            forall|m: int|
                0 <= m < i ==> holds_at(u@, (#[trigger] at@[m]).0 as int, edges@[m].0@) && holds_at(
                    u@,
                    at@[m].1 as int,
                    edges@[m].2@,
                ),
        decreases edges.len() - i,
    {
        let a = position_or_push(&mut u, &edges[i].0);
        let ghost mid = u@;
        let b = position_or_push(&mut u, &edges[i].2);
        assert(holds_at(u@, a as int, edges@[i as int].0@)) by {
            assert(u@[a as int] == mid[a as int]);
        }
        assert forall|m: int| 0 <= m < i implies holds_at(u@, (#[trigger] at@[m]).0 as int, edges@[m].0@) && holds_at(
            u@,
            at@[m].1 as int,
            edges@[m].2@,
        ) by {}
        at.push((a, b));
        i = i + 1;
    }
    (u, at)
}

/// The excluded seed, by position in `u`.
pub open spec fn excluded_view(u: Seq<String>, excluded: Option<usize>) -> Option<Seq<char>> {
    match excluded {
        Some(j) => Some(u[j as int]@),
        None => None,
    }
}

/// Whether `n` is the first level, from 1, at which `y` reaches a seed other than `excluded`.
pub open spec fn first_level(edges: Seq<EdgeView>, seeds: Seq<Seq<char>>, excluded: Option<Seq<char>>, y: Seq<char>, n: nat) -> bool {
    &&& n >= 1
    &&& level(edges, seeds, excluded, y, n)
    &&& forall|m: nat| 1 <= m < n ==> !#[trigger] level(edges, seeds, excluded, y, m)
}

/// Whether `d` is node `y`'s first level within `horizon`, with the least first-hop kind there.
pub open spec fn first_within(
    edges: Seq<EdgeView>,
    seeds: Seq<Seq<char>>,
    excluded: Option<Seq<char>>,
    y: Seq<char>,
    horizon: nat,
    d: Option<(u32, u8)>,
) -> bool {
    match d {
        Some((n, o)) => 1 <= n <= horizon && first_level(edges, seeds, excluded, y, n as nat) && o == least_kind(
            edges,
            seeds,
            excluded,
            y,
            (n - 1) as nat,
            edges.len() as int,
        ),
        None => forall|m: nat| 1 <= m <= horizon ==> !#[trigger] level(edges, seeds, excluded, y, m),
    }
}

/// For each node of `u`, its first level within `horizon` at which it reaches a seed other than
/// the excluded one, with the least kind of a first hop there; levels are computed a round at a
/// time over all edges.
fn first_levels(
    edges: &[(String, String, String)],
    u: &Vec<String>,
    at: &Vec<(usize, usize)>,
    orders: &Vec<u8>,
    seeds: &[CanonicalId],
    seed_here: &Vec<bool>,
    excluded: Option<usize>,
    horizon: u32,
) -> (r: Vec<Option<(u32, u8)>>)
    requires
        distinct_strings(u@),
        at@.len() == edges@.len(),
        forall|i: int|
            0 <= i < edges@.len() ==> holds_at(u@, (#[trigger] at@[i]).0 as int, edges@[i].0@) && holds_at(
                u@,
                at@[i].1 as int,
                edges@[i].2@,
            ),
        orders@.len() == edges@.len(),
        forall|i: int| 0 <= i < edges@.len() ==> (#[trigger] orders@[i]) == kind_order_of(edges@[i].1@),
        seed_here@.len() == u@.len(),
        forall|j: int| 0 <= j < u@.len() ==> (#[trigger] seed_here@[j]) == seed_views(seeds@).contains(u@[j]@),
        excluded matches Some(j0) ==> j0 < u@.len(),
    ensures
        r@.len() == u@.len(),
        forall|j: int|
            0 <= j < u@.len() ==> first_within(
                edge_views(edges@),
                seed_views(seeds@),
                excluded_view(u@, excluded),
                u@[j]@,
                horizon as nat,
                #[trigger] r@[j],
            ),
{
    let ghost ev = edge_views(edges@);
    let ghost sv = seed_views(seeds@);
    let ghost ex = excluded_view(u@, excluded);
    let mut cur: Vec<bool> = Vec::new();
    let mut dist: Vec<Option<(u32, u8)>> = Vec::new();
    let mut j: usize = 0;
    while j < u.len()
        invariant
            j <= u.len(),
            cur@.len() == j,
            dist@.len() == j,
            distinct_strings(u@),
            excluded matches Some(j0) ==> j0 < u@.len(),
            ex == excluded_view(u@, excluded),
            sv == seed_views(seeds@),
            seed_here@.len() == u@.len(),
            forall|m: int| 0 <= m < u@.len() ==> (#[trigger] seed_here@[m]) == sv.contains(u@[m]@),
            forall|m: int| 0 <= m < j ==> (#[trigger] cur@[m]) == level(ev, sv, ex, u@[m]@, 0),
            forall|m: int| 0 <= m < j ==> (#[trigger] dist@[m]) is None,
        decreases u.len() - j,
    {
        let not_excluded = match excluded {
            Some(j0) => j0 != j,
            None => true,
        };
        proof {
            if let Some(j0) = excluded {
                if j0 != j {
                    if j0 < j {
                        assert(u@[j0 as int]@ != u@[j as int]@);
                    } else {
                        assert(u@[j as int]@ != u@[j0 as int]@);
                    }
                }
            }
        }
        cur.push(seed_here[j] && not_excluded);
        dist.push(None);
        j = j + 1;
    }
    let mut done: u32 = 0;
    while done < horizon
        invariant
            done <= horizon,
            cur@.len() == u@.len(),
            dist@.len() == u@.len(),
            distinct_strings(u@),
            ex == excluded_view(u@, excluded),
            sv == seed_views(seeds@),
            ev == edge_views(edges@),
            at@.len() == edges@.len(),
            forall|i: int|
                0 <= i < edges@.len() ==> holds_at(u@, (#[trigger] at@[i]).0 as int, edges@[i].0@) && holds_at(
                    u@,
                    at@[i].1 as int,
                    edges@[i].2@,
                ),
            orders@.len() == edges@.len(),
            forall|i: int| 0 <= i < edges@.len() ==> (#[trigger] orders@[i]) == kind_order_of(edges@[i].1@),
            forall|m: int| 0 <= m < u@.len() ==> (#[trigger] cur@[m]) == level(ev, sv, ex, u@[m]@, done as nat),
            forall|m: int| 0 <= m < u@.len() ==> first_within(ev, sv, ex, u@[m]@, done as nat, #[trigger] dist@[m]),
        decreases horizon - done,
    {
        let mut next: Vec<bool> = Vec::new();
        let mut kmin: Vec<u8> = Vec::new();
        let mut j: usize = 0;
        while j < u.len()
            invariant
                j <= u.len(),
                next@.len() == j,
                kmin@.len() == j,
                forall|m: int| 0 <= m < j ==> !(#[trigger] next@[m]),
                forall|m: int| 0 <= m < j ==> (#[trigger] kmin@[m]) == 3,
            decreases u.len() - j,
        {
            next.push(false);
            kmin.push(3);
            j = j + 1;
        }
        let mut i: usize = 0;
        while i < edges.len()
            invariant
                i <= edges.len(),
                next@.len() == u@.len(),
                kmin@.len() == u@.len(),
                cur@.len() == u@.len(),
                distinct_strings(u@),
                ev == edge_views(edges@),
                at@.len() == edges@.len(),
                forall|i2: int|
                    0 <= i2 < edges@.len() ==> holds_at(u@, (#[trigger] at@[i2]).0 as int, edges@[i2].0@) && holds_at(
                        u@,
                        at@[i2].1 as int,
                        edges@[i2].2@,
                    ),
                orders@.len() == edges@.len(),
                forall|i2: int| 0 <= i2 < edges@.len() ==> (#[trigger] orders@[i2]) == kind_order_of(edges@[i2].1@),
                forall|m: int| 0 <= m < u@.len() ==> (#[trigger] cur@[m]) == level(ev, sv, ex, u@[m]@, done as nat),
                forall|m: int|
                    0 <= m < u@.len() ==> ((#[trigger] next@[m]) <==> exists|i2: int|
                        0 <= i2 < i && is_dependency(#[trigger] ev[i2]) && ev[i2].0 == u@[m]@ && level(
                            ev,
                            sv,
                            ex,
                            ev[i2].2,
                            done as nat,
                        )),
                forall|m: int|
                    0 <= m < u@.len() ==> (#[trigger] kmin@[m]) == least_kind(ev, sv, ex, u@[m]@, done as nat, i as int),
            decreases edges.len() - i,
        {
            let (a, b) = at[i];
            assert(ev[i as int] == (edges@[i as int].0@, edges@[i as int].1@, edges@[i as int].2@));
            assert(holds_at(u@, a as int, edges@[i as int].0@));
            assert(holds_at(u@, b as int, edges@[i as int].2@));
            let ghost next0 = next@;
            let ghost kmin0 = kmin@;
            if orders[i] < 3 && cur[b] {
                next.set(a, true);
                if orders[i] < kmin[a] {
                    kmin.set(a, orders[i]);
                }
            }
            assert forall|m: int| 0 <= m < u@.len() implies ((#[trigger] next@[m]) <==> exists|i2: int|
                0 <= i2 < i + 1 && is_dependency(#[trigger] ev[i2]) && ev[i2].0 == u@[m]@ && level(
                    ev,
                    sv,
                    ex,
                    ev[i2].2,
                    done as nat,
                )) by {
                if m != a {
                    if m < a {
                        assert(u@[m]@ != u@[a as int]@);
                    } else {
                        assert(u@[a as int]@ != u@[m]@);
                    }
                    if next@[m] {
                        assert(next0[m]);
                    }
                } else {
                    if next@[m] && !next0[m] {
                        assert(is_dependency(ev[i as int]) && ev[i as int].0 == u@[m]@);
                    }
                }
            }
            assert forall|m: int| 0 <= m < u@.len() implies (#[trigger] kmin@[m]) == least_kind(
                ev,
                sv,
                ex,
                u@[m]@,
                done as nat,
                i + 1,
            ) by {
                assert(kmin0[m] == least_kind(ev, sv, ex, u@[m]@, done as nat, i as int));
                if m != a {
                    if m < a {
                        assert(u@[m]@ != u@[a as int]@);
                    } else {
                        assert(u@[a as int]@ != u@[m]@);
                    }
                }
            }
            i = i + 1;
        }
        let ghost d = (done + 1) as nat;
        let mut j: usize = 0;
        while j < u.len()
            invariant
                j <= u.len(),
                done < horizon,
                d == done + 1,
                next@.len() == u@.len(),
                kmin@.len() == u@.len(),
                dist@.len() == u@.len(),
                ev == edge_views(edges@),
                forall|m: int|
                    0 <= m < u@.len() ==> ((#[trigger] next@[m]) <==> exists|i2: int|
                        0 <= i2 < edges@.len() && is_dependency(#[trigger] ev[i2]) && ev[i2].0 == u@[m]@ && level(
                            ev,
                            sv,
                            ex,
                            ev[i2].2,
                            done as nat,
                        )),
                forall|m: int|
                    0 <= m < u@.len() ==> (#[trigger] kmin@[m]) == least_kind(
                        ev,
                        sv,
                        ex,
                        u@[m]@,
                        done as nat,
                        edges@.len() as int,
                    ),
                forall|m: int| j <= m < u@.len() ==> first_within(ev, sv, ex, u@[m]@, done as nat, #[trigger] dist@[m]),
                forall|m: int| 0 <= m < j ==> first_within(ev, sv, ex, u@[m]@, d, #[trigger] dist@[m]),
            decreases u.len() - j,
        {
            assert(ev.len() == edges@.len());
            assert(next@[j as int] == level(ev, sv, ex, u@[j as int]@, d));
            let ghost old_d = dist@[j as int];
            if dist[j].is_none() && next[j] {
                dist.set(j, Some((done + 1, kmin[j])));
            }
            proof {
                let y = u@[j as int]@;
                match old_d {
                    Some((n, o)) => {
                        assert forall|m: nat| 1 <= m < n implies !#[trigger] level(ev, sv, ex, y, m) by {
                            assert(first_level(ev, sv, ex, y, n as nat));
                        }
                    },
                    None => {
                        assert forall|m: nat| 1 <= m <= d implies !#[trigger] level(ev, sv, ex, y, m) || next@[j as int] by {}
                    },
                }
            }
            j = j + 1;
        }
        cur = next;
        done = done + 1;
    }
    dist
}

/// Whether `y` is at some distance from 1 to `horizon`.
pub open spec fn near(edges: Seq<EdgeView>, seeds: Seq<Seq<char>>, y: Seq<char>, horizon: nat) -> bool {
    exists|n: nat| 1 <= n <= horizon && #[trigger] at_distance(edges, seeds, y, n)
}

/// Whether some row came from node position `m`.
pub open spec fn row_from(from: Seq<int>, m: int) -> bool {
    exists|k: int| 0 <= k < from.len() && #[trigger] from[k] == m
}

/// The tag of a dependency kind order.
fn kind_name_of(order: u8) -> (r: &'static str)
    ensures
        r@ == kind_name(order),
{
    proof {
        reveal_strlit("uses");
        reveal_strlit("imports");
        reveal_strlit("type_hierarchy");
        reveal_strlit("");
    }
    if order == 0 {
        "uses"
    } else if order == 1 {
        "imports"
    } else if order == 2 {
        "type_hierarchy"
    } else {
        ""
    }
}

/// Whether a dependent row is what `x` is reported as: at its distance within the horizon, with
/// the least first-hop kind.
pub open spec fn reported_row(edges: Seq<EdgeView>, seeds: Seq<Seq<char>>, horizon: u32, row: (Seq<char>, u32, Seq<char>)) -> bool {
    &&& 1 <= row.1 <= horizon
    &&& at_distance(edges, seeds, row.0, row.1 as nat)
    &&& row == dependent_row(edges, seeds, row.0, row.1 as nat)
}

/// The rows as plain values.
pub open spec fn rows_view(rows: Seq<DependentRow>) -> Seq<(Seq<char>, u32, Seq<char>)> {
    rows.map_values(|x: DependentRow| row_view(x))
}

/// The dependents of `seeds` within `horizon` hops over `edges` (source, kind, destination), in
/// reporting order (by distance, then kind order, then identity). A non-seed is reported exactly
/// when it reaches a seed along 1 to `horizon` dependency edges, at its shortest such distance; a
/// seed exactly when it so reaches another seed. Each is reported once, with the least-ordered
/// kind of a first hop along a shortest path. Edges of any other kind (`contains`) never count.
pub fn dependents_within(edges: &[(String, String, String)], seeds: &[CanonicalId], horizon: u32) -> (r: Vec<DependentRow>)
    ensures
        rows_ordered(rows_view(r@)),
        forall|k: int|
            0 <= k < r@.len() ==> reported_row(
                edge_views(edges@),
                seed_views(seeds@),
                horizon,
                #[trigger] rows_view(r@)[k],
            ),
        forall|x: Seq<char>, n: nat|
            1 <= n <= horizon && #[trigger] at_distance(edge_views(edges@), seed_views(seeds@), x, n) ==> exists|k: int|
                0 <= k < r@.len() && (#[trigger] rows_view(r@)[k]).0 == x,
        forall|a: int, b: int| 0 <= a < b < r@.len() ==> (#[trigger] rows_view(r@)[a]).0 != (#[trigger] rows_view(r@)[b]).0,
{
    let ghost ev = edge_views(edges@);
    let ghost sv = seed_views(seeds@);
    let (u, at) = universe(edges);
    let mut orders: Vec<u8> = Vec::new();
    let mut i: usize = 0;
    while i < edges.len()
        invariant
            i <= edges.len(),
            orders@.len() == i,
            forall|m: int| 0 <= m < i ==> (#[trigger] orders@[m]) == kind_order_of(edges@[m].1@),
        decreases edges.len() - i,
    {
        orders.push(kind_order(edges[i].1.as_str()));
        i = i + 1;
    }
    let mut seed_here: Vec<bool> = Vec::new();
    let mut j: usize = 0;
    while j < u.len()
        invariant
            j <= u.len(),
            sv == seed_views(seeds@),
            seed_here@.len() == j,
            forall|m: int| 0 <= m < j ==> (#[trigger] seed_here@[m]) == sv.contains(u@[m]@),
        decreases u.len() - j,
    {
        let mut found = false;
        let mut k: usize = 0;
        while k < seeds.len()
            invariant
                k <= seeds.len(),
                j < u.len(),
                sv == seed_views(seeds@),
                found <==> exists|q: int| 0 <= q < k && sv[q] == u@[j as int]@,
            decreases seeds.len() - k,
        {
            assert(sv[k as int] == seeds@[k as int]@);
            if str_eq(seeds[k].as_str(), u[j].as_str()) {
                found = true;
            }
            k = k + 1;
        }
        seed_here.push(found);
        j = j + 1;
    }
    let base = first_levels(edges, &u, &at, &orders, seeds, &seed_here, None, horizon);
    let mut rows: Vec<DependentRow> = Vec::new();
    let ghost mut from: Seq<int> = Seq::empty();
    let mut j: usize = 0;
    while j < u.len()
        invariant
            j <= u.len(),
            ev == edge_views(edges@),
            sv == seed_views(seeds@),
            distinct_strings(u@),
            at@.len() == edges@.len(),
            forall|i2: int|
                0 <= i2 < edges@.len() ==> holds_at(u@, (#[trigger] at@[i2]).0 as int, edges@[i2].0@) && holds_at(
                    u@,
                    at@[i2].1 as int,
                    edges@[i2].2@,
                ),
            orders@.len() == edges@.len(),
            forall|i2: int| 0 <= i2 < edges@.len() ==> (#[trigger] orders@[i2]) == kind_order_of(edges@[i2].1@),
            seed_here@.len() == u@.len(),
            forall|m: int| 0 <= m < u@.len() ==> (#[trigger] seed_here@[m]) == sv.contains(u@[m]@),
            base@.len() == u@.len(),
            forall|m: int|
                0 <= m < u@.len() ==> first_within(ev, sv, excluded_view(u@, None), u@[m]@, horizon as nat, #[trigger] base@[m]),
            from.len() == rows@.len(),
            forall|k: int| 0 <= k < from.len() ==> 0 <= #[trigger] from[k] < j,
            forall|a: int, b: int| 0 <= a < b < from.len() ==> #[trigger] from[a] < #[trigger] from[b],
            forall|k: int| 0 <= k < rows@.len() ==> (#[trigger] rows_view(rows@)[k]).0 == u@[from[k]]@,
            forall|k: int| 0 <= k < rows@.len() ==> reported_row(ev, sv, horizon, #[trigger] rows_view(rows@)[k]),
            forall|m: int| 0 <= m < j && #[trigger] near(ev, sv, u@[m]@, horizon as nat) ==> row_from(from, m),
        decreases u.len() - j,
    {
        let d = if seed_here[j] {
            let own = first_levels(edges, &u, &at, &orders, seeds, &seed_here, Some(j), horizon);
            own[j]
        } else {
            base[j]
        };
        let ghost y = u@[j as int]@;
        proof {
            assert(excluded_for(sv, y) == if seed_here@[j as int] {
                excluded_view(u@, Some(j))
            } else {
                excluded_view(u@, None)
            });
        }
        let ghost rows0 = rows@;
        match d {
            Some((n, o)) => {
                let row = DependentRow { id: CanonicalId::from_raw(u[j].as_str()), depth: n, kind: kind_name_of(o).to_owned() };
                rows.push(row);
                let ghost from0 = from;
                proof {
                    from = from.push(j as int);
                    assert(rows_view(rows@)[rows@.len() - 1] == (y, n, kind_name(o)));
                    assert(reported_row(ev, sv, horizon, (y, n, kind_name(o))));
                    assert forall|k: int| 0 <= k < rows@.len() implies reported_row(ev, sv, horizon, #[trigger] rows_view(rows@)[k]) by {
                        if k < rows0.len() {
                            assert(rows_view(rows@)[k] == rows_view(rows0)[k]);
                        }
                    }
                    assert forall|k: int| 0 <= k < rows@.len() implies (#[trigger] rows_view(rows@)[k]).0 == u@[from[k]]@ by {
                        if k < rows0.len() {
                            assert(rows_view(rows@)[k] == rows_view(rows0)[k]);
                        }
                    }
                    assert(from[from.len() - 1] == j as int);
                    assert(row_from(from, j as int));
                    assert forall|m: int| 0 <= m < j + 1 && #[trigger] near(ev, sv, u@[m]@, horizon as nat) implies row_from(from, m) by {
                        if m < j {
                            assert(row_from(from0, m));
                            let k = choose|k: int| 0 <= k < from0.len() && #[trigger] from0[k] == m;
                            assert(from[k] == m);
                        }
                    }
                }
            },
            None => {
                proof {
                    assert forall|n: nat| 1 <= n <= horizon implies !#[trigger] at_distance(ev, sv, y, n) by {
                        if at_distance(ev, sv, y, n) {
                            assert(level(ev, sv, excluded_for(sv, y), y, n));
                        }
                    }
                    assert(!near(ev, sv, y, horizon as nat));
                }
            },
        }
        j = j + 1;
    }
    let ghost pre = rows_view(rows@);
    proof {
        // Every node at a distance within the horizon has a row: it is an edge's source, so in `u`.
        assert forall|x: Seq<char>, n: nat| 1 <= n <= horizon && #[trigger] at_distance(ev, sv, x, n) implies exists|k: int|
            0 <= k < pre.len() && (#[trigger] pre[k]).0 == x by {
            let ex = excluded_for(sv, x);
            assert(level(ev, sv, ex, x, n));
            let i2 = choose|i2: int|
                0 <= i2 < ev.len() && is_dependency(#[trigger] ev[i2]) && ev[i2].0 == x && level(ev, sv, ex, ev[i2].2, (n - 1) as nat);
            assert(ev[i2].0 == edges@[i2].0@);
            let m = at@[i2].0 as int;
            assert(holds_at(u@, m, edges@[i2].0@));
            assert(near(ev, sv, u@[m]@, horizon as nat));
            let k = choose|k: int| 0 <= k < from.len() && #[trigger] from[k] == m;
            assert(pre[k].0 == u@[m]@);
        }
        assert forall|a: int, b: int| 0 <= a < b < pre.len() implies (#[trigger] pre[a]).0 != (#[trigger] pre[b]).0 by {
            assert(from[a] < from[b]);
            assert(u@[from[a]]@ != u@[from[b]]@);
        }
        assert(pre.no_duplicates()) by {
            assert forall|a: int, b: int| 0 <= a < pre.len() && 0 <= b < pre.len() && a != b implies pre[a] != pre[b] by {
                if a < b {
                    assert(pre[a].0 != pre[b].0);
                } else {
                    assert(pre[b].0 != pre[a].0);
                }
            }
        }
        pre.lemma_multiset_has_no_duplicates();
    }
    let sorted = sort_dependents(rows);
    proof {
        broadcast use vstd::seq_lib::group_to_multiset_ensures;

        let post = rows_view(sorted@);
        assert(post.to_multiset() == pre.to_multiset());
        assert forall|k: int| 0 <= k < sorted@.len() implies reported_row(ev, sv, horizon, #[trigger] rows_view(sorted@)[k]) by {
            assert(post.contains(post[k]));
            assert(post.to_multiset().count(post[k]) > 0);
            assert(pre.contains(post[k]));
            let q = choose|q: int| 0 <= q < pre.len() && pre[q] == post[k];
            assert(reported_row(ev, sv, horizon, pre[q]));
        }
        assert forall|x: Seq<char>, n: nat| 1 <= n <= horizon && #[trigger] at_distance(ev, sv, x, n) implies exists|k: int|
            0 <= k < sorted@.len() && (#[trigger] rows_view(sorted@)[k]).0 == x by {
            let q = choose|q: int| 0 <= q < pre.len() && (#[trigger] pre[q]).0 == x;
            assert(pre.contains(pre[q]));
            assert(post.to_multiset().count(pre[q]) > 0);
            assert(post.contains(pre[q]));
        }
        assert forall|x: (Seq<char>, u32, Seq<char>)| post.to_multiset().contains(x) implies post.to_multiset().count(x) == 1 by {
            assert(pre.to_multiset().contains(x));
        }
        post.lemma_multiset_has_no_duplicates_conv();
        assert forall|a: int, b: int| 0 <= a < b < sorted@.len() implies (#[trigger] rows_view(sorted@)[a]).0 != (#[trigger] rows_view(
            sorted@,
        )[b]).0 by {
            if post[a].0 == post[b].0 {
                assert(reported_row(ev, sv, horizon, post[a]));
                assert(reported_row(ev, sv, horizon, post[b]));
                lemma_distance_unique(ev, sv, post[a].0, post[a].1 as nat, post[b].1 as nat);
                assert(post[a] == post[b]);
            }
        }
    }
    sorted
}


/// Whether edge `e` is a first hop from `x` whose destination reaches the seeds (other than
/// `excluded`) along `k` more dependency edges.
pub open spec fn first_hop(edges: Seq<EdgeView>, seeds: Seq<Seq<char>>, excluded: Option<Seq<char>>, x: Seq<char>, k: nat, e: EdgeView) -> bool {
    is_dependency(e) && e.0 == x && level(edges, seeds, excluded, e.2, k)
}

/// The least kind among the first `len` edges is at most the kind of each first hop among them,
/// and, below 3, the kind of one of them.
proof fn lemma_least_kind_is_a_least_hop(
    edges: Seq<EdgeView>,
    seeds: Seq<Seq<char>>,
    excluded: Option<Seq<char>>,
    x: Seq<char>,
    k: nat,
    len: int,
)
    requires
        0 <= len <= edges.len(),
    ensures
        least_kind(edges, seeds, excluded, x, k, len) <= 3,
        forall|j: int|
            0 <= j < len && first_hop(edges, seeds, excluded, x, k, #[trigger] edges[j]) ==> least_kind(
                edges,
                seeds,
                excluded,
                x,
                k,
                len,
            ) <= kind_order_of(edges[j].1),
        least_kind(edges, seeds, excluded, x, k, len) < 3 ==> exists|j: int|
            0 <= j < len && first_hop(edges, seeds, excluded, x, k, #[trigger] edges[j]) && kind_order_of(edges[j].1)
                == least_kind(edges, seeds, excluded, x, k, len),
    decreases len,
{
    if len > 0 {
        lemma_least_kind_is_a_least_hop(edges, seeds, excluded, x, k, len - 1);
    }
}

/// The edge kind tags `uses`, `imports`, `type_hierarchy` and `contains` are four distinct tags.
proof fn lemma_kind_tags()
    ensures
        "imports"@ != "uses"@,
        "type_hierarchy"@ != "uses"@,
        "type_hierarchy"@ != "imports"@,
        "contains"@ != "uses"@,
        "contains"@ != "imports"@,
        "contains"@ != "type_hierarchy"@,
{
    reveal_strlit("uses");
    reveal_strlit("imports");
    reveal_strlit("type_hierarchy");
    reveal_strlit("contains");
    assert("uses"@.len() == 4 && "imports"@.len() == 7 && "type_hierarchy"@.len() == 14 && "contains"@.len() == 8);
    assert("imports"@ != "uses"@);
    assert("type_hierarchy"@ != "uses"@ && "type_hierarchy"@ != "imports"@);
    assert("contains"@ != "uses"@ && "contains"@ != "imports"@ && "contains"@ != "type_hierarchy"@);
}

/// Every `uses`, `imports` and `type_hierarchy` edge is a dependency hop, and a `contains` edge
/// never is: a node with an edge of one of the three kinds into a seed other than itself is at
/// distance one from the seeds, and when that is its only edge it is reported with that edge's
/// kind. A `contains` edge alone puts no node at any distance.
pub proof fn lemma_direct_dependents(edges: Seq<EdgeView>, seeds: Seq<Seq<char>>, i: int)
    requires
        0 <= i < edges.len(),
        seeds.contains(edges[i].2),
        edges[i].2 != edges[i].0,
    ensures
        edges[i].1 == "uses"@ || edges[i].1 == "imports"@ || edges[i].1 == "type_hierarchy"@ ==> at_distance(
            edges,
            seeds,
            edges[i].0,
            1,
        ),
        (edges[i].1 == "uses"@ || edges[i].1 == "imports"@ || edges[i].1 == "type_hierarchy"@) && (forall|j: int|
            0 <= j < edges.len() && j != i ==> (#[trigger] edges[j]).0 != edges[i].0) ==> dependent_row(
            edges,
            seeds,
            edges[i].0,
            1,
        ).2 == edges[i].1,
        edges[i].1 == "contains"@ && edges.len() == 1 ==> forall|n: nat| !#[trigger] at_distance(edges, seeds, edges[i].0, n),
{
    lemma_kind_tags();
    let x = edges[i].0;
    let ex = excluded_for(seeds, x);
    assert(level(edges, seeds, ex, edges[i].2, 0));
    if edges[i].1 == "uses"@ || edges[i].1 == "imports"@ || edges[i].1 == "type_hierarchy"@ {
        assert(is_dependency(edges[i]));
        assert(level(edges, seeds, ex, x, 1));
        if forall|j: int| 0 <= j < edges.len() && j != i ==> (#[trigger] edges[j]).0 != edges[i].0 {
            let len = edges.len() as int;
            lemma_least_kind_is_a_least_hop(edges, seeds, ex, x, 0, len);
            assert(first_hop(edges, seeds, ex, x, 0, edges[i]));
            let l = least_kind(edges, seeds, ex, x, 0, len);
            let j = choose|j: int|
                0 <= j < len && first_hop(edges, seeds, ex, x, 0, #[trigger] edges[j]) && kind_order_of(edges[j].1) == l;
            assert(j == i);
        }
    }
    if edges[i].1 == "contains"@ && edges.len() == 1 {
        assert forall|n: nat| !#[trigger] at_distance(edges, seeds, x, n) by {
            if n >= 1 {
                assert(!is_dependency(edges[0]));
                assert(!level(edges, seeds, ex, x, n));
            }
        }
    }
}

/// The kind a node is reported with is the kind of one of its first hops along a shortest path,
/// and the earliest such kind in the order `uses`, `imports`, `type_hierarchy`: a node with a
/// shortest first hop of kind `uses` is reported as `uses`, and one with a shortest first hop of
/// kind `imports` is never reported as `type_hierarchy`.
pub proof fn lemma_reported_kind(edges: Seq<EdgeView>, seeds: Seq<Seq<char>>, x: Seq<char>, n: nat)
    requires
        at_distance(edges, seeds, x, n),
    ensures
        ({
            let kind = dependent_row(edges, seeds, x, n).2;
            &&& kind == "uses"@ || kind == "imports"@ || kind == "type_hierarchy"@
            &&& exists|i: int|
                0 <= i < edges.len() && (#[trigger] edges[i]).0 == x && edges[i].1 == kind && level(
                    edges,
                    seeds,
                    excluded_for(seeds, x),
                    edges[i].2,
                    (n - 1) as nat,
                )
            &&& forall|j: int|
                0 <= j < edges.len() && (#[trigger] edges[j]).0 == x && level(
                    edges,
                    seeds,
                    excluded_for(seeds, x),
                    edges[j].2,
                    (n - 1) as nat,
                ) ==> (edges[j].1 == "uses"@ ==> kind == "uses"@) && (edges[j].1 == "imports"@ ==> kind
                    != "type_hierarchy"@)
        }),
{
    lemma_kind_tags();
    let ex = excluded_for(seeds, x);
    let k = (n - 1) as nat;
    let len = edges.len() as int;
    lemma_least_kind_is_a_least_hop(edges, seeds, ex, x, k, len);
    assert(level(edges, seeds, ex, x, n));
    let i = choose|i: int| 0 <= i < edges.len() && is_dependency(#[trigger] edges[i]) && edges[i].0 == x && level(edges, seeds, ex, edges[i].2, k);
    assert(first_hop(edges, seeds, ex, x, k, edges[i]));
    let l = least_kind(edges, seeds, ex, x, k, len);
    assert(l < 3);
    let j = choose|j: int| 0 <= j < len && first_hop(edges, seeds, ex, x, k, #[trigger] edges[j]) && kind_order_of(edges[j].1) == l;
    let kind = dependent_row(edges, seeds, x, n).2;
    assert(kind == kind_name(l));
    assert(kind == edges[j].1);
    assert forall|m: int|
        0 <= m < edges.len() && (#[trigger] edges[m]).0 == x && level(edges, seeds, ex, edges[m].2, k) implies (edges[m].1
        == "uses"@ ==> kind == "uses"@) && (edges[m].1 == "imports"@ ==> kind != "type_hierarchy"@) by {
        if edges[m].1 == "uses"@ || edges[m].1 == "imports"@ {
            assert(first_hop(edges, seeds, ex, x, k, edges[m]));
        }
    }
}

} // verus!
