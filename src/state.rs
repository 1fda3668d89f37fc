//! The network state store: links, default routes in dedicated tables and
//! policy rules.

use vstd::prelude::*;
use vstd::hash_map::{HashMapWithView, StringHashMap};
use crate::ip::IpAddress;

verus! {

broadcast use vstd::std_specs::hash::group_hash_axioms;

/// A policy rule: packets from (or to) `address` look up `table`.
#[derive(Clone, Copy, Debug, PartialEq, Eq, Structural)]
pub struct RoutingRule {
    pub address: IpAddress,
    pub table: u32,
    pub is_from: bool,
}

/// The default route of a dedicated table.
#[derive(Clone, Copy, Debug)]
pub struct RouteEntry {
    pub ifindex: u32,
    pub gateway: Option<IpAddress>,
    pub table: u32,
}

/// No two rules of the sequence are for the same address.
pub open spec fn rules_unique(s: Seq<RoutingRule>) -> bool {
    forall|i: int, j: int|
        0 <= i < s.len() && 0 <= j < s.len() && i != j ==> s[i].address != s[j].address
}

/// The rules as a map from address to table.
pub open spec fn rules_map(s: Seq<RoutingRule>) -> Map<IpAddress, u32> {
    Map::new(
        |a: IpAddress| exists|i: int| 0 <= i < s.len() && s[i].address == a,
        |a: IpAddress| s[choose|i: int| 0 <= i < s.len() && s[i].address == a].table,
    )
}

/// No two routes of the sequence are for the same interface and table.
pub open spec fn routes_unique(s: Seq<RouteEntry>) -> bool {
    forall|i: int, j: int|
        0 <= i < s.len() && 0 <= j < s.len() && i != j ==> (s[i].ifindex, s[i].table) != (
        s[j].ifindex,
        s[j].table,
    )
}

/// The routes as a map from (interface, table) to gateway.
pub open spec fn routes_map(s: Seq<RouteEntry>) -> Map<(u32, u32), Option<IpAddress>> {
    Map::new(
        |k: (u32, u32)| exists|i: int| 0 <= i < s.len() && (s[i].ifindex, s[i].table) == k,
        |k: (u32, u32)| s[choose|i: int| 0 <= i < s.len() && (s[i].ifindex, s[i].table) == k].gateway,
    )
}

proof fn lemma_rules_map_at(s: Seq<RoutingRule>, i: int)
    requires
        rules_unique(s),
        0 <= i < s.len(),
    ensures
        rules_map(s).contains_key(s[i].address),
        rules_map(s)[s[i].address] == s[i].table,
{
    let a = s[i].address;
    assert(exists|j: int| 0 <= j < s.len() && s[j].address == a);
    let j = choose|j: int| 0 <= j < s.len() && s[j].address == a;
    assert(j == i);
}

proof fn lemma_routes_map_at(s: Seq<RouteEntry>, i: int)
    requires
        routes_unique(s),
        0 <= i < s.len(),
    ensures
        routes_map(s).contains_key((s[i].ifindex, s[i].table)),
        routes_map(s)[(s[i].ifindex, s[i].table)] == s[i].gateway,
{
    let k = (s[i].ifindex, s[i].table);
    assert(exists|j: int| 0 <= j < s.len() && (s[j].ifindex, s[j].table) == k);
    let j = choose|j: int| 0 <= j < s.len() && (s[j].ifindex, s[j].table) == k;
    assert(j == i);
}

proof fn lemma_rules_update(s: Seq<RoutingRule>, i: int, r: RoutingRule)
    requires
        rules_unique(s),
        0 <= i < s.len(),
        s[i].address == r.address,
    ensures
        rules_unique(s.update(i, r)),
        rules_map(s.update(i, r)) == rules_map(s).insert(r.address, r.table),
{
    let t = s.update(i, r);
    assert(rules_unique(t));
    assert forall|a: IpAddress| #[trigger]
        rules_map(t).contains_key(a) == rules_map(s).insert(r.address, r.table).contains_key(
            a,
        ) by {
        if rules_map(s).contains_key(a) {
            let j = choose|j: int| 0 <= j < s.len() && s[j].address == a;
            assert(t[j].address == a);
        }
        if rules_map(t).contains_key(a) {
            let j = choose|j: int| 0 <= j < t.len() && t[j].address == a;
            assert(s[j].address == a);
        }
    }
    assert forall|a: IpAddress| #[trigger] rules_map(t).contains_key(a) implies rules_map(t)[a]
        == rules_map(s).insert(r.address, r.table)[a] by {
        let j = choose|j: int| 0 <= j < t.len() && t[j].address == a;
        lemma_rules_map_at(t, j);
        if j != i {
            lemma_rules_map_at(s, j);
        }
    }
    assert(rules_map(t) =~= rules_map(s).insert(r.address, r.table));
}

proof fn lemma_rules_push(s: Seq<RoutingRule>, r: RoutingRule)
    requires
        rules_unique(s),
        forall|i: int| 0 <= i < s.len() ==> s[i].address != r.address,
    ensures
        rules_unique(s.push(r)),
        rules_map(s.push(r)) == rules_map(s).insert(r.address, r.table),
{
    let t = s.push(r);
    assert(rules_unique(t));
    assert forall|a: IpAddress| #[trigger]
        rules_map(t).contains_key(a) == rules_map(s).insert(r.address, r.table).contains_key(
            a,
        ) by {
        if rules_map(s).contains_key(a) {
            let j = choose|j: int| 0 <= j < s.len() && s[j].address == a;
            assert(t[j].address == a);
        }
        if a == r.address {
            assert(t[s.len() as int].address == a);
        }
        if rules_map(t).contains_key(a) && a != r.address {
            let j = choose|j: int| 0 <= j < t.len() && t[j].address == a;
            assert(s[j].address == a);
        }
    }
    assert forall|a: IpAddress| #[trigger] rules_map(t).contains_key(a) implies rules_map(t)[a]
        == rules_map(s).insert(r.address, r.table)[a] by {
        let j = choose|j: int| 0 <= j < t.len() && t[j].address == a;
        lemma_rules_map_at(t, j);
        if j < s.len() {
            lemma_rules_map_at(s, j);
        }
    }
    assert(rules_map(t) =~= rules_map(s).insert(r.address, r.table));
}

proof fn lemma_rules_remove(s: Seq<RoutingRule>, i: int)
    requires
        rules_unique(s),
        0 <= i < s.len(),
    ensures
        rules_unique(s.remove(i)),
        rules_map(s.remove(i)) == rules_map(s).remove(s[i].address),
{
    let t = s.remove(i);
    let a0 = s[i].address;
    assert forall|x: int, y: int|
        0 <= x < t.len() && 0 <= y < t.len() && x != y implies t[x].address != t[y].address by {
        let x2 = if x < i {
            x
        } else {
            x + 1
        };
        let y2 = if y < i {
            y
        } else {
            y + 1
        };
        assert(t[x] == s[x2] && t[y] == s[y2]);
    }
    assert forall|a: IpAddress| #[trigger]
        rules_map(t).contains_key(a) == rules_map(s).remove(a0).contains_key(a) by {
        if rules_map(s).contains_key(a) && a != a0 {
            let j = choose|j: int| 0 <= j < s.len() && s[j].address == a;
            if j < i {
                assert(t[j].address == a);
            } else {
                assert(t[j - 1].address == a);
            }
        }
        if rules_map(t).contains_key(a) {
            let j = choose|j: int| 0 <= j < t.len() && t[j].address == a;
            let j2 = if j < i {
                j
            } else {
                j + 1
            };
            assert(s[j2].address == a);
        }
    }
    assert forall|a: IpAddress| #[trigger] rules_map(t).contains_key(a) implies rules_map(t)[a]
        == rules_map(s).remove(a0)[a] by {
        let j = choose|j: int| 0 <= j < t.len() && t[j].address == a;
        lemma_rules_map_at(t, j);
        let j2 = if j < i {
            j
        } else {
            j + 1
        };
        lemma_rules_map_at(s, j2);
    }
    assert(rules_map(t) =~= rules_map(s).remove(a0));
}

proof fn lemma_routes_update(s: Seq<RouteEntry>, i: int, r: RouteEntry)
    requires
        routes_unique(s),
        0 <= i < s.len(),
        (s[i].ifindex, s[i].table) == (r.ifindex, r.table),
    ensures
        routes_unique(s.update(i, r)),
        routes_map(s.update(i, r)) == routes_map(s).insert((r.ifindex, r.table), r.gateway),
{
    let t = s.update(i, r);
    let k0 = (r.ifindex, r.table);
    assert(routes_unique(t));
    assert forall|k: (u32, u32)| #[trigger]
        routes_map(t).contains_key(k) == routes_map(s).insert(k0, r.gateway).contains_key(k) by {
        if routes_map(s).contains_key(k) {
            let j = choose|j: int| 0 <= j < s.len() && (s[j].ifindex, s[j].table) == k;
            assert((t[j].ifindex, t[j].table) == k);
        }
        if routes_map(t).contains_key(k) {
            let j = choose|j: int| 0 <= j < t.len() && (t[j].ifindex, t[j].table) == k;
            assert((s[j].ifindex, s[j].table) == k);
        }
    }
    assert forall|k: (u32, u32)| #[trigger] routes_map(t).contains_key(k) implies routes_map(t)[k]
        == routes_map(s).insert(k0, r.gateway)[k] by {
        let j = choose|j: int| 0 <= j < t.len() && (t[j].ifindex, t[j].table) == k;
        lemma_routes_map_at(t, j);
        if j != i {
            lemma_routes_map_at(s, j);
        }
    }
    assert(routes_map(t) =~= routes_map(s).insert(k0, r.gateway));
}

proof fn lemma_routes_push(s: Seq<RouteEntry>, r: RouteEntry)
    requires
        routes_unique(s),
        forall|i: int| 0 <= i < s.len() ==> (s[i].ifindex, s[i].table) != (r.ifindex, r.table),
    ensures
        routes_unique(s.push(r)),
        routes_map(s.push(r)) == routes_map(s).insert((r.ifindex, r.table), r.gateway),
{
    let t = s.push(r);
    let k0 = (r.ifindex, r.table);
    assert(routes_unique(t));
    assert forall|k: (u32, u32)| #[trigger]
        routes_map(t).contains_key(k) == routes_map(s).insert(k0, r.gateway).contains_key(k) by {
        if routes_map(s).contains_key(k) {
            let j = choose|j: int| 0 <= j < s.len() && (s[j].ifindex, s[j].table) == k;
            assert((t[j].ifindex, t[j].table) == k);
        }
        if k == k0 {
            assert((t[s.len() as int].ifindex, t[s.len() as int].table) == k);
        }
        if routes_map(t).contains_key(k) && k != k0 {
            let j = choose|j: int| 0 <= j < t.len() && (t[j].ifindex, t[j].table) == k;
            assert((s[j].ifindex, s[j].table) == k);
        }
    }
    assert forall|k: (u32, u32)| #[trigger] routes_map(t).contains_key(k) implies routes_map(t)[k]
        == routes_map(s).insert(k0, r.gateway)[k] by {
        let j = choose|j: int| 0 <= j < t.len() && (t[j].ifindex, t[j].table) == k;
        lemma_routes_map_at(t, j);
        if j < s.len() {
            lemma_routes_map_at(s, j);
        }
    }
    assert(routes_map(t) =~= routes_map(s).insert(k0, r.gateway));
}

proof fn lemma_routes_remove(s: Seq<RouteEntry>, i: int)
    requires
        routes_unique(s),
        0 <= i < s.len(),
    ensures
        routes_unique(s.remove(i)),
        routes_map(s.remove(i)) == routes_map(s).remove((s[i].ifindex, s[i].table)),
{
    let t = s.remove(i);
    let k0 = (s[i].ifindex, s[i].table);
    assert forall|x: int, y: int|
        0 <= x < t.len() && 0 <= y < t.len() && x != y implies (t[x].ifindex, t[x].table) != (
        t[y].ifindex,
        t[y].table,
    ) by {
        let x2 = if x < i {
            x
        } else {
            x + 1
        };
        let y2 = if y < i {
            y
        } else {
            y + 1
        };
        assert(t[x] == s[x2] && t[y] == s[y2]);
    }
    assert forall|k: (u32, u32)| #[trigger]
        routes_map(t).contains_key(k) == routes_map(s).remove(k0).contains_key(k) by {
        if routes_map(s).contains_key(k) && k != k0 {
            let j = choose|j: int| 0 <= j < s.len() && (s[j].ifindex, s[j].table) == k;
            if j < i {
                assert((t[j].ifindex, t[j].table) == k);
            } else {
                assert((t[j - 1].ifindex, t[j - 1].table) == k);
            }
        }
        if routes_map(t).contains_key(k) {
            let j = choose|j: int| 0 <= j < t.len() && (t[j].ifindex, t[j].table) == k;
            let j2 = if j < i {
                j
            } else {
                j + 1
            };
            assert((s[j2].ifindex, s[j2].table) == k);
        }
    }
    assert forall|k: (u32, u32)| #[trigger] routes_map(t).contains_key(k) implies routes_map(t)[k]
        == routes_map(s).remove(k0)[k] by {
        let j = choose|j: int| 0 <= j < t.len() && (t[j].ifindex, t[j].table) == k;
        lemma_routes_map_at(t, j);
        let j2 = if j < i {
            j
        } else {
            j + 1
        };
        lemma_routes_map_at(s, j2);
    }
    assert(routes_map(t) =~= routes_map(s).remove(k0));
}

fn find_rule(v: &Vec<RoutingRule>, a: IpAddress) -> (r: Option<usize>)
    ensures
        r matches Some(i) ==> i < v@.len() && v@[i as int].address == a,
        r is None ==> forall|i: int| 0 <= i < v@.len() ==> v@[i].address != a,
{
    let mut i: usize = 0;
    while i < v.len()
        invariant
            i <= v@.len(),
            forall|j: int| 0 <= j < i ==> v@[j].address != a,
        decreases v.len() - i,
    {
        if v[i].address == a {
            return Some(i);
        }
        i = i + 1;
    }
    None
}

fn find_route(v: &Vec<RouteEntry>, ifindex: u32, table: u32) -> (r: Option<usize>)
    ensures
        r matches Some(i) ==> i < v@.len() && (v@[i as int].ifindex, v@[i as int].table) == (
        ifindex,
        table,
        ),
        r is None ==> forall|i: int|
            0 <= i < v@.len() ==> (v@[i].ifindex, v@[i].table) != (ifindex, table),
{
    let mut i: usize = 0;
    while i < v.len()
        invariant
            i <= v@.len(),
            forall|j: int| 0 <= j < i ==> (v@[j].ifindex, v@[j].table) != (ifindex, table),
        decreases v.len() - i,
    {
        if v[i].ifindex == ifindex && v[i].table == table {
            return Some(i);
        }
        i = i + 1;
    }
    None
}

/// Sets the rule for `r.address`, replacing the one there was.
fn put_rule(v: &mut Vec<RoutingRule>, r: RoutingRule)
    requires
        rules_unique(old(v)@),
    ensures
        rules_unique(final(v)@),
        rules_map(final(v)@) == rules_map(old(v)@).insert(r.address, r.table),
        forall|i: int|
            0 <= i < final(v)@.len() ==> final(v)@[i] == r || old(v)@.contains(final(v)@[i]),
{
    match find_rule(v, r.address) {
        Some(i) => {
            proof {
                lemma_rules_update(v@, i as int, r);
            }
            let ghost pre = v@;
            v.set(i, r);
            assert forall|j: int| 0 <= j < v@.len() && v@[j] != r implies pre.contains(v@[j]) by {
                assert(v@[j] == pre[j]);
            }
        },
        None => {
            proof {
                lemma_rules_push(v@, r);
            }
            let ghost pre = v@;
            v.push(r);
            assert forall|j: int| 0 <= j < v@.len() && v@[j] != r implies pre.contains(v@[j]) by {
                assert(v@[j] == pre[j]);
            }
        },
    }
}

/// Removes the rule for `a`, if there is one.
fn drop_rule(v: &mut Vec<RoutingRule>, a: IpAddress)
    requires
        rules_unique(old(v)@),
    ensures
        rules_unique(final(v)@),
        rules_map(final(v)@) == rules_map(old(v)@).remove(a),
        forall|i: int| 0 <= i < final(v)@.len() ==> old(v)@.contains(#[trigger] final(v)@[i]),
{
    match find_rule(v, a) {
        Some(i) => {
            proof {
                lemma_rules_remove(v@, i as int);
            }
            let ghost pre = v@;
            v.remove(i);
            assert forall|j: int| 0 <= j < v@.len() implies pre.contains(#[trigger] v@[j]) by {
                if j < i {
                    assert(v@[j] == pre[j]);
                } else {
                    assert(v@[j] == pre[j + 1]);
                }
            }
        },
        None => {
            assert(rules_map(v@) =~= rules_map(v@).remove(a));
            assert forall|j: int| 0 <= j < v@.len() implies v@.contains(#[trigger] v@[j]) by {}
        },
    }
}

/// Sets the route for its interface and table.
fn put_route(v: &mut Vec<RouteEntry>, r: RouteEntry)
    requires
        routes_unique(old(v)@),
    ensures
        routes_unique(final(v)@),
        routes_map(final(v)@) == routes_map(old(v)@).insert((r.ifindex, r.table), r.gateway),
{
    match find_route(v, r.ifindex, r.table) {
        Some(i) => {
            proof {
                lemma_routes_update(v@, i as int, r);
            }
            v.set(i, r);
        },
        None => {
            proof {
                lemma_routes_push(v@, r);
            }
            v.push(r);
        },
    }
}

/// Removes the route for an interface and table, if there is one.
fn drop_route(v: &mut Vec<RouteEntry>, ifindex: u32, table: u32)
    requires
        routes_unique(old(v)@),
    ensures
        routes_unique(final(v)@),
        routes_map(final(v)@) == routes_map(old(v)@).remove((ifindex, table)),
{
    match find_route(v, ifindex, table) {
        Some(i) => {
            proof {
                lemma_routes_remove(v@, i as int);
            }
            v.remove(i);
        },
        None => {
            assert(routes_map(v@) =~= routes_map(v@).remove((ifindex, table)));
        },
    }
}

/// The addresses with a rule in `table`, except those in `keep`.
fn addresses_in_table(v: &Vec<RoutingRule>, table: u32, keep: &Vec<IpAddress>) -> (r: Vec<
    IpAddress,
>)
    requires
        rules_unique(v@),
    ensures
        forall|a: IpAddress|
            r@.contains(a) <==> (rules_map(v@).contains_key(a) && rules_map(v@)[a] == table
                && !keep@.contains(a)),
{
    let mut r: Vec<IpAddress> = Vec::new();
    let mut i: usize = 0;
    while i < v.len()
        invariant
            rules_unique(v@),
            i <= v@.len(),
            forall|a: IpAddress|
                r@.contains(a) <==> exists|j: int|
                    0 <= j < i && v@[j].address == a && v@[j].table == table && !keep@.contains(a),
        decreases v.len() - i,
    {
        let e = v[i];
        let mut kept = false;
        let mut k: usize = 0;
        while k < keep.len()
            invariant
                k <= keep@.len(),
                kept <==> exists|m: int| 0 <= m < k && keep@[m] == e.address,
            decreases keep.len() - k,
        {
            if keep[k] == e.address {
                kept = true;
            }
            k = k + 1;
        }
        let ghost pre = r@;
        if e.table == table && !kept {
            r.push(e.address);
        }
        assert forall|a: IpAddress|
            r@.contains(a) <==> exists|j: int|
                0 <= j < i + 1 && v@[j].address == a && v@[j].table == table
                    && !keep@.contains(a) by {
            if r@.contains(a) && !pre.contains(a) {
                assert(v@[i as int].address == a);
            }
            if exists|j: int|
                0 <= j < i + 1 && v@[j].address == a && v@[j].table == table
                    && !keep@.contains(a) {
                let j = choose|j: int|
                    0 <= j < i + 1 && v@[j].address == a && v@[j].table == table
                        && !keep@.contains(a);
                if j == i {
                    assert(r@.last() == a);
                    assert(r@.contains(a));
                } else {
                    assert(pre.contains(a));
                    let m = choose|m: int| 0 <= m < pre.len() && pre[m] == a;
                    assert(r@[m] == a);
                }
            }
            if pre.contains(a) {
                let m = choose|m: int| 0 <= m < pre.len() && pre[m] == a;
                assert(r@[m] == a);
            }
        }
        i = i + 1;
    }
    assert forall|a: IpAddress|
        (rules_map(v@).contains_key(a) && rules_map(v@)[a] == table
            && !keep@.contains(a)) implies #[trigger] r@.contains(a) by {
        if rules_map(v@).contains_key(a) {
            let j = choose|j: int| 0 <= j < v@.len() && v@[j].address == a;
            lemma_rules_map_at(v@, j);
        }
    }
    assert forall|a: IpAddress| #[trigger] r@.contains(a) implies (rules_map(v@).contains_key(a)
        && rules_map(v@)[a] == table && !keep@.contains(a)) by {
        {
            let j = choose|j: int|
                0 <= j < v@.len() && v@[j].address == a && v@[j].table == table
                    && !keep@.contains(a);
            lemma_rules_map_at(v@, j);
        }
    }
    r
}

/// Keeps the routes of other interfaces.
fn routes_not_on(v: &Vec<RouteEntry>, ifindex: u32) -> (r: Vec<RouteEntry>)
    requires
        routes_unique(v@),
    ensures
        routes_unique(r@),
        routes_map(r@) == routes_map(v@).restrict(Set::new(|k: (u32, u32)| k.0 != ifindex)),
{
    let mut r: Vec<RouteEntry> = Vec::new();
    let ghost mut src: Seq<int> = Seq::empty();
    let mut i: usize = 0;
    while i < v.len()
        invariant
            routes_unique(v@),
            routes_unique(r@),
            i <= v@.len(),
            src.len() == r@.len(),
            forall|j: int|
                0 <= j < r@.len() ==> 0 <= #[trigger] src[j] < i && r@[j] == v@[src[j]]
                    && v@[src[j]].ifindex != ifindex,
            forall|m: int|
                0 <= m < i && (#[trigger] v@[m]).ifindex != ifindex ==> exists|j: int|
                    0 <= j < r@.len() && r@[j] == v@[m],
        decreases v.len() - i,
    {
        let e = v[i];
        if e.ifindex != ifindex {
            let ghost pre = r@;
            let ghost pre_src = src;
            assert forall|j: int| 0 <= j < pre.len() implies (pre[j].ifindex, pre[j].table) != (
            e.ifindex,
            e.table,
            ) by {
                assert(src[j] != i);
            }
            r.push(e);
            proof {
                src = src.push(i as int);
            }
            assert forall|j: int| 0 <= j < r@.len() implies 0 <= #[trigger] src[j] < i + 1 && r@[j]
                == v@[src[j]] && v@[src[j]].ifindex != ifindex by {
                if j < pre.len() {
                    assert(src[j] == pre_src[j]);
                    assert(r@[j] == pre[j]);
                }
            }
            assert forall|m: int| 0 <= m < i + 1 && (#[trigger] v@[m]).ifindex != ifindex implies exists|j: int|
                0 <= j < r@.len() && r@[j] == v@[m] by {
                if m < i {
                    let j = choose|j: int| 0 <= j < pre.len() && pre[j] == v@[m];
                    assert(r@[j] == v@[m]);
                } else {
                    assert(r@[pre.len() as int] == v@[m]);
                }
            }
        }
        i = i + 1;
    }
    let ghost want = routes_map(v@).restrict(Set::new(|k: (u32, u32)| k.0 != ifindex));
    assert forall|k: (u32, u32)| #[trigger] routes_map(r@).contains_key(k) == want.contains_key(k) by {
        if routes_map(r@).contains_key(k) {
            let j = choose|j: int| 0 <= j < r@.len() && (r@[j].ifindex, r@[j].table) == k;
            lemma_routes_map_at(v@, src[j]);
        }
        if want.contains_key(k) {
            let m = choose|m: int| 0 <= m < v@.len() && (v@[m].ifindex, v@[m].table) == k;
            let j = choose|j: int| 0 <= j < r@.len() && r@[j] == v@[m];
            lemma_routes_map_at(r@, j);
        }
    }
    assert forall|k: (u32, u32)| #[trigger] routes_map(r@).contains_key(k) implies routes_map(r@)[k]
        == want[k] by {
        let j = choose|j: int| 0 <= j < r@.len() && (r@[j].ifindex, r@[j].table) == k;
        lemma_routes_map_at(v@, src[j]);
        lemma_routes_map_at(r@, j);
    }
    assert(routes_map(r@) =~= want);
    r
}

/// The dedicated table of an interface, as an integer.
pub open spec fn table_of(ifindex: u32) -> int {
    200 + ifindex
}

/// Network state: links by name and by index, default routes of the
/// dedicated tables, and the policy rules installed for each address.
pub struct NetworkState {
    pub links_by_name: StringHashMap<u32>,
    pub links_by_index: HashMapWithView<u32, String>,
    pub routes: Vec<RouteEntry>,
    pub routing_rules_from: Vec<RoutingRule>,
    pub routing_rules_to: Vec<RoutingRule>,
}

/// The link maps of `b` are those of `a`.
proof fn lemma_links_frame(a: &NetworkState, b: &NetworkState)
    requires
        a.links_inverse(),
        b.links_by_name@ == a.links_by_name@,
        b.links_by_index@ == a.links_by_index@,
    ensures
        b.links_inverse(),
        b.by_name() == a.by_name(),
        b.by_index() == a.by_index(),
{
    assert(b.by_index() =~= a.by_index());
    assert forall|n: Seq<char>| #[trigger] b.by_name().contains_key(n) implies b.by_index().contains_key(
        b.by_name()[n],
    ) && b.by_index()[b.by_name()[n]] == n by {
        assert(a.by_name().contains_key(n));
    }
    assert forall|i: u32| #[trigger] b.by_index().contains_key(i) implies b.by_name().contains_key(
        b.by_index()[i],
    ) && b.by_name()[b.by_index()[i]] == i by {
        assert(a.by_index().contains_key(i));
    }
}

impl NetworkState {
    /// Interface index by name.
    pub open spec fn by_name(&self) -> Map<Seq<char>, u32> {
        self.links_by_name@
    }

    /// Interface name by index.
    pub open spec fn by_index(&self) -> Map<u32, Seq<char>> {
        self.links_by_index@.map_values(|s: String| s@)
    }

    /// Gateway of the route of each (interface, table).
    pub open spec fn route_map(&self) -> Map<(u32, u32), Option<IpAddress>> {
        routes_map(self.routes@)
    }

    /// Table of the `from` rule of each address.
    pub open spec fn from_map(&self) -> Map<IpAddress, u32> {
        rules_map(self.routing_rules_from@)
    }

    /// Table of the `to` rule of each address.
    pub open spec fn to_map(&self) -> Map<IpAddress, u32> {
        rules_map(self.routing_rules_to@)
    }

    /// The two link maps are inverse to each other.
    pub open spec fn links_inverse(&self) -> bool {
        &&& forall|n: Seq<char>| #[trigger]
            self.by_name().contains_key(n) ==> self.by_index().contains_key(self.by_name()[n])
                && self.by_index()[self.by_name()[n]] == n
        &&& forall|i: u32| #[trigger]
            self.by_index().contains_key(i) ==> self.by_name().contains_key(self.by_index()[i])
                && self.by_name()[self.by_index()[i]] == i
    }

    pub open spec fn wf(&self) -> bool {
        &&& self.links_inverse()
        &&& routes_unique(self.routes@)
        &&& rules_unique(self.routing_rules_from@)
        &&& rules_unique(self.routing_rules_to@)
        &&& forall|i: int|
            0 <= i < self.routing_rules_from@.len() ==> (#[trigger] self.routing_rules_from@[i]).is_from
        &&& forall|i: int|
            0 <= i < self.routing_rules_to@.len() ==> !(#[trigger] self.routing_rules_to@[i]).is_from
    }

    /// An empty state.
    pub fn new() -> (r: NetworkState)
        ensures
            r.wf(),
            r.by_name() == Map::<Seq<char>, u32>::empty(),
            r.by_index() == Map::<u32, Seq<char>>::empty(),
            r.route_map() == Map::<(u32, u32), Option<IpAddress>>::empty(),
            r.from_map() == Map::<IpAddress, u32>::empty(),
            r.to_map() == Map::<IpAddress, u32>::empty(),
    {
        let r = NetworkState {
            links_by_name: StringHashMap::new(),
            links_by_index: HashMapWithView::new(),
            routes: Vec::new(),
            routing_rules_from: Vec::new(),
            routing_rules_to: Vec::new(),
        };
        assert(r.by_index() =~= Map::<u32, Seq<char>>::empty());
        assert(r.route_map() =~= Map::<(u32, u32), Option<IpAddress>>::empty());
        assert(r.from_map() =~= Map::<IpAddress, u32>::empty());
        assert(r.to_map() =~= Map::<IpAddress, u32>::empty());
        r
    }

    /// Adds a link or renames it. A name the link had before, and a link
    /// that had this name before, are forgotten, so that the two maps stay
    /// inverse.
    pub fn add_link(&mut self, name: String, index: u32)
        requires
            old(self).wf(),
        ensures
            final(self).wf(),
            final(self).by_name() == (if old(self).by_index().contains_key(index) {
                old(self).by_name().remove(old(self).by_index()[index])
            } else {
                old(self).by_name()
            }).insert(name@, index),
            final(self).by_index() == (if old(self).by_name().contains_key(name@) {
                old(self).by_index().remove(old(self).by_name()[name@])
            } else {
                old(self).by_index()
            }).insert(index, name@),
            final(self).route_map() == old(self).route_map(),
            final(self).from_map() == old(self).from_map(),
            final(self).to_map() == old(self).to_map(),
    {
        let ghost n0 = self.by_name();
        let ghost i0 = self.by_index();
        match self.links_by_index.get(&index) {
            Some(old_name) => {
                let stale = old_name.clone();
                self.links_by_name.remove(stale.as_str());
            },
            None => {},
        }
        match self.links_by_name.get(name.as_str()) {
            Some(old_index) => {
                let stale = *old_index;
                self.links_by_index.remove(&stale);
            },
            None => {},
        }
        let key = name.clone();
        self.links_by_name.insert(key, index);
        self.links_by_index.insert(index, name);
        let ghost n1 = (if i0.contains_key(index) {
            n0.remove(i0[index])
        } else {
            n0
        }).insert(name@, index);
        let ghost i1 = (if n0.contains_key(name@) {
            i0.remove(n0[name@])
        } else {
            i0
        }).insert(index, name@);
        assert(self.by_name() =~= n1);
        assert(self.by_index() =~= i1);
    }

    /// Removes a link, the routes of its interface and the rules that
    /// look up its table.
    pub fn remove_link(&mut self, index: u32)
        requires
            old(self).wf(),
        ensures
            final(self).wf(),
            final(self).by_index() == old(self).by_index().remove(index),
            final(self).by_name() == (if old(self).by_index().contains_key(index) {
                old(self).by_name().remove(old(self).by_index()[index])
            } else {
                old(self).by_name()
            }),
            final(self).route_map() == old(self).route_map().restrict(
                Set::new(|k: (u32, u32)| k.0 != index),
            ),
            final(self).from_map() == old(self).from_map().restrict(
                Set::new(|a: IpAddress| old(self).from_map()[a] != table_of(index)),
            ),
            final(self).to_map() == old(self).to_map().restrict(
                Set::new(|a: IpAddress| old(self).to_map()[a] != table_of(index)),
            ),
    {
        let ghost n0 = self.by_name();
        let ghost i0 = self.by_index();
        let ghost f0 = self.from_map();
        let ghost t0 = self.to_map();
        match self.links_by_index.remove(&index) {
            Some(name) => {
                self.links_by_name.remove(name.as_str());
            },
            None => {},
        }
        assert(self.by_index() =~= i0.remove(index));
        assert forall|n: Seq<char>| #[trigger] self.by_name().contains_key(n) implies self.by_index().contains_key(
            self.by_name()[n],
        ) && self.by_index()[self.by_name()[n]] == n by {
            assert(n0.contains_key(n));
            assert(i0.contains_key(n0[n]) && i0[n0[n]] == n);
        }
        assert forall|k: u32| #[trigger] self.by_index().contains_key(k) implies self.by_name().contains_key(
            self.by_index()[k],
        ) && self.by_name()[self.by_index()[k]] == k by {
            assert(i0.contains_key(k));
            assert(n0.contains_key(i0[k]) && n0[i0[k]] == k);
        }
        self.routes = routes_not_on(&self.routes, index);
        if index <= u32::MAX - 200 {
            let table = index + 200;
            let none: Vec<IpAddress> = Vec::new();
            let from_list = addresses_in_table(&self.routing_rules_from, table, &none);
            let to_list = addresses_in_table(&self.routing_rules_to, table, &none);
            drop_rules(&mut self.routing_rules_from, &from_list);
            drop_rules(&mut self.routing_rules_to, &to_list);
            assert(self.from_map() =~= f0.restrict(
                Set::new(|a: IpAddress| f0[a] != table_of(index)),
            ));
            assert(self.to_map() =~= t0.restrict(Set::new(|a: IpAddress| t0[a] != table_of(index))));
        } else {
            assert(f0 =~= f0.restrict(Set::new(|a: IpAddress| f0[a] != table_of(index))));
            assert(t0 =~= t0.restrict(Set::new(|a: IpAddress| t0[a] != table_of(index))));
        }
    }

    /// The name of a link.
    pub fn get_link_name(&self, index: u32) -> (r: Option<&String>)
        ensures
            match r {
                Some(n) => self.by_index().contains_key(index) && n@ == self.by_index()[index],
                None => !self.by_index().contains_key(index),
            },
    {
        self.links_by_index.get(&index)
    }

    /// The index of a link.
    pub fn get_link_index(&self, name: &str) -> (r: Option<u32>)
        ensures
            match r {
                Some(i) => self.by_name().contains_key(name@) && i == self.by_name()[name@],
                None => !self.by_name().contains_key(name@),
            },
    {
        match self.links_by_name.get(name) {
            Some(i) => Some(*i),
            None => None,
        }
    }

    /// Sets the route of an interface in a table.
    pub fn add_route(&mut self, ifindex: u32, table: u32, gateway: Option<IpAddress>)
        requires
            old(self).wf(),
        ensures
            final(self).wf(),
            final(self).route_map() == old(self).route_map().insert((ifindex, table), gateway),
            final(self).by_name() == old(self).by_name(),
            final(self).by_index() == old(self).by_index(),
            final(self).from_map() == old(self).from_map(),
            final(self).to_map() == old(self).to_map(),
    {
        let ghost s0 = *self;
        put_route(&mut self.routes, RouteEntry { ifindex, gateway, table });
        proof {
            lemma_links_frame(&s0, self);
        }
    }

    /// Removes the route of an interface in a table.
    pub fn remove_route(&mut self, ifindex: u32, table: u32)
        requires
            old(self).wf(),
        ensures
            final(self).wf(),
            final(self).route_map() == old(self).route_map().remove((ifindex, table)),
            final(self).by_name() == old(self).by_name(),
            final(self).by_index() == old(self).by_index(),
            final(self).from_map() == old(self).from_map(),
            final(self).to_map() == old(self).to_map(),
    {
        let ghost s0 = *self;
        drop_route(&mut self.routes, ifindex, table);
        proof {
            lemma_links_frame(&s0, self);
        }
    }

    /// Whether the route of an interface in a table is recorded.
    pub fn has_route(&self, ifindex: u32, table: u32) -> (r: bool)
        requires
            self.wf(),
        ensures
            r == self.route_map().contains_key((ifindex, table)),
    {
        match find_route(&self.routes, ifindex, table) {
            Some(i) => {
                proof {
                    lemma_routes_map_at(self.routes@, i as int);
                }
                true
            },
            None => false,
        }
    }

    /// The gateway of the route of an interface in a table, if recorded.
    pub fn route_gateway(&self, ifindex: u32, table: u32) -> (r: Option<Option<IpAddress>>)
        requires
            self.wf(),
        ensures
            r == (if self.route_map().contains_key((ifindex, table)) {
                Some(self.route_map()[(ifindex, table)])
            } else {
                None::<Option<IpAddress>>
            }),
    {
        match find_route(&self.routes, ifindex, table) {
            Some(i) => {
                proof {
                    lemma_routes_map_at(self.routes@, i as int);
                }
                Some(self.routes[i].gateway)
            },
            None => None,
        }
    }

    /// Sets the `from` rule of an address.
    pub fn add_routing_rule_from(&mut self, address: IpAddress, table: u32)
        requires
            old(self).wf(),
        ensures
            final(self).wf(),
            final(self).from_map() == old(self).from_map().insert(address, table),
            final(self).to_map() == old(self).to_map(),
            final(self).route_map() == old(self).route_map(),
            final(self).by_name() == old(self).by_name(),
            final(self).by_index() == old(self).by_index(),
    {
        let ghost s0 = *self;
        let ghost pre = self.routing_rules_from@;
        put_rule(&mut self.routing_rules_from, RoutingRule { address, table, is_from: true });
        assert forall|i: int| 0 <= i < self.routing_rules_from@.len() implies (
        #[trigger] self.routing_rules_from@[i]).is_from by {
            if self.routing_rules_from@[i] != (RoutingRule { address, table, is_from: true }) {
                let j = choose|j: int| 0 <= j < pre.len() && pre[j] == self.routing_rules_from@[i];
            }
        }
        proof {
            lemma_links_frame(&s0, self);
        }
    }

    /// Sets the `to` rule of an address.
    pub fn add_routing_rule_to(&mut self, address: IpAddress, table: u32)
        requires
            old(self).wf(),
        ensures
            final(self).wf(),
            final(self).to_map() == old(self).to_map().insert(address, table),
            final(self).from_map() == old(self).from_map(),
            final(self).route_map() == old(self).route_map(),
            final(self).by_name() == old(self).by_name(),
            final(self).by_index() == old(self).by_index(),
    {
        let ghost s0 = *self;
        let ghost pre = self.routing_rules_to@;
        put_rule(&mut self.routing_rules_to, RoutingRule { address, table, is_from: false });
        assert forall|i: int| 0 <= i < self.routing_rules_to@.len() implies !(
        #[trigger] self.routing_rules_to@[i]).is_from by {
            if self.routing_rules_to@[i] != (RoutingRule { address, table, is_from: false }) {
                let j = choose|j: int| 0 <= j < pre.len() && pre[j] == self.routing_rules_to@[i];
            }
        }
        proof {
            lemma_links_frame(&s0, self);
        }
    }

    /// Removes both rules of an address.
    pub fn remove_routing_rules(&mut self, address: &IpAddress)
        requires
            old(self).wf(),
        ensures
            final(self).wf(),
            final(self).from_map() == old(self).from_map().remove(*address),
            final(self).to_map() == old(self).to_map().remove(*address),
            final(self).route_map() == old(self).route_map(),
            final(self).by_name() == old(self).by_name(),
            final(self).by_index() == old(self).by_index(),
    {
        let ghost s0 = *self;
        let ghost pf = self.routing_rules_from@;
        let ghost pt = self.routing_rules_to@;
        drop_rule(&mut self.routing_rules_from, *address);
        drop_rule(&mut self.routing_rules_to, *address);
        assert forall|i: int| 0 <= i < self.routing_rules_from@.len() implies (
        #[trigger] self.routing_rules_from@[i]).is_from by {
            let j = choose|j: int| 0 <= j < pf.len() && pf[j] == self.routing_rules_from@[i];
        }
        assert forall|i: int| 0 <= i < self.routing_rules_to@.len() implies !(
        #[trigger] self.routing_rules_to@[i]).is_from by {
            let j = choose|j: int| 0 <= j < pt.len() && pt[j] == self.routing_rules_to@[i];
        }
        proof {
            lemma_links_frame(&s0, self);
        }
    }

    /// Removes the rules of an address that look up `table`; a rule of the
    /// address in another table stays.
    pub fn remove_routing_rules_in(&mut self, address: &IpAddress, table: u32)
        requires
            old(self).wf(),
        ensures
            final(self).wf(),
            final(self).from_map() == (if old(self).from_map().contains_key(*address)
                && old(self).from_map()[*address] == table {
                old(self).from_map().remove(*address)
            } else {
                old(self).from_map()
            }),
            final(self).to_map() == (if old(self).to_map().contains_key(*address)
                && old(self).to_map()[*address] == table {
                old(self).to_map().remove(*address)
            } else {
                old(self).to_map()
            }),
            final(self).route_map() == old(self).route_map(),
            final(self).by_name() == old(self).by_name(),
            final(self).by_index() == old(self).by_index(),
    {
        let ghost s0 = *self;
        let ghost pf = self.routing_rules_from@;
        let ghost pt = self.routing_rules_to@;
        let in_from = self.rule_from_table(address) == Some(table);
        let in_to = self.rule_to_table(address) == Some(table);
        if in_from {
            drop_rule(&mut self.routing_rules_from, *address);
        }
        if in_to {
            drop_rule(&mut self.routing_rules_to, *address);
        }
        assert forall|i: int| 0 <= i < self.routing_rules_from@.len() implies (
        #[trigger] self.routing_rules_from@[i]).is_from by {
            if self.routing_rules_from@ != pf {
                let j = choose|j: int| 0 <= j < pf.len() && pf[j] == self.routing_rules_from@[i];
            }
        }
        assert forall|i: int| 0 <= i < self.routing_rules_to@.len() implies !(
        #[trigger] self.routing_rules_to@[i]).is_from by {
            if self.routing_rules_to@ != pt {
                let j = choose|j: int| 0 <= j < pt.len() && pt[j] == self.routing_rules_to@[i];
            }
        }
        proof {
            lemma_links_frame(&s0, self);
        }
    }

    /// Whether an address has a `from` or a `to` rule.
    pub fn has_routing_rules(&self, address: &IpAddress) -> (r: bool)
        requires
            self.wf(),
        ensures
            r == (self.from_map().contains_key(*address) || self.to_map().contains_key(*address)),
    {
        let f = find_rule(&self.routing_rules_from, *address);
        let t = find_rule(&self.routing_rules_to, *address);
        proof {
            if let Some(i) = f {
                lemma_rules_map_at(self.routing_rules_from@, i as int);
            }
            if let Some(i) = t {
                lemma_rules_map_at(self.routing_rules_to@, i as int);
            }
        }
        f.is_some() || t.is_some()
    }

    /// The addresses whose `from` or `to` rule looks up `table`, except
    /// those in `keep`.
    pub fn stale_addresses(&self, table: u32, keep: &Vec<IpAddress>) -> (r: Vec<IpAddress>)
        requires
            self.wf(),
        ensures
            forall|a: IpAddress|
                r@.contains(a) <==> (((self.from_map().contains_key(a) && self.from_map()[a]
                    == table) || (self.to_map().contains_key(a) && self.to_map()[a] == table))
                    && !keep@.contains(a)),
    {
        let f = addresses_in_table(&self.routing_rules_from, table, keep);
        let t = addresses_in_table(&self.routing_rules_to, table, keep);
        let ghost f0 = f@;
        let mut r = f;
        let mut i: usize = 0;
        while i < t.len()
            invariant
                i <= t@.len(),
                forall|a: IpAddress|
                    #[trigger] r@.contains(a) <==> (f0.contains(a) || t@.subrange(
                        0,
                        i as int,
                    ).contains(a)),
            decreases t.len() - i,
        {
            let a = t[i];
            let mut seen = false;
            let mut k: usize = 0;
            while k < r.len()
                invariant
                    k <= r@.len(),
                    seen <==> exists|m: int| 0 <= m < k && r@[m] == a,
                decreases r.len() - k,
            {
                if r[k] == a {
                    seen = true;
                }
                k = k + 1;
            }
            let ghost pre = r@;
            if !seen {
                r.push(a);
            }
            proof {
                crate::text::lemma_prefix_contains(t@, i as int);
                crate::text::lemma_push_contains(pre, a);
                if seen {
                    let m = choose|m: int| 0 <= m < pre.len() && pre[m] == a;
                    assert(pre.contains(a));
                }
            }
            i = i + 1;
        }
        assert(t@.subrange(0, t@.len() as int) =~= t@);
        assert forall|a: IpAddress|
            r@.contains(a) <==> (((self.from_map().contains_key(a) && self.from_map()[a] == table)
                || (self.to_map().contains_key(a) && self.to_map()[a] == table)) && !keep@.contains(
                a,
            )) by {
            assert(r@.contains(a) <==> (f0.contains(a) || t@.subrange(0, t@.len() as int).contains(a)));
            assert(f0.contains(a) <==> (self.from_map().contains_key(a) && self.from_map()[a]
                == table && !keep@.contains(a)));
            assert(t@.contains(a) <==> (self.to_map().contains_key(a) && self.to_map()[a] == table
                && !keep@.contains(a)));
        }
        r
    }

    /// The table of the `from` rule of an address, if it has one.
    pub fn rule_from_table(&self, address: &IpAddress) -> (r: Option<u32>)
        requires
            self.wf(),
        ensures
            r == (if self.from_map().contains_key(*address) {
                Some(self.from_map()[*address])
            } else {
                None::<u32>
            }),
    {
        match find_rule(&self.routing_rules_from, *address) {
            Some(i) => {
                proof {
                    lemma_rules_map_at(self.routing_rules_from@, i as int);
                }
                Some(self.routing_rules_from[i].table)
            },
            None => None,
        }
    }

    /// The table of the `to` rule of an address, if it has one.
    pub fn rule_to_table(&self, address: &IpAddress) -> (r: Option<u32>)
        requires
            self.wf(),
        ensures
            r == (if self.to_map().contains_key(*address) {
                Some(self.to_map()[*address])
            } else {
                None::<u32>
            }),
    {
        match find_rule(&self.routing_rules_to, *address) {
            Some(i) => {
                proof {
                    lemma_rules_map_at(self.routing_rules_to@, i as int);
                }
                Some(self.routing_rules_to[i].table)
            },
            None => None,
        }
    }
}

/// In every well-formed state, and so after every operation of the store,
/// the link maps are inverse to each other: a name maps to an index exactly
/// when that index maps to the name.
pub proof fn link_maps_inverse(s: &NetworkState)
    requires
        s.wf(),
    ensures
        forall|n: Seq<char>, i: u32|
            (s.by_name().contains_key(n) && s.by_name()[n] == i) <==> (s.by_index().contains_key(i)
                && s.by_index()[i] == n),
{
    assert forall|n: Seq<char>, i: u32|
        (s.by_name().contains_key(n) && s.by_name()[n] == i) <==> (s.by_index().contains_key(i)
            && s.by_index()[i] == n) by {
        if s.by_name().contains_key(n) {
            assert(s.by_index().contains_key(s.by_name()[n]));
        }
        if s.by_index().contains_key(i) {
            assert(s.by_name().contains_key(s.by_index()[i]));
        }
    }
}

/// Removes the rules of every address of a list.
fn drop_rules(v: &mut Vec<RoutingRule>, list: &Vec<IpAddress>)
    requires
        rules_unique(old(v)@),
    ensures
        rules_unique(final(v)@),
        rules_map(final(v)@) == rules_map(old(v)@).remove_keys(list@.to_set()),
        forall|i: int| 0 <= i < final(v)@.len() ==> old(v)@.contains(#[trigger] final(v)@[i]),
{
    let ghost v0 = v@;
    let mut i: usize = 0;
    while i < list.len()
        invariant
            rules_unique(v@),
            i <= list@.len(),
            rules_map(v@) == rules_map(v0).remove_keys(list@.subrange(0, i as int).to_set()),
            forall|j: int| 0 <= j < v@.len() ==> v0.contains(#[trigger] v@[j]),
        decreases list.len() - i,
    {
        let ghost pre = v@;
        drop_rule(v, list[i]);
        assert forall|j: int| 0 <= j < v@.len() implies v0.contains(#[trigger] v@[j]) by {
            assert(pre.contains(v@[j]));
            let m = choose|m: int| 0 <= m < pre.len() && pre[m] == v@[j];
        }
        let ghost s0 = list@.subrange(0, i as int);
        let ghost s1 = list@.subrange(0, i + 1);
        assert(s1 =~= s0.push(list@[i as int]));
        assert(s1.to_set() =~= s0.to_set().insert(list@[i as int])) by {
            assert forall|a: IpAddress| s1.to_set().contains(a) == s0.to_set().insert(
                list@[i as int],
            ).contains(a) by {
                if s1.contains(a) {
                    let m = choose|m: int| 0 <= m < s1.len() && #[trigger] s1[m] == a;
                    if m < i {
                        assert(s0[m] == a);
                    }
                }
                if s0.contains(a) {
                    let m = choose|m: int| 0 <= m < s0.len() && #[trigger] s0[m] == a;
                    assert(s1[m] == a);
                }
                if a == list@[i as int] {
                    assert(s1[i as int] == a);
                }
            }
        }
        assert(rules_map(v@) =~= rules_map(v0).remove_keys(
            list@.subrange(0, i + 1).to_set(),
        ));
        i = i + 1;
    }
    assert(list@.subrange(0, list@.len() as int) =~= list@);
}

} // verus!
