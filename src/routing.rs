//! The routing policy engine: each monitored interface gets a dedicated
//! table holding a default route via its gateway, and each of its addresses
//! a `from` and a `to` rule that look up that table.

use vstd::prelude::*;
use crate::ip::IpAddress;
use crate::state::{table_of, NetworkState};
use crate::text::{lemma_prefix_contains, lemma_push_contains};

verus! {

/// Dedicated tables are numbered from here on.
pub const ROUTE_TABLE_BASE: u32 = 200;

/// The dedicated table of an interface.
pub fn calculate_table_id(ifindex: u32) -> (r: u32)
    requires
        ifindex <= u32::MAX - ROUTE_TABLE_BASE,
    ensures
        r == table_of(ifindex),
{
    ROUTE_TABLE_BASE + ifindex
}

/// A change to make to the kernel's routes and rules.
#[derive(Clone, Copy, Debug, PartialEq, Eq, Structural)]
pub enum RouteAction {
    /// Default route via `gateway` out of `ifindex`, in `table`.
    AddRoute { ifindex: u32, gateway: IpAddress, table: u32 },
    /// Removes the routes of `ifindex` in `table`.
    RemoveRoute { ifindex: u32, table: u32 },
    /// `from address/hostmask lookup table`.
    AddRuleFrom { address: IpAddress, table: u32 },
    /// `to address/hostmask lookup table`.
    AddRuleTo { address: IpAddress, table: u32 },
    /// Removes the rules of `address` in `table`.
    RemoveRules { address: IpAddress, table: u32 },
}

/// What the engine tracks of the state: routes by (interface, table), and
/// the table of the `from` and `to` rule of each address.
pub struct PolicyView {
    pub routes: Map<(u32, u32), Option<IpAddress>>,
    pub from: Map<IpAddress, u32>,
    pub to: Map<IpAddress, u32>,
}

impl NetworkState {
    pub open spec fn policy(&self) -> PolicyView {
        PolicyView { routes: self.route_map(), from: self.from_map(), to: self.to_map() }
    }
}

/// Addresses with a rule in `table` that are no longer wanted.
pub open spec fn stale_set(v: PolicyView, table: u32, want: Seq<IpAddress>) -> Set<IpAddress> {
    Set::new(
        |a: IpAddress|
            ((v.from.contains_key(a) && v.from[a] == table) || (v.to.contains_key(a) && v.to[a]
                == table)) && !want.contains(a),
    )
}

/// The addresses of `s` whose entry in `m` is `table`.
pub open spec fn in_table(m: Map<IpAddress, u32>, table: u32, s: Set<IpAddress>) -> Set<IpAddress> {
    Set::new(|a: IpAddress| s.contains(a) && m.contains_key(a) && m[a] == table)
}

/// Each wanted address mapped to `table`.
pub open spec fn want_map(want: Seq<IpAddress>, table: u32) -> Map<IpAddress, u32> {
    Map::new(|a: IpAddress| want.contains(a), |a: IpAddress| table)
}

/// Both rules of `a` look up `table`.
pub open spec fn installed(v: PolicyView, a: IpAddress, table: u32) -> bool {
    v.from.contains_key(a) && v.from[a] == table && v.to.contains_key(a) && v.to[a] == table
}

/// No gateway was found while a wanted address still needs its rules: the
/// reconcile stops there and changes nothing.
pub open spec fn gateway_unknown(
    v: PolicyView,
    table: u32,
    want: Seq<IpAddress>,
    gateway: Option<IpAddress>,
) -> bool {
    gateway is None && exists|a: IpAddress| #[trigger] want.contains(a) && !installed(v, a, table)
}

/// The main and local tables, which are never written.
pub open spec fn reserved_table(table: u32) -> bool {
    table == 254 || table == 255
}

/// The reconcile changes nothing: the interface's table would be the main
/// or local table, or its gateway is unknown while needed.
pub open spec fn reconcile_halts(
    v: PolicyView,
    table: u32,
    want: Seq<IpAddress>,
    gateway: Option<IpAddress>,
) -> bool {
    reserved_table(table) || gateway_unknown(v, table, want, gateway)
}

/// The state after reconciling interface `ifindex`, whose addresses are
/// `want` and whose gateway, if one was found, is `gateway`. When a wanted
/// address needs rules and no gateway is known, nothing changes. Otherwise
/// rules of addresses that left are removed; with no address left the route
/// goes too; with addresses and a gateway, the route and both rules of each
/// address are set.
pub open spec fn reconcile_spec(
    v: PolicyView,
    ifindex: u32,
    want: Seq<IpAddress>,
    gateway: Option<IpAddress>,
) -> PolicyView {
    let table = table_of(ifindex) as u32;
    let stale = stale_set(v, table, want);
    let from1 = v.from.remove_keys(in_table(v.from, table, stale));
    let to1 = v.to.remove_keys(in_table(v.to, table, stale));
    if reconcile_halts(v, table, want, gateway) {
        v
    } else if want.len() == 0 {
        PolicyView { routes: v.routes.remove((ifindex, table)), from: from1, to: to1 }
    } else {
        match gateway {
            None => PolicyView { routes: v.routes, from: from1, to: to1 },
            Some(g) => PolicyView {
                routes: v.routes.insert((ifindex, table), Some(g)),
                from: from1.union_prefer_right(want_map(want, table)),
                to: to1.union_prefer_right(want_map(want, table)),
            },
        }
    }
}

/// Whether reconciling from `v` issues `act`: nothing for the main or
/// local table, nor while the gateway is unknown and needed; otherwise
/// only changes that the state does not already show.
pub open spec fn action_due(
    v: PolicyView,
    ifindex: u32,
    want: Seq<IpAddress>,
    gateway: Option<IpAddress>,
    act: RouteAction,
) -> bool {
    let table = table_of(ifindex) as u32;
    !reconcile_halts(v, table, want, gateway) && match act {
        RouteAction::RemoveRules { address, table: t } => t == table && stale_set(
            v,
            table,
            want,
        ).contains(address),
        RouteAction::RemoveRoute { ifindex: i, table: t } => i == ifindex && t == table && want.len()
            == 0 && v.routes.contains_key((ifindex, table)),
        RouteAction::AddRoute { ifindex: i, gateway: g, table: t } => i == ifindex && t == table
            && want.len() > 0 && gateway == Some(g) && !(v.routes.contains_key((ifindex, table))
            && v.routes[(ifindex, table)] == Some(g)),
        RouteAction::AddRuleFrom { address, table: t } => t == table && want.len() > 0
            && gateway is Some && want.contains(address) && !(v.from.contains_key(address)
            && v.from[address] == table),
        RouteAction::AddRuleTo { address, table: t } => t == table && want.len() > 0
            && gateway is Some && want.contains(address) && !(v.to.contains_key(address)
            && v.to[address] == table),
    }
}

/// `act` removes the rules in `table` of an address of `s`.
pub open spec fn removes_rules_of(act: RouteAction, table: u32, s: Set<IpAddress>) -> bool {
    act matches RouteAction::RemoveRules { address, table: t } && t == table && s.contains(address)
}

/// The main routing table, where gateways are discovered.
pub const MAIN_TABLE: u32 = 254;

/// What gateway discovery reads of a route.
#[derive(Clone, Copy, Debug)]
pub struct RouteRecord {
    pub destination_prefix_len: u8,
    pub output_interface: Option<u32>,
    pub gateway: Option<IpAddress>,
    pub table: u32,
}

/// A default route of the main table out of `ifindex` with a gateway.
pub open spec fn is_gateway_route(r: RouteRecord, ifindex: u32) -> bool {
    r.destination_prefix_len == 0 && r.output_interface == Some(ifindex) && r.table == MAIN_TABLE
        && r.gateway is Some
}

/// The gateway of the first such route.
pub open spec fn gateway_among(rs: Seq<RouteRecord>, ifindex: u32) -> Option<IpAddress>
    decreases rs.len(),
{
    if rs.len() == 0 {
        None
    } else if is_gateway_route(rs[0], ifindex) {
        rs[0].gateway
    } else {
        gateway_among(rs.drop_first(), ifindex)
    }
}

/// The gateway of `ifindex`: that of the first default route of the main
/// table whose output interface is `ifindex`.
pub fn discover_gateway(routes: &Vec<RouteRecord>, ifindex: u32) -> (r: Option<IpAddress>)
    ensures
        r == gateway_among(routes@, ifindex),
{
    let mut i: usize = 0;
    assert(routes@.subrange(0, routes@.len() as int) =~= routes@);
    while i < routes.len()
        invariant
            i <= routes@.len(),
            gateway_among(routes@, ifindex) == gateway_among(
                routes@.subrange(i as int, routes@.len() as int),
                ifindex,
            ),
        decreases routes.len() - i,
    {
        let ghost rest = routes@.subrange(i as int, routes@.len() as int);
        assert(rest.drop_first() =~= routes@.subrange(i + 1, routes@.len() as int));
        let rt = routes[i];
        if rt.destination_prefix_len == 0 && rt.output_interface == Some(ifindex) && rt.table
            == MAIN_TABLE && rt.gateway.is_some() {
            return rt.gateway;
        }
        i = i + 1;
    }
    None
}

/// The table of a route or rule: its table attribute when it has one,
/// else the table field of its header.
pub fn resolve_table(attribute: Option<u32>, header: u8) -> (r: u32)
    ensures
        r == match attribute {
            Some(t) => t,
            None => header as u32,
        },
{
    match attribute {
        Some(t) => t,
        None => header as u32,
    }
}

/// What rule removal reads of a policy rule.
#[derive(Clone, Copy, Debug)]
pub struct RuleRecord {
    pub table_attribute: Option<u32>,
    pub header_table: u8,
    pub source: Option<IpAddress>,
    pub destination: Option<IpAddress>,
}

/// A rule in `table` (by attribute or header) from or to `address`.
pub open spec fn rule_selected(r: RuleRecord, address: IpAddress, table: u32) -> bool {
    (r.table_attribute == Some(table) || r.header_table as u32 == table) && (r.source == Some(
        address,
    ) || r.destination == Some(address))
}

/// Whether a rule is one of those to remove for `address` in `table`.
pub fn rule_matches(r: &RuleRecord, address: IpAddress, table: u32) -> (b: bool)
    ensures
        b == rule_selected(*r, address, table),
{
    let in_table = r.table_attribute == Some(table) || r.header_table as u32 == table;
    let from = match r.source {
        Some(a) => a == address,
        None => false,
    };
    let to = match r.destination {
        Some(a) => a == address,
        None => false,
    };
    in_table && (from || to)
}

/// Whether a route is one of those to remove for `ifindex` in `table`.
pub fn route_selected(r: &RouteRecord, ifindex: u32, table: u32) -> (b: bool)
    ensures
        b == (r.table == table && r.output_interface == Some(ifindex)),
{
    r.table == table && r.output_interface == Some(ifindex)
}

/// Removes the rules of addresses that left, recording each removal.
fn retire_stale(
    state: &mut NetworkState,
    table: u32,
    want: &Vec<IpAddress>,
    actions: &mut Vec<RouteAction>,
)
    requires
        old(state).wf(),
    ensures
        final(state).wf(),
        final(state).by_name() == old(state).by_name(),
        final(state).by_index() == old(state).by_index(),
        final(state).route_map() == old(state).route_map(),
        final(state).from_map() == old(state).from_map().remove_keys(
            in_table(old(state).from_map(), table, stale_set(old(state).policy(), table, want@)),
        ),
        final(state).to_map() == old(state).to_map().remove_keys(
            in_table(old(state).to_map(), table, stale_set(old(state).policy(), table, want@)),
        ),
        forall|act: RouteAction|
            #[trigger] final(actions)@.contains(act) <==> (old(actions)@.contains(act)
                || removes_rules_of(act, table, stale_set(old(state).policy(), table, want@))),
{
    let ghost v0 = state.policy();
    let ghost a0 = actions@;
    let stale = state.stale_addresses(table, want);
    let mut i: usize = 0;
    while i < stale.len()
        invariant
            state.wf(),
            i <= stale@.len(),
            forall|a: IpAddress| stale@.contains(a) <==> stale_set(v0, table, want@).contains(a),
            state.by_name() == old(state).by_name(),
            state.by_index() == old(state).by_index(),
            state.route_map() == v0.routes,
            state.from_map() == v0.from.remove_keys(
                in_table(v0.from, table, stale@.subrange(0, i as int).to_set()),
            ),
            state.to_map() == v0.to.remove_keys(
                in_table(v0.to, table, stale@.subrange(0, i as int).to_set()),
            ),
            forall|act: RouteAction|
                actions@.contains(act) <==> (a0.contains(act) || (
                act matches RouteAction::RemoveRules { address, table: t } && t == table
                    && stale@.subrange(0, i as int).contains(address))),
        decreases stale.len() - i,
    {
        let a = stale[i];
        let ghost pre = actions@;
        actions.push(RouteAction::RemoveRules { address: a, table });
        let ghost f0 = state.from_map();
        let ghost t0 = state.to_map();
        state.remove_routing_rules_in(&a, table);
        proof {
            lemma_push_contains(pre, RouteAction::RemoveRules { address: a, table });
            lemma_prefix_contains(stale@, i as int);
        }
        let ghost s0 = stale@.subrange(0, i as int);
        let ghost s1 = stale@.subrange(0, i + 1);
        assert(s1.to_set() =~= s0.to_set().insert(a));
        assert(state.from_map() =~= v0.from.remove_keys(in_table(v0.from, table, s1.to_set())));
        assert(state.to_map() =~= v0.to.remove_keys(in_table(v0.to, table, s1.to_set())));
        i = i + 1;
    }
    assert(stale@.subrange(0, stale@.len() as int) =~= stale@);
    assert(stale@.to_set() =~= stale_set(v0, table, want@));
    assert forall|act: RouteAction|
        #[trigger] actions@.contains(act) <==> (a0.contains(act) || removes_rules_of(
            act,
            table,
            stale_set(v0, table, want@),
        )) by {
        let full = stale@.subrange(0, i as int);
        assert(full == stale@);
        if let RouteAction::RemoveRules { address, table: t } = act {
            assert(stale@.contains(address) <==> stale_set(v0, table, want@).contains(address));
        }
    }
}

/// `act` sets a rule in `table` for an address of `want` that the maps do
/// not show in that table yet.
pub open spec fn installs_rule(
    act: RouteAction,
    table: u32,
    want: Seq<IpAddress>,
    from: Map<IpAddress, u32>,
    to: Map<IpAddress, u32>,
) -> bool {
    ||| (act matches RouteAction::AddRuleFrom { address, table: t } && t == table
        && want.contains(address) && !(from.contains_key(address) && from[address] == table))
    ||| (act matches RouteAction::AddRuleTo { address, table: t } && t == table
        && want.contains(address) && !(to.contains_key(address) && to[address] == table))
}

/// Sets both rules of every wanted address, recording each rule that was
/// not there yet.
fn install_rules(
    state: &mut NetworkState,
    table: u32,
    want: &Vec<IpAddress>,
    actions: &mut Vec<RouteAction>,
)
    requires
        old(state).wf(),
    ensures
        final(state).wf(),
        final(state).by_name() == old(state).by_name(),
        final(state).by_index() == old(state).by_index(),
        final(state).route_map() == old(state).route_map(),
        final(state).from_map() == old(state).from_map().union_prefer_right(want_map(want@, table)),
        final(state).to_map() == old(state).to_map().union_prefer_right(want_map(want@, table)),
        forall|act: RouteAction|
            #[trigger] final(actions)@.contains(act) <==> (old(actions)@.contains(act)
                || installs_rule(act, table, want@, old(state).from_map(), old(state).to_map())),
{
    let ghost v0 = state.policy();
    let ghost a0 = actions@;
    let mut k: usize = 0;
    while k < want.len()
        invariant
            state.wf(),
            k <= want@.len(),
            state.by_name() == old(state).by_name(),
            state.by_index() == old(state).by_index(),
            state.route_map() == v0.routes,
            state.from_map() == v0.from.union_prefer_right(
                want_map(want@.subrange(0, k as int), table),
            ),
            state.to_map() == v0.to.union_prefer_right(want_map(want@.subrange(0, k as int), table)),
            forall|act: RouteAction|
                #[trigger] actions@.contains(act) <==> (a0.contains(act) || installs_rule(
                    act,
                    table,
                    want@.subrange(0, k as int),
                    v0.from,
                    v0.to,
                )),
        decreases want.len() - k,
    {
        let a = want[k];
        let ghost w1 = want@.subrange(0, k + 1);
        proof {
            lemma_prefix_contains(want@, k as int);
        }
        let ghost pre = actions@;
        let ghost from_pre = state.from_map();
        let ghost to_pre = state.to_map();
        let f = state.rule_from_table(&a);
        let has_from = match f {
            Some(t) => t == table,
            None => false,
        };
        if !has_from {
            proof {
                lemma_push_contains(actions@, RouteAction::AddRuleFrom { address: a, table });
            }
            actions.push(RouteAction::AddRuleFrom { address: a, table });
            state.add_routing_rule_from(a, table);
        }
        let ghost mid = actions@;
        let t = state.rule_to_table(&a);
        let has_to = match t {
            Some(x) => x == table,
            None => false,
        };
        if !has_to {
            proof {
                lemma_push_contains(actions@, RouteAction::AddRuleTo { address: a, table });
            }
            actions.push(RouteAction::AddRuleTo { address: a, table });
            state.add_routing_rule_to(a, table);
        }
        assert(state.from_map() =~= v0.from.union_prefer_right(want_map(w1, table)));
        assert(state.to_map() =~= v0.to.union_prefer_right(want_map(w1, table)));
        assert forall|act: RouteAction|
            #[trigger] actions@.contains(act) <==> (a0.contains(act) || installs_rule(
                act,
                table,
                w1,
                v0.from,
                v0.to,
            )) by {
            assert(actions@.contains(act) <==> (pre.contains(act) || (!has_from && act
                == RouteAction::AddRuleFrom { address: a, table }) || (!has_to && act
                == RouteAction::AddRuleTo { address: a, table })));
            assert(pre.contains(act) <==> (a0.contains(act) || installs_rule(
                act,
                table,
                want@.subrange(0, k as int),
                v0.from,
                v0.to,
            )));
        }
        k = k + 1;
    }
    assert(want@.subrange(0, want@.len() as int) =~= want@);
    assert forall|act: RouteAction|
        #[trigger] actions@.contains(act) <==> (a0.contains(act) || installs_rule(
            act,
            table,
            want@,
            v0.from,
            v0.to,
        )) by {
        let full = want@.subrange(0, k as int);
        assert(full == want@);
    }
}

fn contains_action(actions: &Vec<RouteAction>, act: RouteAction) -> (r: bool)
    ensures
        r == actions@.contains(act),
{
    let mut i: usize = 0;
    while i < actions.len()
        invariant
            i <= actions@.len(),
            forall|j: int| 0 <= j < i ==> actions@[j] != act,
        decreases actions.len() - i,
    {
        if actions[i] == act {
            return true;
        }
        i = i + 1;
    }
    false
}

/// Appends `act` unless it is there already.
fn push_once(actions: &mut Vec<RouteAction>, act: RouteAction)
    ensures
        forall|x: RouteAction|
            #[trigger] final(actions)@.contains(x) <==> (old(actions)@.contains(x) || x == act),
{
    if !contains_action(actions, act) {
        proof {
            crate::text::lemma_push_contains(actions@, act);
        }
        actions.push(act);
    }
}

/// The changes that reconciling interface `ifindex` calls for, the state
/// left as it is: the kernel is changed first, and the state is committed
/// with `reconcile` once every change succeeded.
pub fn plan_reconcile(
    state: &NetworkState,
    ifindex: u32,
    want: &Vec<IpAddress>,
    gateway: Option<IpAddress>,
) -> (actions: Vec<RouteAction>)
    requires
        state.wf(),
        ifindex <= u32::MAX - ROUTE_TABLE_BASE,
    ensures
        forall|act: RouteAction|
            actions@.contains(act) <==> action_due(state.policy(), ifindex, want@, gateway, act),
{
    let ghost v = state.policy();
    let table = calculate_table_id(ifindex);
    let mut actions: Vec<RouteAction> = Vec::new();
    if table == 254 || table == 255 || (gateway.is_none() && has_pending(state, table, want)) {
        return actions;
    }
    let stale = state.stale_addresses(table, want);
    let mut i: usize = 0;
    while i < stale.len()
        invariant
            i <= stale@.len(),
            forall|a: IpAddress| stale@.contains(a) <==> stale_set(v, table, want@).contains(a),
            forall|act: RouteAction|
                #[trigger] actions@.contains(act) <==> (
                act matches RouteAction::RemoveRules { address, table: t } && t == table
                    && stale@.subrange(0, i as int).contains(address)),
        decreases stale.len() - i,
    {
        proof {
            crate::text::lemma_prefix_contains(stale@, i as int);
        }
        push_once(&mut actions, RouteAction::RemoveRules { address: stale[i], table });
        i = i + 1;
    }
    let ghost a1 = actions@;
    assert forall|act: RouteAction| #[trigger] a1.contains(act) <==> removes_rules_of(
        act,
        table,
        stale_set(v, table, want@),
    ) by {
        let full = stale@.subrange(0, i as int);
        assert(full =~= stale@);
    }
    if want.len() == 0 {
        if state.has_route(ifindex, table) {
            push_once(&mut actions, RouteAction::RemoveRoute { ifindex, table });
        }
        return actions;
    }
    match gateway {
        None => {
            return actions;
        },
        Some(g) => {
            let same = match state.route_gateway(ifindex, table) {
                Some(Some(x)) => x == g,
                _ => false,
            };
            if !same {
                push_once(&mut actions, RouteAction::AddRoute { ifindex, gateway: g, table });
            }
            let ghost a2 = actions@;
            let mut k: usize = 0;
            while k < want.len()
                invariant
                    state.wf(),
                    v == state.policy(),
                    k <= want@.len(),
                    forall|act: RouteAction|
                        #[trigger] actions@.contains(act) <==> (a2.contains(act) || installs_rule(
                            act,
                            table,
                            want@.subrange(0, k as int),
                            v.from,
                            v.to,
                        )),
                decreases want.len() - k,
            {
                let a = want[k];
                proof {
                    crate::text::lemma_prefix_contains(want@, k as int);
                }
                if state.rule_from_table(&a) != Some(table) {
                    push_once(&mut actions, RouteAction::AddRuleFrom { address: a, table });
                }
                if state.rule_to_table(&a) != Some(table) {
                    push_once(&mut actions, RouteAction::AddRuleTo { address: a, table });
                }
                assert forall|act: RouteAction|
                    #[trigger] actions@.contains(act) <==> (a2.contains(act) || installs_rule(
                        act,
                        table,
                        want@.subrange(0, k + 1),
                        v.from,
                        v.to,
                    )) by {}
                k = k + 1;
            }
            assert forall|act: RouteAction|
                #[trigger] actions@.contains(act) <==> action_due(v, ifindex, want@, gateway, act) by {
                let full = want@.subrange(0, k as int);
                assert(full =~= want@);
            }
        },
    }
    actions
}

/// Whether a wanted address lacks one of its rules in `table`.
fn has_pending(state: &NetworkState, table: u32, want: &Vec<IpAddress>) -> (r: bool)
    requires
        state.wf(),
    ensures
        r == exists|a: IpAddress| #[trigger] want@.contains(a) && !installed(state.policy(), a, table),
{
    let mut k: usize = 0;
    while k < want.len()
        invariant
            state.wf(),
            k <= want@.len(),
            forall|j: int| 0 <= j < k ==> installed(state.policy(), #[trigger] want@[j], table),
        decreases want.len() - k,
    {
        let a = want[k];
        let f = state.rule_from_table(&a);
        let t = state.rule_to_table(&a);
        if f != Some(table) || t != Some(table) {
            assert(want@.contains(a));
            return true;
        }
        k = k + 1;
    }
    assert forall|a: IpAddress| #[trigger] want@.contains(a) implies installed(state.policy(), a, table) by {
        let j = choose|j: int| 0 <= j < want@.len() && want@[j] == a;
    }
    false
}

/// Reconciles interface `ifindex` with its observed addresses `want` and
/// the gateway found for it, if any. The state becomes the one
/// `reconcile_spec` describes, and the changes to make to the kernel are
/// returned in order: rule removals first, then the route, then new rules.
pub fn reconcile(
    state: &mut NetworkState,
    ifindex: u32,
    want: &Vec<IpAddress>,
    gateway: Option<IpAddress>,
) -> (actions: Vec<RouteAction>)
    requires
        old(state).wf(),
        ifindex <= u32::MAX - ROUTE_TABLE_BASE,
    ensures
        final(state).wf(),
        final(state).by_name() == old(state).by_name(),
        final(state).by_index() == old(state).by_index(),
        final(state).policy() == reconcile_spec(old(state).policy(), ifindex, want@, gateway),
        forall|act: RouteAction|
            actions@.contains(act) <==> action_due(
                old(state).policy(),
                ifindex,
                want@,
                gateway,
                act,
            ),
{
    let ghost v0 = state.policy();
    let table = calculate_table_id(ifindex);
    let mut actions: Vec<RouteAction> = Vec::new();
    if table == 254 || table == 255 || (gateway.is_none() && has_pending(state, table, want)) {
        assert(reconcile_halts(v0, table, want@, gateway));
        return actions;
    }
    assert(!reconcile_halts(v0, table, want@, gateway));
    retire_stale(state, table, want, &mut actions);
    let ghost v1 = state.policy();
    let ghost a1 = actions@;
    assert forall|a: IpAddress| #[trigger] want@.contains(a) implies v1.from.contains_key(a)
        == v0.from.contains_key(a) && v1.to.contains_key(a) == v0.to.contains_key(a) && (
    v1.from.contains_key(a) ==> v1.from[a] == v0.from[a]) && (v1.to.contains_key(a)
        ==> v1.to[a] == v0.to[a]) by {
        assert(!stale_set(v0, table, want@).contains(a));
    }
    if want.len() == 0 {
        let had = state.has_route(ifindex, table);
        if had {
            actions.push(RouteAction::RemoveRoute { ifindex, table });
        }
        state.remove_route(ifindex, table);
        assert(state.policy() == reconcile_spec(v0, ifindex, want@, gateway));
        assert forall|act: RouteAction|
            actions@.contains(act) <==> action_due(v0, ifindex, want@, gateway, act) by {
            if actions@.contains(act) && !a1.contains(act) {
                let j = choose|j: int| 0 <= j < actions@.len() && actions@[j] == act;
                assert(j == a1.len());
            }
            if a1.contains(act) {
                let j = choose|j: int| 0 <= j < a1.len() && a1[j] == act;
                assert(actions@[j] == act);
            }
            if had && act == (RouteAction::RemoveRoute { ifindex, table }) {
                assert(actions@[a1.len() as int] == act);
            }
        }
    } else {
        match gateway {
            None => {
                assert(state.policy() == reconcile_spec(v0, ifindex, want@, gateway));
                assert forall|act: RouteAction|
                    actions@.contains(act) <==> action_due(v0, ifindex, want@, gateway, act) by {}
            },
            Some(g) => {
                let cur = state.route_gateway(ifindex, table);
                let same = match cur {
                    Some(Some(x)) => x == g,
                    _ => false,
                };
                if !same {
                    actions.push(RouteAction::AddRoute { ifindex, gateway: g, table });
                }
                state.add_route(ifindex, table, Some(g));
                let ghost a2 = actions@;
                let ghost v2 = state.policy();
                install_rules(state, table, want, &mut actions);
                assert(state.policy() == reconcile_spec(v0, ifindex, want@, gateway));
                assert forall|act: RouteAction|
                    actions@.contains(act) <==> action_due(v0, ifindex, want@, gateway, act) by {
                    assert(a2.contains(act) <==> (a1.contains(act) || (!same && act
                        == RouteAction::AddRoute { ifindex, gateway: g, table }))) by {
                        if a2.contains(act) {
                            let j = choose|j: int| 0 <= j < a2.len() && a2[j] == act;
                            if j < a1.len() {
                                assert(a1[j] == act);
                            }
                        }
                        if a1.contains(act) {
                            let j = choose|j: int| 0 <= j < a1.len() && a1[j] == act;
                            assert(a2[j] == act);
                        }
                        if !same && act == (RouteAction::AddRoute { ifindex, gateway: g, table }) {
                            assert(a2[a1.len() as int] == act);
                        }
                    }
                }
            },
        }
    }
    actions
}

/// Every route is in its interface's dedicated table; every rule looks up
/// a table whose default route is installed; each address has a `from`
/// rule exactly when it has a `to` rule, for the same table.
pub open spec fn routing_consistent(v: PolicyView) -> bool {
    &&& forall|k: (u32, u32)| #[trigger] v.routes.contains_key(k) ==> k.1 == table_of(k.0)
    &&& forall|a: IpAddress| #[trigger]
        v.from.contains_key(a) ==> v.from[a] >= ROUTE_TABLE_BASE && v.routes.contains_key(
            ((v.from[a] - ROUTE_TABLE_BASE) as u32, v.from[a]),
        )
    &&& forall|a: IpAddress| #[trigger]
        v.from.contains_key(a) == v.to.contains_key(a) && (v.from.contains_key(a) ==> v.from[a]
            == v.to[a])
}

/// Reconciling keeps the routes and rules consistent: every route and
/// rule stays in the table `200 + ifindex` of its interface, and no rule is
/// left without the route of its table.
pub proof fn reconcile_keeps_consistency(
    v: PolicyView,
    ifindex: u32,
    want: Seq<IpAddress>,
    gateway: Option<IpAddress>,
)
    requires
        routing_consistent(v),
        ifindex <= u32::MAX - ROUTE_TABLE_BASE,
    ensures
        routing_consistent(reconcile_spec(v, ifindex, want, gateway)),
{
    let table = table_of(ifindex) as u32;
    let stale = stale_set(v, table, want);
    let r = reconcile_spec(v, ifindex, want, gateway);
    assert forall|a: IpAddress| #[trigger] r.from.contains_key(a) implies r.from[a]
        >= ROUTE_TABLE_BASE && r.routes.contains_key(
        ((r.from[a] - ROUTE_TABLE_BASE) as u32, r.from[a]),
    ) by {
        if !reconcile_halts(v, table, want, gateway) && (!want.contains(a) || want.len() == 0
            || gateway is None) {
            assert(v.from.contains_key(a) && !stale.contains(a));
        }
    }
    assert forall|a: IpAddress| #[trigger] r.from.contains_key(a) == r.to.contains_key(a) && (
    r.from.contains_key(a) ==> r.from[a] == r.to[a]) by {
        if v.from.contains_key(a) {
            assert(v.to.contains_key(a));
        }
        if v.to.contains_key(a) {
            assert(v.from.contains_key(a));
        }
    }
}

/// After reconciling an interface that has addresses and a gateway, each
/// of its addresses has both rules in the interface's table, next to the
/// default route via that gateway.
pub proof fn reconcile_installs_wanted(
    v: PolicyView,
    ifindex: u32,
    want: Seq<IpAddress>,
    gateway: IpAddress,
)
    requires
        want.len() > 0,
        ifindex <= u32::MAX - ROUTE_TABLE_BASE,
        !reserved_table(table_of(ifindex) as u32),
    ensures
        ({
            let r = reconcile_spec(v, ifindex, want, Some(gateway));
            let table = table_of(ifindex) as u32;
            &&& r.routes.contains_key((ifindex, table))
            &&& r.routes[(ifindex, table)] == Some(gateway)
            &&& forall|a: IpAddress|
                #[trigger] want.contains(a) ==> r.from.contains_key(a) && r.from[a] == table
                    && r.to.contains_key(a) && r.to[a] == table
        }),
{
}

/// After reconciling an interface with no address left, no rule looks up
/// its table and its route is gone.
pub proof fn reconcile_clears_emptied(v: PolicyView, ifindex: u32, gateway: Option<IpAddress>)
    requires
        ifindex <= u32::MAX - ROUTE_TABLE_BASE,
        !reserved_table(table_of(ifindex) as u32),
    ensures
        ({
            let r = reconcile_spec(v, ifindex, Seq::empty(), gateway);
            let table = table_of(ifindex) as u32;
            &&& !r.routes.contains_key((ifindex, table))
            &&& forall|a: IpAddress| #[trigger]
                r.from.contains_key(a) ==> r.from[a] != table
            &&& forall|a: IpAddress| #[trigger] r.to.contains_key(a) ==> r.to[a] != table
        }),
{
    let table = table_of(ifindex) as u32;
    let r = reconcile_spec(v, ifindex, Seq::empty(), gateway);
    assert forall|a: IpAddress| #[trigger] r.from.contains_key(a) implies r.from[a] != table by {
        assert(!Seq::<IpAddress>::empty().contains(a));
    }
    assert forall|a: IpAddress| #[trigger] r.to.contains_key(a) implies r.to[a] != table by {
        assert(!Seq::<IpAddress>::empty().contains(a));
    }
}

/// Every change a reconcile of interface `ifindex` issues is for the
/// table `200 + ifindex`, never the main or local table, and every route
/// change is for that interface.
pub proof fn reconcile_uses_own_table(
    v: PolicyView,
    ifindex: u32,
    want: Seq<IpAddress>,
    gateway: Option<IpAddress>,
    act: RouteAction,
)
    requires
        ifindex <= u32::MAX - ROUTE_TABLE_BASE,
        action_due(v, ifindex, want, gateway, act),
    ensures
        ({
            let t = match act {
                RouteAction::AddRoute { table, .. } => table,
                RouteAction::RemoveRoute { table, .. } => table,
                RouteAction::AddRuleFrom { table, .. } => table,
                RouteAction::AddRuleTo { table, .. } => table,
                RouteAction::RemoveRules { table, .. } => table,
            };
            &&& t == table_of(ifindex)
            &&& !reserved_table(t)
        }),
        act matches RouteAction::AddRoute { ifindex: i, .. } ==> i == ifindex,
        act matches RouteAction::RemoveRoute { ifindex: i, .. } ==> i == ifindex,
{
}

/// Reconciling interface `ifindex` leaves alone the routes of other
/// interfaces or tables, and each rule of an address it does not want that
/// looks up another table.
pub proof fn reconcile_keeps_other_tables(
    v: PolicyView,
    ifindex: u32,
    want: Seq<IpAddress>,
    gateway: Option<IpAddress>,
    a: IpAddress,
    k: (u32, u32),
)
    requires
        ifindex <= u32::MAX - ROUTE_TABLE_BASE,
        !want.contains(a),
        k != (ifindex, table_of(ifindex) as u32),
    ensures
        ({
            let r = reconcile_spec(v, ifindex, want, gateway);
            let table = table_of(ifindex) as u32;
            &&& (v.from.contains_key(a) && v.from[a] != table) ==> r.from.contains_key(a)
                && r.from[a] == v.from[a]
            &&& (v.to.contains_key(a) && v.to[a] != table) ==> r.to.contains_key(a) && r.to[a]
                == v.to[a]
            &&& r.routes.contains_key(k) == v.routes.contains_key(k)
            &&& v.routes.contains_key(k) ==> r.routes[k] == v.routes[k]
        }),
{
}

/// Reconciling twice with the same observation is reconciling once: the
/// second pass changes nothing and issues no action, so repeated events
/// install no duplicate rule or route and remove nothing twice.
pub proof fn reconcile_idempotent(
    v: PolicyView,
    ifindex: u32,
    want: Seq<IpAddress>,
    gateway: Option<IpAddress>,
)
    requires
        ifindex <= u32::MAX - ROUTE_TABLE_BASE,
    ensures
        reconcile_spec(reconcile_spec(v, ifindex, want, gateway), ifindex, want, gateway)
            == reconcile_spec(v, ifindex, want, gateway),
        forall|act: RouteAction|
            !action_due(reconcile_spec(v, ifindex, want, gateway), ifindex, want, gateway, act),
{
    let table = table_of(ifindex) as u32;
    let stale = stale_set(v, table, want);
    let r = reconcile_spec(v, ifindex, want, gateway);
    if !reconcile_halts(v, table, want, gateway) {
        assert(stale_set(r, table, want) =~= Set::empty()) by {
            assert forall|a: IpAddress| !stale_set(r, table, want).contains(a) by {
                if stale_set(r, table, want).contains(a) {
                    assert(!want.contains(a));
                    assert(stale.contains(a));
                }
            }
        }
        assert(!reconcile_halts(r, table, want, gateway)) by {
            if gateway is None {
                assert forall|a: IpAddress| #[trigger] want.contains(a) implies installed(
                    r,
                    a,
                    table,
                ) by {
                    assert(installed(v, a, table));
                    assert(!stale.contains(a));
                }
            }
        }
        let r2 = reconcile_spec(r, ifindex, want, gateway);
        assert(r2.from =~= r.from);
        assert(r2.to =~= r.to);
        assert(r2.routes =~= r.routes);
    }
}

/// The tracked state after removing link `index`, as
/// `NetworkState::remove_link` leaves it.
pub open spec fn remove_link_spec(v: PolicyView, index: u32) -> PolicyView {
    PolicyView {
        routes: v.routes.restrict(Set::new(|k: (u32, u32)| k.0 != index)),
        from: v.from.restrict(Set::new(|a: IpAddress| v.from[a] != table_of(index))),
        to: v.to.restrict(Set::new(|a: IpAddress| v.to[a] != table_of(index))),
    }
}

/// Removing a link removes, at once, every route of the link and every
/// rule that looks up its table, and leaves the rest consistent.
pub proof fn link_removal_purges(v: PolicyView, index: u32)
    requires
        routing_consistent(v),
    ensures
        ({
            let r = remove_link_spec(v, index);
            &&& routing_consistent(r)
            &&& forall|k: (u32, u32)| #[trigger] r.routes.contains_key(k) ==> k.0 != index
            &&& forall|a: IpAddress| #[trigger]
                r.from.contains_key(a) ==> r.from[a] != table_of(index)
            &&& forall|a: IpAddress| #[trigger] r.to.contains_key(a) ==> r.to[a] != table_of(index)
        }),
{
    let r = remove_link_spec(v, index);
    assert forall|a: IpAddress| #[trigger] r.from.contains_key(a) implies r.from[a]
        >= ROUTE_TABLE_BASE && r.routes.contains_key(
        ((r.from[a] - ROUTE_TABLE_BASE) as u32, r.from[a]),
    ) by {
        let t = v.from[a];
        let k = ((t - ROUTE_TABLE_BASE) as u32, t);
        assert(v.routes.contains_key(k));
        assert(k.1 == table_of(k.0));
    }
    assert forall|a: IpAddress| #[trigger] r.from.contains_key(a) == r.to.contains_key(a) && (
    r.from.contains_key(a) ==> r.from[a] == r.to[a]) by {
        if v.from.contains_key(a) {
            assert(v.to.contains_key(a));
        }
        if v.to.contains_key(a) {
            assert(v.from.contains_key(a));
        }
    }
}

} // verus!
