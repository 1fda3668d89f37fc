//! Event filters: an ordered list of match rules, each with an action.

use vstd::prelude::*;
use crate::ip::{dec_value, IpAddress};
use crate::text::{
    chars_of, contains_seq, digit, find_char, first_index, has_sub, is_digit, sub_chars, trim,
    trim_range,
};

verus! {

/// Whether `Regex::new` accepts a pattern.
pub uninterp spec fn regex_compiles(pattern: Seq<char>) -> bool;

/// Whether the compiled pattern matches somewhere in the text.
pub uninterp spec fn regex_finds(pattern: Seq<char>, text: Seq<char>) -> bool;

/// Relies on `regex::Regex::new`, which compiles a pattern or refuses it,
/// and `Regex::is_match`, which tells whether the pattern matches anywhere
/// in the text; both depend on their arguments alone.
#[verifier::external_body]
fn regex_search(pattern: &str, text: &str) -> (r: Option<bool>)
    ensures
        match r {
            Some(b) => regex_compiles(pattern@) && b == regex_finds(pattern@, text@),
            None => !regex_compiles(pattern@),
        },
{
    regex::Regex::new(pattern).ok().map(|re| re.is_match(text))
}

/// Address family a rule asks for.
#[derive(Clone, Copy, Debug, PartialEq, Eq, Structural)]
pub enum IpFamily {
    Ipv4,
    Ipv6,
    Any,
}

/// What a matching rule does.
#[derive(Clone, Copy, Debug, PartialEq, Eq, Structural)]
pub enum FilterAction {
    Execute,
    Ignore,
    Log,
}

/// A conjunction of optional predicates on an event.
pub struct MatchRule {
    pub interface: Option<String>,
    pub interface_pattern: Option<String>,
    pub event_type: Option<String>,
    pub ip_family: Option<IpFamily>,
    pub backend: Option<String>,
    pub condition: Option<String>,
}

pub struct Filter {
    pub match_rule: MatchRule,
    pub action: FilterAction,
    pub scripts: Vec<String>,
}

pub struct EventFilter {
    pub filters: Vec<Filter>,
}

/// What filters look at in an event.
pub struct NetworkEvent {
    pub interface: String,
    pub event_type: String,
    pub backend: String,
    pub addresses: Vec<IpAddress>,
    pub has_gateway: bool,
    pub dns_servers: Vec<IpAddress>,
}

/// The characters the regular expression syntax gives a meaning.
pub open spec fn is_regex_meta(c: char) -> bool {
    c == '\\' || c == '.' || c == '+' || c == '*' || c == '?' || c == '(' || c == ')' || c == '|'
        || c == '[' || c == ']' || c == '{' || c == '}' || c == '^' || c == '$' || c == '#' || c
        == '&' || c == '-' || c == '~'
}

/// A glob's body as a regular expression: `*` becomes `.*`, any other
/// special character is escaped.
pub open spec fn glob_body(p: Seq<char>) -> Seq<char>
    decreases p.len(),
{
    if p.len() == 0 {
        Seq::empty()
    } else if p.last() == '*' {
        glob_body(p.drop_last()) + ".*"@
    } else if is_regex_meta(p.last()) {
        glob_body(p.drop_last()) + seq!['\\', p.last()]
    } else {
        glob_body(p.drop_last()).push(p.last())
    }
}

/// A glob as a regular expression that must match the whole name.
pub open spec fn glob_regex(p: Seq<char>) -> Seq<char> {
    "^"@ + glob_body(p) + "$"@
}

/// `usize::from_str`: an optional `+`, then one or more digits whose value
/// fits.
pub open spec fn usize_of(s: Seq<char>) -> Option<nat> {
    let d = without_plus(s);
    if d.len() > 0 && all_digits(d) && dec_value(d) <= usize::MAX {
        Some(dec_value(d))
    } else {
        None
    }
}

/// `s` without a leading `+`.
pub open spec fn without_plus(s: Seq<char>) -> Seq<char> {
    if s.len() > 0 && s[0] == '+' {
        s.drop_first()
    } else {
        s
    }
}

pub open spec fn all_digits(d: Seq<char>) -> bool {
    forall|i: int| 0 <= i < d.len() ==> is_digit(#[trigger] d[i])
}

/// `dns_count > N` or `dns_count < N`: the first `>` decides if a number
/// follows it, else the first `<`.
pub open spec fn dns_count_test(c: Seq<char>, count: nat) -> Option<bool> {
    let gt = match first_index(c, '>') {
        Some(p) => usize_of(trim(c.subrange(p + 1, c.len() as int))),
        None => None,
    };
    let lt = match first_index(c, '<') {
        Some(p) => usize_of(trim(c.subrange(p + 1, c.len() as int))),
        None => None,
    };
    match gt {
        Some(t) => Some(count > t),
        None => match lt {
            Some(t) => Some(count < t),
            None => None,
        },
    }
}

/// `interface == "NAME"`: the text between the first two `"`.
pub open spec fn quoted_name(c: Seq<char>) -> Option<Seq<char>> {
    match first_index(c, '"') {
        Some(i) => match first_index(c.subrange(i + 1, c.len() as int), '"') {
            Some(j) => Some(c.subrange(i + 1, i + 1 + j)),
            None => None,
        },
        None => None,
    }
}

/// The condition language: `has_gateway`, `dns_count > N`,
/// `dns_count < N`, `interface == "NAME"`; anything else holds.
pub open spec fn condition_holds(c: Seq<char>, e: NetworkEvent) -> bool {
    if has_sub(c, "has_gateway"@) {
        e.has_gateway
    } else if has_sub(c, "dns_count"@) && dns_count_test(c, e.dns_servers@.len()) is Some {
        dns_count_test(c, e.dns_servers@.len())->0
    } else if has_sub(c, "interface =="@) && quoted_name(c) is Some {
        e.interface@ == quoted_name(c)->0
    } else {
        true
    }
}

/// What the regular expression engine says of the rule's pattern on the
/// event's interface: `None` when it refuses the pattern.
pub open spec fn pattern_result(m: MatchRule, e: NetworkEvent) -> Option<bool> {
    match m.interface_pattern {
        Some(p) => if regex_compiles(glob_regex(p@)) {
            Some(regex_finds(glob_regex(p@), e.interface@))
        } else {
            None
        },
        None => None,
    }
}

/// Whether the rule's predicates all hold of the event. A pattern the
/// regular expression engine refuses does not constrain.
pub open spec fn rule_matches(m: MatchRule, e: NetworkEvent) -> bool {
    rule_matches_given(m, e, pattern_result(m, e))
}

/// Whether the rule's predicates all hold of the event, where `found` is
/// what the engine said of the pattern.
pub open spec fn rule_matches_given(m: MatchRule, e: NetworkEvent, found: Option<bool>) -> bool {
    &&& (m.interface matches Some(i) ==> i@ == e.interface@)
    &&& (m.interface_pattern is Some ==> found != Some(false))
    &&& (m.event_type matches Some(t) ==> t@ == e.event_type@)
    &&& (m.ip_family == Some(IpFamily::Ipv4) ==> exists|i: int|
        0 <= i < e.addresses@.len() && (#[trigger] e.addresses@[i]) is V4)
    &&& (m.ip_family == Some(IpFamily::Ipv6) ==> exists|i: int|
        0 <= i < e.addresses@.len() && (#[trigger] e.addresses@[i]) is V6)
    &&& (m.backend matches Some(b) ==> b@ == e.backend@)
    &&& (m.condition matches Some(c) ==> condition_holds(c@, e))
}

/// The first matching filter that executes or ignores decides; logging
/// filters are passed over; with none, the event is executed.
pub open spec fn decide(fs: Seq<Filter>, e: NetworkEvent) -> bool
    decreases fs.len(),
{
    if fs.len() == 0 {
        true
    } else if rule_matches(fs[0].match_rule, e) && fs[0].action == FilterAction::Execute {
        true
    } else if rule_matches(fs[0].match_rule, e) && fs[0].action == FilterAction::Ignore {
        false
    } else {
        decide(fs.drop_first(), e)
    }
}

/// A first filter that matches the event and ignores it decides: no
/// script runs, whatever the filters after it say.
pub proof fn matching_ignore_filter_decides(fs: Seq<Filter>, e: NetworkEvent)
    requires
        fs.len() > 0,
        rule_matches(fs[0].match_rule, e),
        fs[0].action == FilterAction::Ignore,
    ensures
        !decide(fs, e),
{
}

/// The scripts of every matching executing filter, in order.
pub open spec fn scripts_for(fs: Seq<Filter>, e: NetworkEvent) -> Seq<Seq<char>>
    decreases fs.len(),
{
    if fs.len() == 0 {
        Seq::empty()
    } else if rule_matches(fs.last().match_rule, e) && fs.last().action == FilterAction::Execute {
        scripts_for(fs.drop_last(), e) + fs.last().scripts@.map_values(|s: String| s@)
    } else {
        scripts_for(fs.drop_last(), e)
    }
}

fn glob_to_regex(p: &str) -> (r: String)
    ensures
        r@ == glob_regex(p@),
{
    let cs = chars_of(p);
    let mut r = String::from_str("^");
    let mut i: usize = 0;
    while i < cs.len()
        invariant
            cs@ == p@,
            i <= cs@.len(),
            r@ == "^"@ + glob_body(p@.subrange(0, i as int)),
        decreases cs.len() - i,
    {
        assert(p@.subrange(0, i + 1).drop_last() =~= p@.subrange(0, i as int));
        let c = cs[i];
        if c == '*' {
            r.append(".*");
        } else {
            if c == '\\' || c == '.' || c == '+' || c == '?' || c == '(' || c == ')' || c == '|'
                || c == '[' || c == ']' || c == '{' || c == '}' || c == '^' || c == '$' || c == '#'
                || c == '&' || c == '-' || c == '~' {
                proof {
                    reveal_strlit("\\");
                }
                r.append("\\");
            }
            r.append(p.substring_char(i, i + 1));
            assert(p@.subrange(i as int, i + 1) =~= seq![p@[i as int]]);
        }
        assert(r@ =~= "^"@ + glob_body(p@.subrange(0, i + 1)));
        i = i + 1;
    }
    assert(p@.subrange(0, p@.len() as int) =~= p@);
    r.append("$");
    r
}

proof fn lemma_dec_value_grows(s: Seq<char>, k: int)
    requires
        0 <= k <= s.len(),
        forall|i: int| 0 <= i < s.len() ==> is_digit(#[trigger] s[i]),
    ensures
        dec_value(s) >= dec_value(s.subrange(0, k)),
    decreases s.len() - k,
{
    if k < s.len() {
        lemma_dec_value_grows(s.drop_last(), k);
        assert(s.drop_last().subrange(0, k) =~= s.subrange(0, k));
        assert(dec_value(s) >= dec_value(s.drop_last()));
    } else {
        assert(s.subrange(0, k) =~= s);
    }
}

/// `usize::from_str` on `s[from..to]`.
pub fn parse_usize(s: &Vec<char>, from: usize, to: usize) -> (r: Option<usize>)
    requires
        from <= to <= s@.len(),
    ensures
        r matches Some(v) ==> usize_of(s@.subrange(from as int, to as int)) == Some(v as nat),
        r is None ==> usize_of(s@.subrange(from as int, to as int)) is None,
{
    let ghost w = s@.subrange(from as int, to as int);
    let start: usize = if from < to && s[from] == '+' {
        from + 1
    } else {
        from
    };
    let ghost d = s@.subrange(start as int, to as int);
    assert(d =~= without_plus(w));
    if start == to {
        return None;
    }
    let mut v: usize = 0;
    let mut i: usize = start;
    while i < to
        invariant
            from <= start <= i <= to <= s@.len(),
            start < to,
            w == s@.subrange(from as int, to as int),
            d == s@.subrange(start as int, to as int),
            d == without_plus(w),
            forall|j: int| 0 <= j < i - start ==> is_digit(#[trigger] d[j]),
            v == dec_value(d.subrange(0, i - start)),
        decreases to - i,
    {
        let c = s[i];
        if !digit(c) {
            assert(!is_digit(d[i - start]));
            assert(!all_digits(d));
            assert(usize_of(w) is None);
            return None;
        }
        let dv = (c as u32 - '0' as u32) as usize;
        assert(d.subrange(0, i - start + 1).drop_last() =~= d.subrange(0, i - start));
        assert(d.subrange(0, i - start + 1).last() == c);
        assert(dec_value(d.subrange(0, i - start + 1)) == v * 10 + dv);
        if v > (usize::MAX - dv) / 10 {
            // The value no longer fits; digits only make it larger.
            let ghost digits_only = all_digits(d);
            proof {
                assert(v * 10 + dv > usize::MAX) by (nonlinear_arith)
                    requires
                        v > (usize::MAX - dv) / 10,
                        dv <= 9,
                ;
                if digits_only {
                    lemma_dec_value_grows(d, i - start + 1);
                }
                assert(usize_of(w) is None);
            }
            return None;
        }
        assert(v * 10 + dv <= usize::MAX) by (nonlinear_arith)
            requires
                v <= (usize::MAX - dv) / 10,
                dv <= 9,
        ;
        v = v * 10 + dv;
        i = i + 1;
    }
    assert(d.subrange(0, d.len() as int) =~= d);
    Some(v)
}

/// The value after the first `c`, trimmed, as a `usize`.
fn number_after(cs: &Vec<char>, c: char) -> (r: Option<usize>)
    ensures
        r matches Some(v) ==> (match first_index(cs@, c) {
            Some(p) => usize_of(trim(cs@.subrange(p + 1, cs@.len() as int))) == Some(v as nat),
            None => false,
        }),
        r is None ==> (match first_index(cs@, c) {
            Some(p) => usize_of(trim(cs@.subrange(p + 1, cs@.len() as int))) is None,
            None => true,
        }),
{
    let n = cs.len();
    match find_char(cs, c) {
        None => None,
        Some(p) => {
            let (a, b) = trim_range(cs, p + 1, n);
            parse_usize(cs, a, b)
        },
    }
}

/// Evaluates a condition against an event.
fn evaluate_condition(condition: &str, event: &NetworkEvent) -> (r: bool)
    ensures
        r == condition_holds(condition@, *event),
{
    let cs = chars_of(condition);
    let has_gateway = chars_of("has_gateway");
    if contains_seq(&cs, &has_gateway) {
        return event.has_gateway;
    }
    let dns_count = chars_of("dns_count");
    if contains_seq(&cs, &dns_count) {
        let count = event.dns_servers.len();
        match number_after(&cs, '>') {
            Some(t) => {
                return count > t;
            },
            None => {},
        }
        match number_after(&cs, '<') {
            Some(t) => {
                return count < t;
            },
            None => {},
        }
    }
    let iface = chars_of("interface ==");
    if contains_seq(&cs, &iface) {
        match find_char(&cs, '"') {
            Some(i) => {
                let rest = sub_chars(&cs, i + 1, cs.len());
                match find_char(&rest, '"') {
                    Some(j) => {
                        let name = sub_chars(&cs, i + 1, i + 1 + j);
                        assert(name@ =~= rest@.subrange(0, j as int));
                        let ev = chars_of(event.interface.as_str());
                        return crate::text::chars_eq(&ev, &name);
                    },
                    None => {},
                }
            },
            None => {},
        }
    }
    true
}

impl Filter {
    /// Whether every predicate of the rule holds of the event.
    pub fn matches(&self, event: &NetworkEvent) -> (r: bool)
        ensures
            r == rule_matches(self.match_rule, *event),
    {
        let found = match &self.match_rule.interface_pattern {
            Some(p) => {
                let re = glob_to_regex(p.as_str());
                regex_search(re.as_str(), event.interface.as_str())
            },
            None => None,
        };
        self.matches_given(event, found)
    }

    /// Whether every predicate of the rule holds of the event, given what
    /// the regular expression engine said of the rule's pattern (`None`
    /// when it refused the pattern).
    pub fn matches_given(&self, event: &NetworkEvent, found: Option<bool>) -> (r: bool)
        ensures
            r == rule_matches_given(self.match_rule, *event, found),
    {
        let m = &self.match_rule;
        match &m.interface {
            Some(i) => {
                if !crate::text::str_is(i.as_str(), event.interface.as_str()) {
                    return false;
                }
            },
            None => {},
        }
        if m.interface_pattern.is_some() {
            match found {
                Some(false) => {
                    return false;
                },
                _ => {},
            }
        }
        match &m.event_type {
            Some(t) => {
                if !crate::text::str_is(t.as_str(), event.event_type.as_str()) {
                    return false;
                }
            },
            None => {},
        }
        match m.ip_family {
            Some(IpFamily::Ipv4) => {
                if !any_of_family(&event.addresses, true) {
                    return false;
                }
            },
            Some(IpFamily::Ipv6) => {
                if !any_of_family(&event.addresses, false) {
                    return false;
                }
            },
            _ => {},
        }
        match &m.backend {
            Some(b) => {
                if !crate::text::str_is(b.as_str(), event.backend.as_str()) {
                    return false;
                }
            },
            None => {},
        }
        match &m.condition {
            Some(c) => {
                if !evaluate_condition(c.as_str(), event) {
                    return false;
                }
            },
            None => {},
        }
        true
    }
}

/// Whether some address is IPv4 (`v4`) or IPv6 (`!v4`).
fn any_of_family(addrs: &Vec<IpAddress>, v4: bool) -> (r: bool)
    ensures
        v4 ==> r == exists|i: int| 0 <= i < addrs@.len() && (#[trigger] addrs@[i]) is V4,
        !v4 ==> r == exists|i: int| 0 <= i < addrs@.len() && (#[trigger] addrs@[i]) is V6,
{
    let mut i: usize = 0;
    while i < addrs.len()
        invariant
            i <= addrs@.len(),
            v4 ==> forall|j: int| 0 <= j < i ==> !(addrs@[j] is V4),
            !v4 ==> forall|j: int| 0 <= j < i ==> !(addrs@[j] is V6),
        decreases addrs.len() - i,
    {
        if addrs[i].is_ipv4() == v4 {
            return true;
        }
        i = i + 1;
    }
    false
}

/// Whether scripts run for the event under a list of filters.
pub fn run_filters(fs: &Vec<Filter>, event: &NetworkEvent) -> (r: bool)
    ensures
        r == decide(fs@, *event),
{
    let mut i: usize = 0;
    assert(fs@.subrange(0, fs@.len() as int) =~= fs@);
    while i < fs.len()
        invariant
            i <= fs@.len(),
            decide(fs@, *event) == decide(fs@.subrange(i as int, fs@.len() as int), *event),
        decreases fs.len() - i,
    {
        let ghost rest = fs@.subrange(i as int, fs@.len() as int);
        assert(rest.drop_first() =~= fs@.subrange(i + 1, fs@.len() as int));
        assert(rest.len() > 0 && rest[0] == fs@[i as int]);
        let f = &fs[i];
        if f.matches(event) {
            match f.action {
                FilterAction::Execute => {
                    assert(decide(rest, *event));
                    return true;
                },
                FilterAction::Ignore => {
                    assert(rest[0].action != FilterAction::Execute);
                    assert(!decide(rest, *event));
                    return false;
                },
                FilterAction::Log => {},
            }
        }
        i = i + 1;
    }
    true
}

/// The scripts of every matching executing filter of a list, in order.
pub fn collect_scripts(fs: &Vec<Filter>, event: &NetworkEvent) -> (r: Vec<String>)
    ensures
        r@.map_values(|s: String| s@) == scripts_for(fs@, *event),
{
    let mut r: Vec<String> = Vec::new();
    let mut i: usize = 0;
    while i < fs.len()
        invariant
            i <= fs@.len(),
            r@.map_values(|s: String| s@) == scripts_for(fs@.subrange(0, i as int), *event),
        decreases fs.len() - i,
    {
        assert(fs@.subrange(0, i + 1).drop_last() =~= fs@.subrange(0, i as int));
        let f = &fs[i];
        if f.matches(event) && f.action == FilterAction::Execute {
            let ghost base = r@.map_values(|s: String| s@);
            let mut k: usize = 0;
            while k < f.scripts.len()
                invariant
                    k <= f.scripts@.len(),
                    r@.map_values(|s: String| s@) == base + f.scripts@.subrange(0, k as int).map_values(
                        |s: String| s@,
                    ),
                decreases f.scripts.len() - k,
            {
                let ghost pre = r@;
                let item = f.scripts[k].clone();
                r.push(item);
                assert(r@ == pre.push(f.scripts@[k as int]));
                assert(f.scripts@.subrange(0, k + 1) =~= f.scripts@.subrange(0, k as int).push(
                    f.scripts@[k as int],
                ));
                assert(r@.map_values(|s: String| s@) =~= pre.map_values(|s: String| s@).push(
                    f.scripts@[k as int]@,
                ));
                assert(f.scripts@.subrange(0, k + 1).map_values(|s: String| s@)
                    =~= f.scripts@.subrange(0, k as int).map_values(|s: String| s@).push(
                    f.scripts@[k as int]@,
                ));
                assert(r@.map_values(|s: String| s@) =~= base + f.scripts@.subrange(
                    0,
                    k + 1,
                ).map_values(|s: String| s@));
                k = k + 1;
            }
            assert(f.scripts@.subrange(0, f.scripts@.len() as int) =~= f.scripts@);
        }
        i = i + 1;
    }
    assert(fs@.subrange(0, fs@.len() as int) =~= fs@);
    r
}

impl EventFilter {
    /// No filters: every event is executed.
    pub fn new() -> (r: EventFilter)
        ensures
            r.filters@.len() == 0,
    {
        EventFilter { filters: Vec::new() }
    }

    /// Whether scripts run for the event: the first matching filter that
    /// executes or ignores decides, matching logging filters are passed
    /// over, and with none the answer is yes.
    pub fn should_execute(&self, event: &NetworkEvent) -> (r: bool)
        ensures
            r == decide(self.filters@, *event),
    {
        run_filters(&self.filters, event)
    }

    /// The scripts of every matching filter that executes, in order.
    pub fn get_scripts_for_event(&self, event: &NetworkEvent) -> (r: Vec<String>)
        ensures
            r@.map_values(|s: String| s@) == scripts_for(self.filters@, *event),
    {
        collect_scripts(&self.filters, event)
    }
}

} // verus!
