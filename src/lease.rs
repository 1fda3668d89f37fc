//! DHCP client lease files: `lease ADDR { KEY VALUE; ... }` blocks, of
//! which the last complete one of each interface is kept.

use vstd::prelude::*;
use crate::text::{
    chars_eq, chars_of, find_char, first_index, join_space, last_index,
    rfind_char, split_bounds, split_char, starts_with, starts_with_at, trim, trim_range,
    word_bounds, words,
};

verus! {

/// A lease of one interface.
pub struct Lease {
    pub interface: String,
    pub address: String,
    pub subnet_mask: Option<String>,
    pub routers: Vec<String>,
    pub dns_servers: Vec<String>,
    pub domain_name: Option<String>,
    pub hostname: Option<String>,
}

pub struct LeaseView {
    pub interface: Seq<char>,
    pub address: Seq<char>,
    pub subnet_mask: Option<Seq<char>>,
    pub routers: Seq<Seq<char>>,
    pub dns_servers: Seq<Seq<char>>,
    pub domain_name: Option<Seq<char>>,
    pub hostname: Option<Seq<char>>,
}

pub open spec fn opt_view(o: Option<String>) -> Option<Seq<char>> {
    match o {
        Some(s) => Some(s@),
        None => None,
    }
}

pub open spec fn strings_view(v: Seq<String>) -> Seq<Seq<char>> {
    v.map_values(|s: String| s@)
}

impl View for Lease {
    type V = LeaseView;

    open spec fn view(&self) -> LeaseView {
        LeaseView {
            interface: self.interface@,
            address: self.address@,
            subnet_mask: opt_view(self.subnet_mask),
            routers: strings_view(self.routers@),
            dns_servers: strings_view(self.dns_servers@),
            domain_name: opt_view(self.domain_name),
            hostname: opt_view(self.hostname),
        }
    }
}

/// A lease with every field empty.
pub open spec fn empty_lease() -> LeaseView {
    LeaseView {
        interface: Seq::empty(),
        address: Seq::empty(),
        subnet_mask: None,
        routers: Seq::empty(),
        dns_servers: Seq::empty(),
        domain_name: None,
        hostname: None,
    }
}

/// What `extract_value` takes from a line: the words before the last `;`,
/// without the first one or two (`option NAME` or `NAME`).
pub open spec fn value_of(l: Seq<char>) -> Option<Seq<char>> {
    match last_index(l, ';') {
        None => None,
        Some(p) => {
            let ws = words(l.subrange(0, p));
            if ws.len() >= 3 {
                Some(join_space(ws.subrange(2, ws.len() as int)))
            } else if ws.len() == 2 {
                Some(ws[1])
            } else {
                None
            }
        },
    }
}

/// What `extract_quoted_value` takes from a line: what stands between its
/// first and its last `"`.
pub open spec fn quoted_of(l: Seq<char>) -> Option<Seq<char>> {
    match (first_index(l, '"'), last_index(l, '"')) {
        (Some(i), Some(j)) => if i < j {
            Some(l.subrange(i + 1, j))
        } else {
            None
        },
        _ => None,
    }
}

/// A comma-separated list, each item trimmed.
pub open spec fn comma_list(v: Seq<char>) -> Seq<Seq<char>> {
    split_char(v, ',').map_values(|p: Seq<char>| trim(p))
}

/// The address of a `lease ADDR {` line.
pub open spec fn header_address(l: Seq<char>) -> Seq<char> {
    let rest = trim(l.subrange(5, l.len() as int));
    if rest.len() > 0 && rest.last() == '{' {
        trim(rest.drop_last())
    } else {
        Seq::empty()
    }
}

/// The key of a line: the word after `option`, or else the first word.
pub open spec fn line_key(l: Seq<char>) -> Seq<char> {
    let ws = words(l);
    if ws.len() >= 2 && ws[0] == "option"@ {
        ws[1]
    } else if ws.len() >= 1 {
        ws[0]
    } else {
        Seq::empty()
    }
}

/// The lease after one (trimmed) line inside its block: the line's key
/// decides which field its value sets.
pub open spec fn apply_line(cur: LeaseView, l: Seq<char>) -> LeaseView {
    let k = line_key(l);
    if k == "interface"@ {
        match quoted_of(l) {
            Some(q) => LeaseView { interface: q, ..cur },
            None => cur,
        }
    } else if k == "fixed-address"@ {
        match value_of(l) {
            Some(v) => LeaseView { address: v, ..cur },
            None => cur,
        }
    } else if k == "subnet-mask"@ {
        match value_of(l) {
            Some(v) => LeaseView { subnet_mask: Some(v), ..cur },
            None => cur,
        }
    } else if k == "routers"@ {
        match value_of(l) {
            Some(v) => LeaseView { routers: comma_list(v), ..cur },
            None => cur,
        }
    } else if k == "domain-name-servers"@ {
        match value_of(l) {
            Some(v) => LeaseView { dns_servers: comma_list(v), ..cur },
            None => cur,
        }
    } else if k == "domain-name"@ {
        match quoted_of(l) {
            Some(q) => LeaseView { domain_name: Some(q), ..cur },
            None => cur,
        }
    } else if k == "host-name"@ {
        match quoted_of(l) {
            Some(q) => LeaseView { hostname: Some(q), ..cur },
            None => cur,
        }
    } else {
        cur
    }
}

/// The parser's state: complete leases by interface, and the block being
/// read, if any.
pub struct ParseState {
    pub leases: Map<Seq<char>, LeaseView>,
    pub current: Option<LeaseView>,
}

/// One (trimmed) line: a `lease ... {` line opens a block, `}` closes it
/// and keeps the lease if it names an interface and an address, any other
/// line inside a block sets a field.
pub open spec fn step(st: ParseState, l: Seq<char>) -> ParseState {
    if starts_with(l, "lease"@) && l.contains('{') {
        ParseState {
            leases: st.leases,
            current: Some(LeaseView { address: header_address(l), ..empty_lease() }),
        }
    } else if l == "}"@ && st.current is Some {
        let c = st.current->0;
        ParseState {
            leases: if c.interface.len() > 0 && c.address.len() > 0 {
                st.leases.insert(c.interface, c)
            } else {
                st.leases
            },
            current: None,
        }
    } else if st.current is Some {
        ParseState { leases: st.leases, current: Some(apply_line(st.current->0, l)) }
    } else {
        st
    }
}

pub open spec fn parse_lines(ls: Seq<Seq<char>>) -> ParseState
    decreases ls.len(),
{
    if ls.len() == 0 {
        ParseState { leases: Map::empty(), current: None }
    } else {
        step(parse_lines(ls.drop_last()), trim(ls.last()))
    }
}

/// The leases of a lease file, by interface.
pub open spec fn parse_leases(s: Seq<char>) -> Map<Seq<char>, LeaseView> {
    parse_lines(split_char(s, '\n')).leases
}

/// The text of `s` from `from` up to `to`, as a `String`.
fn text_of(s: &str, from: usize, to: usize) -> (r: String)
    requires
        from <= to <= s@.len(),
    ensures
        r@ == s@.subrange(from as int, to as int),
{
    s.substring_char(from, to).to_owned()
}

/// The value of lines like `option routers 192.168.1.1;` or
/// `fixed-address 10.0.0.5;`.
pub fn extract_value(line: &str) -> (r: Option<String>)
    ensures
        opt_view(r) == value_of(line@),
{
    let cs = chars_of(line);
    match rfind_char(&cs, ';') {
        None => None,
        Some(p) => {
            let head = crate::text::sub_chars(&cs, 0, p);
            let ws = word_bounds(&head);
            let ghost w = words(line@.subrange(0, p as int));
            assert forall|i: int| 0 <= i < ws@.len() implies line@.subrange(
                (#[trigger] ws@[i]).0 as int,
                ws@[i].1 as int,
            ) == w[i] by {
                assert(line@.subrange(ws@[i].0 as int, ws@[i].1 as int) =~= head@.subrange(
                    ws@[i].0 as int,
                    ws@[i].1 as int,
                ));
            }
            if ws.len() >= 3 {
                let mut r = text_of(line, ws[2].0, ws[2].1);
                let mut k: usize = 3;
                while k < ws.len()
                    invariant
                        3 <= k <= ws@.len(),
                        ws@.len() == w.len(),
                        forall|i: int|
                            0 <= i < ws@.len() ==> (#[trigger] ws@[i]).0 <= ws@[i].1 <= p
                                && line@.subrange(ws@[i].0 as int, ws@[i].1 as int) == w[i],
                        p <= line@.len(),
                        r@ == join_space(w.subrange(2, k as int)),
                    decreases ws.len() - k,
                {
                    let ghost pre = r@;
                    proof {
                        reveal_strlit(" ");
                    }
                    r.append(" ");
                    let piece = line.substring_char(ws[k].0, ws[k].1);
                    r.append(piece);
                    assert(w.subrange(2, k + 1).drop_last() =~= w.subrange(2, k as int));
                    assert(r@ =~= join_space(w.subrange(2, k + 1)));
                    k = k + 1;
                }
                assert(w.subrange(2, w.len() as int) =~= w.subrange(2, k as int));
                Some(r)
            } else if ws.len() == 2 {
                Some(text_of(line, ws[1].0, ws[1].1))
            } else {
                None
            }
        },
    }
}

/// What stands between the first and the last `"` of a line such as
/// `interface "eth0";`.
pub fn extract_quoted_value(line: &str) -> (r: Option<String>)
    ensures
        opt_view(r) == quoted_of(line@),
{
    let cs = chars_of(line);
    let start = find_char(&cs, '"');
    let end = rfind_char(&cs, '"');
    match (start, end) {
        (Some(i), Some(j)) => {
            if i < j {
                Some(text_of(line, i + 1, j))
            } else {
                None
            }
        },
        _ => None,
    }
}

/// The trimmed items of a comma-separated list.
fn comma_items(v: &str) -> (r: Vec<String>)
    ensures
        strings_view(r@) == comma_list(v@),
{
    let cs = chars_of(v);
    let bs = split_bounds(&cs, ',');
    let ghost ps = split_char(v@, ',');
    let mut r: Vec<String> = Vec::new();
    let mut k: usize = 0;
    while k < bs.len()
        invariant
            cs@ == v@,
            bs@.len() == ps.len(),
            ps == split_char(v@, ','),
            forall|i: int|
                0 <= i < bs@.len() ==> (#[trigger] bs@[i]).0 <= bs@[i].1 <= cs@.len()
                    && cs@.subrange(bs@[i].0 as int, bs@[i].1 as int) == ps[i],
            k <= bs@.len(),
            r@.len() == k,
            forall|i: int| 0 <= i < k ==> (#[trigger] r@[i])@ == trim(ps[i]),
        decreases bs.len() - k,
    {
        let (a, b) = bs[k];
        let (ta, tb) = trim_range(&cs, a, b);
        r.push(text_of(v, ta, tb));
        k = k + 1;
    }
    assert(strings_view(r@) =~= comma_list(v@));
    r
}

/// No two leases of the sequence are for the same interface.
pub open spec fn leases_unique(s: Seq<Lease>) -> bool {
    forall|i: int, j: int|
        0 <= i < s.len() && 0 <= j < s.len() && i != j ==> s[i].interface@ != s[j].interface@
}

/// The leases as a map from interface.
pub open spec fn leases_map(s: Seq<Lease>) -> Map<Seq<char>, LeaseView> {
    Map::new(
        |k: Seq<char>| exists|i: int| 0 <= i < s.len() && s[i].interface@ == k,
        |k: Seq<char>| s[choose|i: int| 0 <= i < s.len() && s[i].interface@ == k]@,
    )
}

pub proof fn lemma_leases_map_at(s: Seq<Lease>, i: int)
    requires
        leases_unique(s),
        0 <= i < s.len(),
    ensures
        leases_map(s).contains_key(s[i].interface@),
        leases_map(s)[s[i].interface@] == s[i]@,
{
    let k = s[i].interface@;
    assert(exists|j: int| 0 <= j < s.len() && s[j].interface@ == k);
    let j = choose|j: int| 0 <= j < s.len() && s[j].interface@ == k;
    assert(j == i);
}

/// Sets the lease of `l.interface`, replacing the one there was.
fn put_lease(v: &mut Vec<Lease>, l: Lease)
    requires
        leases_unique(old(v)@),
    ensures
        leases_unique(final(v)@),
        leases_map(final(v)@) == leases_map(old(v)@).insert(l.interface@, l@),
{
    let ghost s = v@;
    let ghost k0 = l.interface@;
    let ghost lv = l@;
    let mut i: usize = 0;
    while i < v.len()
        invariant
            v@ == s,
            k0 == l.interface@,
            i <= s.len(),
            forall|j: int| 0 <= j < i ==> s[j].interface@ != k0,
        ensures
            i <= s.len(),
            forall|j: int| 0 <= j < i ==> s[j].interface@ != k0,
            i < s.len() ==> s[i as int].interface@ == k0,
        decreases v.len() - i,
    {
        if crate::text::str_is(v[i].interface.as_str(), l.interface.as_str()) {
            break;
        }
        i = i + 1;
    }
    if i < v.len() {
        assert(s[i as int].interface@ == k0);
        v.set(i, l);
        let ghost t = v@;
        assert(t == s.update(i as int, t[i as int]));
        assert(leases_unique(t));
        assert forall|k: Seq<char>| #[trigger]
            leases_map(t).contains_key(k) == leases_map(s).insert(k0, lv).contains_key(k) by {
            if leases_map(s).contains_key(k) {
                let j = choose|j: int| 0 <= j < s.len() && s[j].interface@ == k;
                assert(t[j].interface@ == k);
            }
            if leases_map(t).contains_key(k) {
                let j = choose|j: int| 0 <= j < t.len() && t[j].interface@ == k;
                assert(s[j].interface@ == k);
            }
        }
        assert forall|k: Seq<char>| #[trigger] leases_map(t).contains_key(k) implies leases_map(
            t,
        )[k] == leases_map(s).insert(k0, lv)[k] by {
            let j = choose|j: int| 0 <= j < t.len() && t[j].interface@ == k;
            lemma_leases_map_at(t, j);
            if j != i {
                lemma_leases_map_at(s, j);
            }
        }
        assert(leases_map(t) =~= leases_map(s).insert(k0, lv));
    } else {
        v.push(l);
        let ghost t = v@;
        assert(leases_unique(t));
        assert forall|k: Seq<char>| #[trigger]
            leases_map(t).contains_key(k) == leases_map(s).insert(k0, lv).contains_key(k) by {
            if leases_map(s).contains_key(k) {
                let j = choose|j: int| 0 <= j < s.len() && s[j].interface@ == k;
                assert(t[j].interface@ == k);
            }
            if k == k0 {
                assert(t[s.len() as int].interface@ == k);
            }
            if leases_map(t).contains_key(k) && k != k0 {
                let j = choose|j: int| 0 <= j < t.len() && t[j].interface@ == k;
                assert(s[j].interface@ == k);
            }
        }
        assert forall|k: Seq<char>| #[trigger] leases_map(t).contains_key(k) implies leases_map(
            t,
        )[k] == leases_map(s).insert(k0, lv)[k] by {
            let j = choose|j: int| 0 <= j < t.len() && t[j].interface@ == k;
            lemma_leases_map_at(t, j);
            if j < s.len() {
                lemma_leases_map_at(s, j);
            }
        }
        assert(leases_map(t) =~= leases_map(s).insert(k0, lv));
    }
}

pub open spec fn lease_opt_view(o: Option<Lease>) -> Option<LeaseView> {
    match o {
        Some(l) => Some(l@),
        None => None,
    }
}

/// The address of a `lease ADDR {` line.
fn header_addr(line: &str) -> (r: String)
    requires
        line@.len() >= 5,
    ensures
        r@ == header_address(line@),
{
    let cs = chars_of(line);
    let (a, b) = trim_range(&cs, 5, cs.len());
    if a < b && cs[b - 1] == '{' {
        let (c, d) = trim_range(&cs, a, b - 1);
        assert(cs@.subrange(a as int, b as int).drop_last() =~= cs@.subrange(a as int, b - 1));
        text_of(line, c, d)
    } else {
        String::new()
    }
}

/// Whether the line begins with the literal.
fn line_starts(lc: &Vec<char>, lit: &str) -> (r: bool)
    ensures
        r == starts_with(lc@, lit@),
{
    let p = chars_of(lit);
    let r = starts_with_at(lc, 0, &p);
    assert(lc@.subrange(0, lc@.len() as int) =~= lc@);
    r
}

/// The key of a line.
fn key_of(line: &str) -> (r: Vec<char>)
    ensures
        r@ == line_key(line@),
{
    let cs = chars_of(line);
    let ws = word_bounds(&cs);
    if ws.len() >= 2 {
        let first = crate::text::sub_chars(&cs, ws[0].0, ws[0].1);
        let option = chars_of("option");
        if chars_eq(&first, &option) {
            return crate::text::sub_chars(&cs, ws[1].0, ws[1].1);
        }
        return first;
    }
    if ws.len() == 1 {
        return crate::text::sub_chars(&cs, ws[0].0, ws[0].1);
    }
    Vec::new()
}

fn key_is(k: &Vec<char>, lit: &str) -> (r: bool)
    ensures
        r == (k@ == lit@),
{
    let p = chars_of(lit);
    chars_eq(k, &p)
}

/// The lease after one trimmed line of its block.
fn apply_line_to(cur: Lease, line: &str) -> (r: Lease)
    ensures
        r@ == apply_line(cur@, line@),
{
    let k = key_of(line);
    let mut c = cur;
    if key_is(&k, "interface") {
        if let Some(q) = extract_quoted_value(line) {
            c.interface = q;
        }
    } else if key_is(&k, "fixed-address") {
        if let Some(v) = extract_value(line) {
            c.address = v;
        }
    } else if key_is(&k, "subnet-mask") {
        if let Some(v) = extract_value(line) {
            c.subnet_mask = Some(v);
        }
    } else if key_is(&k, "routers") {
        if let Some(v) = extract_value(line) {
            c.routers = comma_items(v.as_str());
        }
    } else if key_is(&k, "domain-name-servers") {
        if let Some(v) = extract_value(line) {
            c.dns_servers = comma_items(v.as_str());
        }
    } else if key_is(&k, "domain-name") {
        if let Some(q) = extract_quoted_value(line) {
            c.domain_name = Some(q);
        }
    } else if key_is(&k, "host-name") {
        if let Some(q) = extract_quoted_value(line) {
            c.hostname = Some(q);
        }
    }
    c
}

/// A lease with every field empty but its address.
fn lease_with_address(address: String) -> (r: Lease)
    ensures
        r@ == (LeaseView { address: address@, ..empty_lease() }),
{
    let r = Lease {
        interface: String::new(),
        address,
        subnet_mask: None,
        routers: Vec::new(),
        dns_servers: Vec::new(),
        domain_name: None,
        hostname: None,
    };
    assert(strings_view(r.routers@) =~= Seq::<Seq<char>>::empty());
    assert(strings_view(r.dns_servers@) =~= Seq::<Seq<char>>::empty());
    r
}

/// The lease of an interface, if there is one.
pub fn find_lease<'a>(leases: &'a Vec<Lease>, interface: &str) -> (r: Option<&'a Lease>)
    requires
        leases_unique(leases@),
    ensures
        match r {
            Some(l) => leases_map(leases@).contains_key(interface@) && l@ == leases_map(
                leases@,
            )[interface@],
            None => !leases_map(leases@).contains_key(interface@),
        },
{
    let mut i: usize = 0;
    while i < leases.len()
        invariant
            leases_unique(leases@),
            i <= leases@.len(),
            forall|j: int| 0 <= j < i ==> leases@[j].interface@ != interface@,
        decreases leases.len() - i,
    {
        if crate::text::str_is(leases[i].interface.as_str(), interface) {
            proof {
                lemma_leases_map_at(leases@, i as int);
            }
            return Some(&leases[i]);
        }
        i = i + 1;
    }
    None
}

/// The leases of the text of a lease file: for each interface, the last
/// complete block that names it and has an address.
pub fn parse_lease_file(contents: &str) -> (r: Vec<Lease>)
    ensures
        leases_unique(r@),
        leases_map(r@) == parse_leases(contents@),
{
    let cs = chars_of(contents);
    let bs = split_bounds(&cs, '\n');
    let ghost ls = split_char(contents@, '\n');
    let close = chars_of("}");
    let mut leases: Vec<Lease> = Vec::new();
    let mut current: Option<Lease> = None;
    assert(leases_map(leases@) =~= Map::<Seq<char>, LeaseView>::empty());
    assert(ls.subrange(0, 0) =~= Seq::<Seq<char>>::empty());
    let mut k: usize = 0;
    while k < bs.len()
        invariant
            cs@ == contents@,
            close@ == "}"@,
            bs@.len() == ls.len(),
            ls == split_char(contents@, '\n'),
            forall|i: int|
                0 <= i < bs@.len() ==> (#[trigger] bs@[i]).0 <= bs@[i].1 <= cs@.len()
                    && cs@.subrange(bs@[i].0 as int, bs@[i].1 as int) == ls[i],
            k <= bs@.len(),
            leases_unique(leases@),
            leases_map(leases@) == parse_lines(ls.subrange(0, k as int)).leases,
            lease_opt_view(current) == parse_lines(ls.subrange(0, k as int)).current,
        decreases bs.len() - k,
    {
        let ghost st = parse_lines(ls.subrange(0, k as int));
        assert(ls.subrange(0, k + 1).drop_last() =~= ls.subrange(0, k as int));
        let (a, b) = bs[k];
        let (ta, tb) = trim_range(&cs, a, b);
        let line = contents.substring_char(ta, tb);
        let lc = crate::text::sub_chars(&cs, ta, tb);
        let ghost l = trim(ls[k as int]);
        assert(line@ == l && lc@ == l);
        let opens = if line_starts(&lc, "lease") {
            match find_char(&lc, '{') {
                Some(_) => true,
                None => false,
            }
        } else {
            false
        };
        assert(opens == (starts_with(l, "lease"@) && l.contains('{'))) by {
            if starts_with(l, "lease"@) {
                if l.contains('{') {
                    let j = choose|j: int| 0 <= j < l.len() && l[j] == '{';
                }
            }
        }
        if opens {
            proof {
                reveal_strlit("lease");
            }
            current = Some(lease_with_address(header_addr(line)));
        } else if chars_eq(&lc, &close) && current.is_some() {
            let c = current.unwrap();
            current = None;
            if !c.interface.as_str().is_empty() && !c.address.as_str().is_empty() {
                put_lease(&mut leases, c);
            }
        } else {
            match current {
                Some(c) => {
                    current = Some(apply_line_to(c, line));
                },
                None => {
                    current = None;
                },
            }
        }
        k = k + 1;
    }
    assert(ls.subrange(0, ls.len() as int) =~= ls);
    leases
}

} // verus!
