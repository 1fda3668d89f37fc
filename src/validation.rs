//! Validation of untrusted values before they reach hook scripts or system
//! services.

use vstd::prelude::*;
use crate::ip::{ip_text, is_ip_text};
use crate::text::{
    ascii_alnum, chars_of, is_ascii_alnum, split_at_char, split_at_space, split_char, split_space,
    str_is,
};

verus! {

/// Longest interface name the kernel takes (`IFNAMSIZ - 1`).
pub const MAX_IFNAME_LEN: usize = 15;

/// Longest host or domain name.
pub const MAX_HOSTNAME_LEN: usize = 253;

/// Longest label of a host or domain name.
pub const MAX_LABEL_LEN: usize = 63;

pub open spec fn is_ifname_char(c: char) -> bool {
    is_ascii_alnum(c) || c == '_' || c == '-' || c == '.'
}

/// 1 to 15 characters out of `[A-Za-z0-9_.-]`.
pub open spec fn valid_interface_name(s: Seq<char>) -> bool {
    &&& 1 <= s.len() <= MAX_IFNAME_LEN
    &&& forall|i: int| 0 <= i < s.len() ==> is_ifname_char(#[trigger] s[i])
}

pub open spec fn is_label_char(c: char) -> bool {
    is_ascii_alnum(c) || c == '-'
}

/// Characters out of `[A-Za-z0-9-]`, not starting or ending with `-`.
pub open spec fn label_body_ok(l: Seq<char>) -> bool {
    &&& (l.len() > 0 ==> l[0] != '-' && l.last() != '-')
    &&& forall|i: int| 0 <= i < l.len() ==> is_label_char(#[trigger] l[i])
}

/// A host name label: 1 to 63 characters, body as above.
pub open spec fn valid_host_label(l: Seq<char>) -> bool {
    1 <= l.len() <= MAX_LABEL_LEN && label_body_ok(l)
}

/// 1 to 253 characters, each dot-separated label valid.
pub open spec fn valid_hostname(s: Seq<char>) -> bool {
    let labels = split_char(s, '.');
    &&& 1 <= s.len() <= MAX_HOSTNAME_LEN
    &&& forall|i: int| 0 <= i < labels.len() ==> valid_host_label(#[trigger] labels[i])
}

/// A label without its leading `*`, if it has one.
pub open spec fn strip_wildcard(l: Seq<char>) -> Seq<char> {
    if l.len() > 0 && l[0] == '*' {
        l.drop_first()
    } else {
        l
    }
}

/// A domain name label: as a host label, but it may start with `*`.
pub open spec fn valid_domain_label(l: Seq<char>) -> bool {
    1 <= l.len() <= MAX_LABEL_LEN && label_body_ok(strip_wildcard(l))
}

pub open spec fn valid_domain_name(s: Seq<char>) -> bool {
    let labels = split_char(s, '.');
    &&& 1 <= s.len() <= MAX_HOSTNAME_LEN
    &&& forall|i: int| 0 <= i < labels.len() ==> valid_domain_label(#[trigger] labels[i])
}

/// Empty, or whitespace-separated IP addresses.
pub open spec fn valid_ip_list(s: Seq<char>) -> bool {
    let words = split_space(s);
    forall|i: int| 0 <= i < words.len() ==> (#[trigger] words[i]).len() == 0 || is_ip_text(words[i])
}

/// Characters a shell would act on.
pub open spec fn is_shell_meta(c: char) -> bool {
    c == '$' || c == '`' || c == '\\' || c == '"' || c == '\'' || c == ';' || c == '&' || c == '|'
        || c == '<' || c == '>' || c == '\n' || c == '\r' || c == '\0'
}

/// A value that holds no shell metacharacter.
pub open spec fn safe_env_value(s: Seq<char>) -> bool {
    forall|i: int| 0 <= i < s.len() ==> !is_shell_meta(#[trigger] s[i])
}

/// The closed set of names of script directories.
pub open spec fn valid_state_name(s: Seq<char>) -> bool {
    s == "carrier"@ || s == "no-carrier"@ || s == "configured"@ || s == "degraded"@ || s
        == "routable"@ || s == "activated"@ || s == "disconnected"@ || s == "manager"@ || s
        == "routes"@
}

/// Whether `name` may stand as an interface name.
pub fn validate_interface_name(name: &str) -> (r: bool)
    ensures
        r == valid_interface_name(name@),
{
    let cs = chars_of(name);
    if cs.len() == 0 || cs.len() > MAX_IFNAME_LEN {
        return false;
    }
    let mut i: usize = 0;
    while i < cs.len()
        invariant
            cs@ == name@,
            i <= cs@.len(),
            forall|j: int| 0 <= j < i ==> is_ifname_char(#[trigger] cs@[j]),
        decreases cs.len() - i,
    {
        let c = cs[i];
        if !(ascii_alnum(c) || c == '_' || c == '-' || c == '.') {
            return false;
        }
        i = i + 1;
    }
    true
}

fn label_body(l: &Vec<char>, from: usize) -> (r: bool)
    requires
        from <= l@.len(),
    ensures
        r == label_body_ok(l@.subrange(from as int, l@.len() as int)),
{
    let ghost b = l@.subrange(from as int, l@.len() as int);
    let n = l.len();
    if from < n && (l[from] == '-' || l[n - 1] == '-') {
        return false;
    }
    let mut i: usize = from;
    while i < n
        invariant
            n == l@.len(),
            from <= i <= n,
            b == l@.subrange(from as int, n as int),
            forall|j: int| 0 <= j < i - from ==> is_label_char(#[trigger] b[j]),
        decreases n - i,
    {
        let c = l[i];
        if !(ascii_alnum(c) || c == '-') {
            assert(b[i - from] == c);
            return false;
        }
        i = i + 1;
    }
    true
}

/// Whether `hostname` may stand as a host name.
pub fn validate_hostname(hostname: &str) -> (r: bool)
    ensures
        r == valid_hostname(hostname@),
{
    let cs = chars_of(hostname);
    if cs.len() == 0 || cs.len() > MAX_HOSTNAME_LEN {
        return false;
    }
    let labels = split_at_char(&cs, '.');
    let ghost ls = split_char(hostname@, '.');
    let mut i: usize = 0;
    while i < labels.len()
        invariant
            cs@ == hostname@,
            ls == split_char(hostname@, '.'),
            labels@.len() == ls.len(),
            forall|j: int| 0 <= j < labels@.len() ==> #[trigger] labels@[j]@ == ls[j],
            i <= labels@.len(),
            forall|j: int| 0 <= j < i ==> valid_host_label(#[trigger] ls[j]),
        decreases labels.len() - i,
    {
        let l = &labels[i];
        assert(l@ == ls[i as int]);
        if l.len() == 0 || l.len() > MAX_LABEL_LEN {
            return false;
        }
        let ok = label_body(l, 0);
        assert(l@.subrange(0, l@.len() as int) =~= l@);
        if !ok {
            return false;
        }
        i = i + 1;
    }
    true
}

/// Whether `domain` may stand as a domain name; labels may start with `*`.
pub fn validate_domain_name(domain: &str) -> (r: bool)
    ensures
        r == valid_domain_name(domain@),
{
    let cs = chars_of(domain);
    if cs.len() == 0 || cs.len() > MAX_HOSTNAME_LEN {
        return false;
    }
    let labels = split_at_char(&cs, '.');
    let ghost ls = split_char(domain@, '.');
    let mut i: usize = 0;
    while i < labels.len()
        invariant
            cs@ == domain@,
            ls == split_char(domain@, '.'),
            labels@.len() == ls.len(),
            forall|j: int| 0 <= j < labels@.len() ==> #[trigger] labels@[j]@ == ls[j],
            i <= labels@.len(),
            forall|j: int| 0 <= j < i ==> valid_domain_label(#[trigger] ls[j]),
        decreases labels.len() - i,
    {
        let l = &labels[i];
        assert(l@ == ls[i as int]);
        if l.len() == 0 || l.len() > MAX_LABEL_LEN {
            return false;
        }
        let from: usize = if l[0] == '*' {
            1
        } else {
            0
        };
        let ok = label_body(l, from);
        assert(l@.subrange(0, l@.len() as int) =~= l@);
        assert(l@.subrange(1, l@.len() as int) =~= l@.drop_first());
        if !ok {
            return false;
        }
        i = i + 1;
    }
    true
}

/// Whether `addr` is an IPv4 or IPv6 address.
pub fn validate_ip_address(addr: &str) -> (r: bool)
    ensures
        r == is_ip_text(addr@),
{
    let cs = chars_of(addr);
    ip_text(&cs)
}

/// Whether `list` is empty or a whitespace-separated list of IP addresses.
pub fn validate_ip_list(list: &str) -> (r: bool)
    ensures
        r == valid_ip_list(list@),
{
    let cs = chars_of(list);
    let words = split_at_space(&cs);
    let ghost ws = split_space(list@);
    let mut i: usize = 0;
    while i < words.len()
        invariant
            cs@ == list@,
            ws == split_space(list@),
            words@.len() == ws.len(),
            forall|j: int| 0 <= j < words@.len() ==> #[trigger] words@[j]@ == ws[j],
            i <= words@.len(),
            forall|j: int| 0 <= j < i ==> (#[trigger] ws[j]).len() == 0 || is_ip_text(ws[j]),
        decreases words.len() - i,
    {
        let w = &words[i];
        assert(w@ == ws[i as int]);
        if w.len() != 0 && !ip_text(w) {
            return false;
        }
        i = i + 1;
    }
    true
}

/// The value itself when it holds no shell metacharacter, else `None`.
pub fn sanitize_env_value(value: &str) -> (r: Option<String>)
    ensures
        r is Some <==> safe_env_value(value@),
        r matches Some(v) ==> v@ == value@,
{
    let cs = chars_of(value);
    let mut i: usize = 0;
    while i < cs.len()
        invariant
            cs@ == value@,
            i <= cs@.len(),
            forall|j: int| 0 <= j < i ==> !is_shell_meta(#[trigger] cs@[j]),
        decreases cs.len() - i,
    {
        let c = cs[i];
        if c == '$' || c == '`' || c == '\\' || c == '"' || c == '\'' || c == ';' || c == '&' || c
            == '|' || c == '<' || c == '>' || c == '\n' || c == '\r' || c == '\0' {
            return None;
        }
        i = i + 1;
    }
    Some(value.to_owned())
}

/// Whether `state` names one of the script directories.
pub fn validate_state_name(state: &str) -> (r: bool)
    ensures
        r == valid_state_name(state@),
{
    str_is(state, "carrier") || str_is(state, "no-carrier") || str_is(state, "configured")
        || str_is(state, "degraded") || str_is(state, "routable") || str_is(state, "activated")
        || str_is(state, "disconnected") || str_is(state, "manager") || str_is(state, "routes")
}

/// Every value that holds a shell metacharacter, and so every value that
/// holds `$(` or a backtick, is refused.
pub proof fn sanitize_rejects_metacharacters(s: Seq<char>, i: int)
    requires
        0 <= i < s.len(),
        is_shell_meta(s[i]),
    ensures
        !safe_env_value(s),
{
    assert(!is_shell_meta(s[i]) ==> false);
}

/// An interface name of fifteen valid characters is taken; one of sixteen
/// is refused.
pub proof fn interface_name_length_bound(s: Seq<char>)
    requires
        forall|i: int| 0 <= i < s.len() ==> is_ifname_char(#[trigger] s[i]),
    ensures
        s.len() == 15 ==> valid_interface_name(s),
        s.len() == 16 ==> !valid_interface_name(s),
{
}

/// A one-label host name of 63 valid characters is taken; one of 64 is
/// refused.
pub proof fn hostname_label_length_bound(s: Seq<char>)
    requires
        forall|i: int| 0 <= i < s.len() ==> is_ascii_alnum(#[trigger] s[i]),
    ensures
        s.len() == 63 ==> valid_hostname(s),
        s.len() == 64 ==> !valid_hostname(s),
{
    crate::text::lemma_split_char_none(s, '.');
    let labels = split_char(s, '.');
    assert(labels =~= seq![s]);
    if s.len() == 63 {
        assert(label_body_ok(s));
        assert(valid_host_label(labels[0]));
    }
    if s.len() == 64 {
        assert(!valid_host_label(labels[0]));
    }
}

} // verus!
