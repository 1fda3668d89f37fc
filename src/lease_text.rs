//! Writing leases back as a lease file, and what reading that file gives.

use vstd::prelude::*;
use crate::lease::{
    empty_lease, header_address, leases_map, leases_unique, parse_leases, parse_lines, step,
    strings_view, Lease, LeaseView,
};
use crate::text::{
    is_space, non_empty, split_char, split_space, starts_with, trim, trim_end, trim_start,
    words,
};

verus! {

/// Pieces joined with `sep` between each two.
pub open spec fn join_with(ps: Seq<Seq<char>>, sep: char) -> Seq<char>
    decreases ps.len(),
{
    if ps.len() == 0 {
        Seq::empty()
    } else if ps.len() == 1 {
        ps[0]
    } else {
        join_with(ps.drop_last(), sep) + seq![sep] + ps.last()
    }
}

/// Splitting at a separator splits each side apart.
pub proof fn lemma_split_char_concat(x: Seq<char>, sep: char, y: Seq<char>)
    ensures
        split_char(x + seq![sep] + y, sep) == split_char(x, sep) + split_char(y, sep),
    decreases y.len(),
{
    crate::text::lemma_split_char_len(y, sep);
    if y.len() == 0 {
        assert((x + seq![sep] + y).drop_last() =~= x);
        assert(split_char(y, sep) =~= seq![Seq::<char>::empty()]);
        assert(split_char(x + seq![sep] + y, sep) =~= split_char(x, sep) + split_char(y, sep));
    } else {
        let z = x + seq![sep] + y;
        assert(z.drop_last() =~= x + seq![sep] + y.drop_last());
        lemma_split_char_concat(x, sep, y.drop_last());
        crate::text::lemma_split_char_len(y.drop_last(), sep);
        assert(z.last() == y.last());
        assert(split_char(z, sep) =~= split_char(x, sep) + split_char(y, sep));
    }
}

/// Splitting joined pieces that hold no separator gives the pieces back.
pub proof fn lemma_split_join(ps: Seq<Seq<char>>, sep: char)
    requires
        ps.len() >= 1,
        forall|i: int, j: int| 0 <= i < ps.len() && 0 <= j < ps[i].len() ==> ps[i][j] != sep,
    ensures
        split_char(join_with(ps, sep), sep) == ps,
    decreases ps.len(),
{
    if ps.len() == 1 {
        crate::text::lemma_split_char_none(ps[0], sep);
        assert(seq![ps[0]] =~= ps);
    } else {
        lemma_split_join(ps.drop_last(), sep);
        lemma_split_char_concat(join_with(ps.drop_last(), sep), sep, ps.last());
        crate::text::lemma_split_char_none(ps.last(), sep);
        assert(ps.drop_last() + seq![ps.last()] =~= ps);
    }
}

/// The parser's state after lines, from a given state.
pub open spec fn run(st: crate::lease::ParseState, ls: Seq<Seq<char>>) -> crate::lease::ParseState
    decreases ls.len(),
{
    if ls.len() == 0 {
        st
    } else {
        step(run(st, ls.drop_last()), trim(ls.last()))
    }
}

pub proof fn lemma_run_concat(st: crate::lease::ParseState, a: Seq<Seq<char>>, b: Seq<Seq<char>>)
    ensures
        run(st, a + b) == run(run(st, a), b),
    decreases b.len(),
{
    if b.len() == 0 {
        assert(a + b =~= a);
    } else {
        assert((a + b).drop_last() =~= a + b.drop_last());
        lemma_run_concat(st, a, b.drop_last());
    }
}

pub proof fn lemma_parse_lines_run(ls: Seq<Seq<char>>)
    ensures
        parse_lines(ls) == run(crate::lease::ParseState { leases: Map::empty(), current: None }, ls),
    decreases ls.len(),
{
    if ls.len() > 0 {
        lemma_parse_lines_run(ls.drop_last());
    }
}



/// A text that neither begins nor ends with whitespace is its own trim.
pub proof fn lemma_trim_plain(s: Seq<char>)
    requires
        s.len() > 0,
        !is_space(s[0]),
        !is_space(s.last()),
    ensures
        trim(s) == s,
{
}

/// The split of a text at whitespace, across one space.
pub proof fn lemma_split_space_concat(x: Seq<char>, y: Seq<char>)
    ensures
        split_space(x + seq![' '] + y) == split_space(x) + split_space(y),
    decreases y.len(),
{
    crate::text::lemma_split_space_len(y);
    if y.len() == 0 {
        assert((x + seq![' '] + y).drop_last() =~= x);
        assert(split_space(y) =~= seq![Seq::<char>::empty()]);
        assert(split_space(x + seq![' '] + y) =~= split_space(x) + split_space(y));
    } else {
        let z = x + seq![' '] + y;
        assert(z.drop_last() =~= x + seq![' '] + y.drop_last());
        lemma_split_space_concat(x, y.drop_last());
        crate::text::lemma_split_space_len(y.drop_last());
        assert(z.last() == y.last());
        assert(split_space(z) =~= split_space(x) + split_space(y));
    }
}

pub proof fn lemma_non_empty_concat(a: Seq<Seq<char>>, b: Seq<Seq<char>>)
    ensures
        non_empty(a + b) == non_empty(a) + non_empty(b),
    decreases b.len(),
{
    if b.len() == 0 {
        assert(a + b =~= a);
        assert(non_empty(a) + non_empty(b) =~= non_empty(a));
    } else {
        assert((a + b).drop_last() =~= a + b.drop_last());
        lemma_non_empty_concat(a, b.drop_last());
        if b.last().len() > 0 {
            assert(non_empty(a) + non_empty(b) =~= (non_empty(a) + non_empty(b.drop_last())).push(
                b.last(),
            ));
        }
    }
}

/// A token: non-empty, without whitespace.
pub open spec fn token(s: Seq<char>) -> bool {
    s.len() > 0 && forall|i: int| 0 <= i < s.len() ==> !is_space(#[trigger] s[i])
}

pub proof fn lemma_words_token(s: Seq<char>)
    requires
        token(s),
    ensures
        words(s) == seq![s],
    decreases s.len(),
{
    lemma_split_space_none(s);
    assert(seq![s].drop_last() =~= Seq::<Seq<char>>::empty());
    assert(seq![s].last() == s);
    assert(non_empty(seq![s]) == non_empty(Seq::<Seq<char>>::empty()).push(s));
    assert(Seq::<Seq<char>>::empty().push(s) =~= seq![s]);
}

proof fn lemma_split_space_none(s: Seq<char>)
    requires
        forall|i: int| 0 <= i < s.len() ==> !is_space(#[trigger] s[i]),
    ensures
        split_space(s) == seq![s],
    decreases s.len(),
{
    if s.len() > 0 {
        lemma_split_space_none(s.drop_last());
        assert(s.drop_last().push(s.last()) =~= s);
    } else {
        assert(s =~= Seq::<char>::empty());
    }
}

/// The words of a token, a space and more text.
pub proof fn lemma_words_cons(t: Seq<char>, y: Seq<char>)
    requires
        token(t),
    ensures
        words(t + seq![' '] + y) == seq![t] + words(y),
{
    lemma_split_space_concat(t, y);
    lemma_non_empty_concat(split_space(t), split_space(y));
    lemma_words_token(t);
}

pub open spec fn header_line(a: Seq<char>) -> Seq<char> {
    "lease "@ + a + " {"@
}

pub proof fn lemma_header_step(st: crate::lease::ParseState, a: Seq<char>)
    requires
        token(a),
    ensures
        step(st, trim(header_line(a))) == (crate::lease::ParseState {
            leases: st.leases,
            current: Some(LeaseView { address: a, ..empty_lease() }),
        }),
{
    reveal_strlit("lease ");
    reveal_strlit(" {");
    reveal_strlit("lease");
    let l = header_line(a);
    assert(l[0] == 'l');
    assert(l.last() == '{');
    lemma_trim_plain(l);
    assert(l.subrange(0, 5) =~= "lease"@);
    assert(l.contains('{')) by {
        assert(l[l.len() - 1] == '{');
    }
    let r0 = l.subrange(5, l.len() as int);
    let y = a + " {"@;
    assert(r0 =~= seq![' '] + y);
    assert(r0.drop_first() =~= y);
    assert(trim_start(r0) == trim_start(y));
    assert(!is_space(y[0]));
    assert(trim_start(y) == y);
    assert(!is_space(y.last()));
    assert(trim_end(y) == y);
    assert(trim(r0) == y);
    assert(y.last() == '{');
    let z = y.drop_last();
    assert(z =~= a + seq![' ']);
    assert(z.drop_last() =~= a);
    assert(trim_start(z) == z);
    assert(trim_end(z) == trim_end(a));
    assert(trim_end(a) == a);
    assert(header_address(l) == a);
}

pub open spec fn iface_line(i: Seq<char>) -> Seq<char> {
    "interface \""@ + i + "\";"@
}


/// A character of an address list item: a hex digit, `.` or `:`.
pub open spec fn item_char(c: char) -> bool {
    crate::text::is_hex_digit(c) || c == '.' || c == ':'
}

/// A non-empty list of non-empty address items.
pub open spec fn item_list(r: Seq<Seq<char>>) -> bool {
    &&& r.len() > 0
    &&& forall|k: int| 0 <= k < r.len() ==> (#[trigger] r[k]).len() > 0
    &&& forall|k: int, j: int| 0 <= k < r.len() && 0 <= j < r[k].len() ==> item_char(#[trigger] r[k][j])
}

proof fn lemma_join_chars(r: Seq<Seq<char>>)
    requires
        item_list(r),
    ensures
        join_with(r, ',').len() > 0,
        forall|i: int|
            0 <= i < join_with(r, ',').len() ==> #[trigger] join_with(r, ',')[i] == ',' || item_char(
                join_with(r, ',')[i],
            ),
    decreases r.len(),
{
    if r.len() == 1 {
        assert(r[0].len() > 0);
        assert forall|i: int| 0 <= i < r[0].len() implies item_char(#[trigger] r[0][i]) by {}
    } else {
        let r1 = r.drop_last();
        assert(item_list(r1)) by {
            assert forall|k: int, j: int| 0 <= k < r1.len() && 0 <= j < r1[k].len() implies item_char(
                #[trigger] r1[k][j],
            ) by {
                assert(r1[k] == r[k]);
            }
            assert forall|k: int| 0 <= k < r1.len() implies (#[trigger] r1[k]).len() > 0 by {
                assert(r1[k] == r[k]);
            }
        }
        lemma_join_chars(r1);
        let j1 = join_with(r1, ',');
        let lst = r.last();
        assert forall|i: int| 0 <= i < join_with(r, ',').len() implies #[trigger] join_with(r, ',')[i]
            == ',' || item_char(join_with(r, ',')[i]) by {
            if i > j1.len() {
                assert(join_with(r, ',')[i] == lst[i - j1.len() - 1]);
                assert(lst == r[r.len() - 1]);
                assert(item_char(r[r.len() - 1][i - j1.len() - 1]));
            }
        }
    }
}

proof fn lemma_items_split(r: Seq<Seq<char>>)
    requires
        item_list(r),
    ensures
        split_char(join_with(r, ','), ',').map_values(|p: Seq<char>| trim(p)) == r,
{
    assert forall|i: int, j: int| 0 <= i < r.len() && 0 <= j < r[i].len() implies r[i][j] != ',' by {
        assert(item_char(r[i][j]));
    }
    lemma_split_join(r, ',');
    assert forall|k: int| 0 <= k < r.len() implies trim(r[k]) == r[k] by {
        assert(r[k].len() > 0);
        assert(item_char(r[k][0]));
        assert(item_char(r[k][r[k].len() - 1]));
        lemma_trim_plain(r[k]);
    }
    assert(r.map_values(|p: Seq<char>| trim(p)) =~= r);
}

pub open spec fn addr_line(a: Seq<char>) -> Seq<char> {
    "fixed-address "@ + a + ";"@
}


pub open spec fn mask_line(m: Seq<char>) -> Seq<char> {
    "option subnet-mask "@ + m + ";"@
}


pub open spec fn list_line(key: Seq<char>, r: Seq<Seq<char>>) -> Seq<char> {
    "option "@ + key + " "@ + join_with(r, ',') + ";"@
}

/// A list line's value, and what it holds of some characters.
proof fn lemma_list_line(key: Seq<char>, r: Seq<Seq<char>>)
    requires
        token(key),
        item_list(r),
    ensures
        ({
            let l = list_line(key, r);
            &&& l[0] == 'o'
            &&& l.last() == ';'
            &&& l.len() > 9
            &&& trim(l) == l
            &&& crate::lease::value_of(l) == Some(join_with(r, ','))
            &&& crate::lease::comma_list(join_with(r, ',')) == r
            &&& crate::lease::line_key(l) == key
        }),
{
    reveal_strlit("option ");
    reveal_strlit("option");
    reveal_strlit(" ");
    reveal_strlit(";");
    let l = list_line(key, r);
    let j = join_with(r, ',');
    lemma_join_chars(r);
    assert(l[0] == 'o');
    assert(l.last() == ';');
    lemma_trim_plain(l);
    let o = "option"@;
    assert(token(o));
    assert(token(j)) by {
        assert forall|i: int| 0 <= i < j.len() implies !is_space(#[trigger] j[i]) by {
            assert(j[i] == ',' || item_char(j[i]));
        }
    }
    assert(l.subrange(0, l.len() - 1) =~= o + seq![' '] + (key + seq![' '] + j));
    lemma_words_cons(o, key + seq![' '] + j);
    lemma_words_cons(key, j);
    lemma_words_token(j);
    let ws = words(l.subrange(0, l.len() - 1));
    assert(ws =~= seq![o, key, j]);
    assert(ws.subrange(2, 3) =~= seq![j]);
    lemma_items_split(r);
    assert(l =~= o + seq![' '] + (key + seq![' '] + (j + ";"@)));
    lemma_option_key(key, j + ";"@);
}





pub open spec fn quoted_line(key: Seq<char>, x: Seq<char>) -> Seq<char> {
    "option "@ + key + " \""@ + x + "\";"@
}

/// What a `option NAME "VALUE";` line gives and holds.
proof fn lemma_quoted_line(key: Seq<char>, x: Seq<char>)
    requires
        token(key),
        key.len() >= 9,
        !key.contains('"'),
    ensures
        ({
            let l = quoted_line(key, x);
            &&& l[0] == 'o'
            &&& l.last() == ';'
            &&& l.len() > 13
            &&& trim(l) == l
            &&& crate::lease::quoted_of(l) == Some(x)
            &&& crate::lease::line_key(l) == key
        }),
{
    reveal_strlit("option ");
    reveal_strlit(" \"");
    reveal_strlit("\";");
    reveal_strlit(" ");
    let l = quoted_line(key, x);
    assert(l[0] == 'o');
    assert(l.last() == ';');
    lemma_trim_plain(l);
    let q: int = 8 + key.len() as int;
    assert forall|j: int| 0 <= j < q implies l[j] != '"' by {
        if j < 7 {
            assert(l[j] == "option "@[j]);
        } else if j < 7 + key.len() {
            assert(l[j] == key[j - 7]);
        } else {
            assert(l[j] == ' ');
        }
    }
    assert(l[q] == '"');
    crate::text::lemma_first_index(l, '"', q);
    assert forall|j: int| l.len() - 1 <= j < l.len() implies l[j] != '"' by {
        assert(l[j] == ';');
    }
    assert(l[l.len() - 2] == '"');
    crate::text::lemma_last_index(l, '"', l.len() - 1);
    assert(l.subrange(q + 1, l.len() - 2) =~= x);
    reveal_strlit("option");
    let o = "option"@;
    assert(token(o));
    assert(l =~= o + seq![' '] + (key + seq![' '] + (seq!['"'] + x + "\";"@)));
    lemma_option_key(key, seq!['"'] + x + "\";"@);
}





/// The key of `option KEY REST`.
proof fn lemma_option_key(key: Seq<char>, rest: Seq<char>)
    requires
        token(key),
    ensures
        crate::lease::line_key("option"@ + seq![' '] + (key + seq![' '] + rest)) == key,
{
    reveal_strlit("option");
    let o = "option"@;
    assert(token(o));
    lemma_words_cons(o, key + seq![' '] + rest);
    lemma_words_cons(key, rest);
    let ws = words(o + seq![' '] + (key + seq![' '] + rest));
    assert(ws =~= seq![o] + (seq![key] + words(rest)));
    assert(ws[0] == o && ws[1] == key);
}

/// The key of `WORD REST`, for a word other than `option`.
proof fn lemma_word_key(w: Seq<char>, rest: Seq<char>)
    requires
        token(w),
        w.len() != 6,
    ensures
        crate::lease::line_key(w + seq![' '] + rest) == w,
{
    reveal_strlit("option");
    lemma_words_cons(w, rest);
    let ws = words(w + seq![' '] + rest);
    assert(ws[0] == w);
    assert(w != "option"@);
}

/// The keys of the grammar differ from each other.
proof fn lemma_keys_differ()
    ensures
        "interface"@ != "fixed-address"@,
        "interface"@ != "subnet-mask"@,
        "interface"@ != "routers"@,
        "interface"@ != "domain-name-servers"@,
        "interface"@ != "domain-name"@,
        "interface"@ != "host-name"@,
        "fixed-address"@ != "subnet-mask"@,
        "fixed-address"@ != "routers"@,
        "fixed-address"@ != "domain-name-servers"@,
        "fixed-address"@ != "domain-name"@,
        "fixed-address"@ != "host-name"@,
        "subnet-mask"@ != "routers"@,
        "subnet-mask"@ != "domain-name-servers"@,
        "subnet-mask"@ != "domain-name"@,
        "subnet-mask"@ != "host-name"@,
        "routers"@ != "domain-name-servers"@,
        "routers"@ != "domain-name"@,
        "routers"@ != "host-name"@,
        "domain-name-servers"@ != "domain-name"@,
        "domain-name-servers"@ != "host-name"@,
        "domain-name"@ != "host-name"@,
{
    reveal_strlit("interface");
    reveal_strlit("fixed-address");
    reveal_strlit("subnet-mask");
    reveal_strlit("routers");
    reveal_strlit("domain-name-servers");
    reveal_strlit("domain-name");
    reveal_strlit("host-name");
    assert("interface"@.len() == 9 && "fixed-address"@.len() == 13 && "subnet-mask"@.len() == 11);
    assert("routers"@.len() == 7 && "domain-name-servers"@.len() == 19);
    assert("domain-name"@.len() == 11 && "host-name"@.len() == 9);
    assert("interface"@[0] != "host-name"@[0]);
    assert("subnet-mask"@[0] != "domain-name"@[0]);
}

/// A line that is neither a block's start nor its end.
proof fn lemma_inner_line(l: Seq<char>)
    requires
        l.len() > 1,
        l[0] != 'l',
        !is_space(l[0]),
        !is_space(l.last()),
    ensures
        trim(l) == l,
        !starts_with(l, "lease"@),
        l != "}"@,
{
    reveal_strlit("lease");
    reveal_strlit("}");
    lemma_trim_plain(l);
    if l.len() >= 5 {
        assert(l.subrange(0, 5)[0] != "lease"@[0]);
    }
}

pub proof fn lemma_iface_step(st: crate::lease::ParseState, c: LeaseView, i: Seq<char>)
    requires
        st.current == Some(c),
    ensures
        step(st, trim(iface_line(i))) == (crate::lease::ParseState {
            leases: st.leases,
            current: Some(LeaseView { interface: i, ..c }),
        }),
{
    reveal_strlit("interface \"");
    reveal_strlit("\";");
    reveal_strlit("interface");
    let l = iface_line(i);
    lemma_inner_line(l);
    let w = "interface"@;
    assert(token(w));
    assert(l =~= w + seq![' '] + (seq!['"'] + i + "\";"@));
    lemma_word_key(w, seq!['"'] + i + "\";"@);
    assert forall|j: int| 0 <= j < 10 implies l[j] != '"' by {
        assert(l[j] == "interface \""@[j]);
    }
    assert(l[10] == '"');
    crate::text::lemma_first_index(l, '"', 10);
    assert forall|j: int| l.len() - 1 <= j < l.len() implies l[j] != '"' by {
        assert(l[j] == ';');
    }
    assert(l[l.len() - 2] == '"');
    crate::text::lemma_last_index(l, '"', l.len() - 1);
    assert(l.subrange(11, l.len() - 2) =~= i);
}

pub proof fn lemma_addr_step(st: crate::lease::ParseState, c: LeaseView, a: Seq<char>)
    requires
        st.current == Some(c),
        token(a),
    ensures
        step(st, trim(addr_line(a))) == (crate::lease::ParseState {
            leases: st.leases,
            current: Some(LeaseView { address: a, ..c }),
        }),
{
    reveal_strlit("fixed-address ");
    reveal_strlit("fixed-address");
    reveal_strlit(";");
    let l = addr_line(a);
    lemma_inner_line(l);
    lemma_keys_differ();
    let t = "fixed-address"@;
    assert(token(t));
    assert(l =~= t + seq![' '] + (a + ";"@));
    lemma_word_key(t, a + ";"@);
    assert(l.subrange(0, l.len() - 1) =~= t + seq![' '] + a);
    lemma_words_cons(t, a);
    lemma_words_token(a);
    assert(words(l.subrange(0, l.len() - 1)) =~= seq![t, a]);
}

pub proof fn lemma_mask_step(st: crate::lease::ParseState, c: LeaseView, m: Seq<char>)
    requires
        st.current == Some(c),
        token(m),
    ensures
        step(st, trim(mask_line(m))) == (crate::lease::ParseState {
            leases: st.leases,
            current: Some(LeaseView { subnet_mask: Some(m), ..c }),
        }),
{
    reveal_strlit("option subnet-mask ");
    reveal_strlit("option");
    reveal_strlit("subnet-mask");
    reveal_strlit(";");
    let l = mask_line(m);
    lemma_inner_line(l);
    lemma_keys_differ();
    let o = "option"@;
    let sm = "subnet-mask"@;
    assert(token(o));
    assert(token(sm));
    assert(l =~= o + seq![' '] + (sm + seq![' '] + (m + ";"@)));
    lemma_option_key(sm, m + ";"@);
    assert(l.subrange(0, l.len() - 1) =~= o + seq![' '] + (sm + seq![' '] + m));
    lemma_words_cons(o, sm + seq![' '] + m);
    lemma_words_cons(sm, m);
    lemma_words_token(m);
    let ws = words(l.subrange(0, l.len() - 1));
    assert(ws =~= seq![o, sm, m]);
    assert(ws.subrange(2, 3) =~= seq![m]);
}

pub proof fn lemma_routers_step(st: crate::lease::ParseState, c: LeaseView, r: Seq<Seq<char>>)
    requires
        st.current == Some(c),
        item_list(r),
    ensures
        step(st, trim(list_line("routers"@, r))) == (crate::lease::ParseState {
            leases: st.leases,
            current: Some(LeaseView { routers: r, ..c }),
        }),
{
    reveal_strlit("routers");
    let key = "routers"@;
    assert(token(key));
    lemma_list_line(key, r);
    let l = list_line(key, r);
    lemma_inner_line(l);
    lemma_keys_differ();
}

pub proof fn lemma_dns_step(st: crate::lease::ParseState, c: LeaseView, r: Seq<Seq<char>>)
    requires
        st.current == Some(c),
        item_list(r),
    ensures
        step(st, trim(list_line("domain-name-servers"@, r))) == (crate::lease::ParseState {
            leases: st.leases,
            current: Some(LeaseView { dns_servers: r, ..c }),
        }),
{
    reveal_strlit("domain-name-servers");
    let key = "domain-name-servers"@;
    assert(token(key));
    lemma_list_line(key, r);
    let l = list_line(key, r);
    lemma_inner_line(l);
    lemma_keys_differ();
}

pub proof fn lemma_domain_step(st: crate::lease::ParseState, c: LeaseView, x: Seq<char>)
    requires
        st.current == Some(c),
    ensures
        step(st, trim(quoted_line("domain-name"@, x))) == (crate::lease::ParseState {
            leases: st.leases,
            current: Some(LeaseView { domain_name: Some(x), ..c }),
        }),
{
    reveal_strlit("domain-name");
    let key = "domain-name"@;
    assert(token(key));
    lemma_quoted_line(key, x);
    let l = quoted_line(key, x);
    lemma_inner_line(l);
    lemma_keys_differ();
}

pub proof fn lemma_host_step(st: crate::lease::ParseState, c: LeaseView, x: Seq<char>)
    requires
        st.current == Some(c),
    ensures
        step(st, trim(quoted_line("host-name"@, x))) == (crate::lease::ParseState {
            leases: st.leases,
            current: Some(LeaseView { hostname: Some(x), ..c }),
        }),
{
    reveal_strlit("host-name");
    let key = "host-name"@;
    assert(token(key));
    lemma_quoted_line(key, x);
    let l = quoted_line(key, x);
    lemma_inner_line(l);
    lemma_keys_differ();
}

pub proof fn lemma_close_step(st: crate::lease::ParseState, c: LeaseView)
    requires
        st.current == Some(c),
        c.interface.len() > 0,
        c.address.len() > 0,
    ensures
        step(st, trim("}"@)) == (crate::lease::ParseState {
            leases: st.leases.insert(c.interface, c),
            current: None,
        }),
{
    reveal_strlit("}");
    reveal_strlit("lease");
    lemma_trim_plain("}"@);
}

/// A lease whose fields the lease grammar reads back unchanged: an
/// interface name and a domain or host name without a newline; an address
/// and mask that are single words; address lists of hex digits, `.` and
/// `:`.
pub open spec fn plain_lease(l: LeaseView) -> bool {
    &&& l.interface.len() > 0
    &&& forall|i: int| 0 <= i < l.interface.len() ==> l.interface[i] != '\n'
    &&& token(l.address)
    &&& (l.subnet_mask matches Some(m) ==> token(m))
    &&& (l.routers.len() > 0 ==> item_list(l.routers))
    &&& (l.dns_servers.len() > 0 ==> item_list(l.dns_servers))
    &&& (l.domain_name matches Some(d) ==> no_newline(d))
    &&& (l.hostname matches Some(h) ==> no_newline(h))
}

/// The lines that stand for a lease.
pub open spec fn lease_lines(l: LeaseView) -> Seq<Seq<char>> {
    let s0 = seq![header_line(l.address), iface_line(l.interface), addr_line(l.address)];
    let s1 = match l.subnet_mask {
        Some(m) => s0.push(mask_line(m)),
        None => s0,
    };
    let s2 = if l.routers.len() > 0 {
        s1.push(list_line("routers"@, l.routers))
    } else {
        s1
    };
    let s3 = if l.dns_servers.len() > 0 {
        s2.push(list_line("domain-name-servers"@, l.dns_servers))
    } else {
        s2
    };
    let s4 = match l.domain_name {
        Some(d) => s3.push(quoted_line("domain-name"@, d)),
        None => s3,
    };
    let s5 = match l.hostname {
        Some(h) => s4.push(quoted_line("host-name"@, h)),
        None => s4,
    };
    s5.push("}"@)
}

/// The lines of all leases, in order.
pub open spec fn all_lines(ls: Seq<LeaseView>) -> Seq<Seq<char>>
    decreases ls.len(),
{
    if ls.len() == 0 {
        Seq::empty()
    } else {
        all_lines(ls.drop_last()) + lease_lines(ls.last())
    }
}

/// The lease file that stands for leases.
pub open spec fn leases_text(ls: Seq<LeaseView>) -> Seq<char> {
    join_with(all_lines(ls), '\n')
}

/// The leases by interface, a later one replacing an earlier one.
pub open spec fn leases_of(ls: Seq<LeaseView>) -> Map<Seq<char>, LeaseView>
    decreases ls.len(),
{
    if ls.len() == 0 {
        Map::empty()
    } else {
        leases_of(ls.drop_last()).insert(ls.last().interface, ls.last())
    }
}

proof fn lemma_run_push(st: crate::lease::ParseState, s: Seq<Seq<char>>, x: Seq<char>)
    ensures
        run(st, s.push(x)) == step(run(st, s), trim(x)),
{
    assert(s.push(x).drop_last() =~= s);
}

pub proof fn lemma_block(st: crate::lease::ParseState, l: LeaseView)
    requires
        plain_lease(l),
    ensures
        run(st, lease_lines(l)) == (crate::lease::ParseState {
            leases: st.leases.insert(l.interface, l),
            current: None,
        }),
{
    let e = Seq::<Seq<char>>::empty();
    let h = header_line(l.address);
    let s0 = seq![h, iface_line(l.interface), addr_line(l.address)];
    assert(seq![h] =~= e.push(h));
    assert(s0 =~= e.push(h).push(iface_line(l.interface)).push(addr_line(l.address)));
    lemma_run_push(st, e, h);
    lemma_header_step(st, l.address);
    let c0 = LeaseView { address: l.address, ..empty_lease() };
    let t0 = run(st, e.push(h));
    assert(t0.current == Some(c0) && t0.leases == st.leases);
    lemma_run_push(st, e.push(h), iface_line(l.interface));
    lemma_iface_step(t0, c0, l.interface);
    let c1 = LeaseView { interface: l.interface, ..c0 };
    let t1 = run(st, e.push(h).push(iface_line(l.interface)));
    lemma_run_push(st, e.push(h).push(iface_line(l.interface)), addr_line(l.address));
    lemma_addr_step(t1, c1, l.address);
    let c2 = LeaseView { address: l.address, ..c1 };
    let t2 = run(st, s0);
    assert(t2.current == Some(c2) && t2.leases == st.leases);

    let s1 = match l.subnet_mask {
        Some(m) => s0.push(mask_line(m)),
        None => s0,
    };
    let c3 = match l.subnet_mask {
        Some(m) => LeaseView { subnet_mask: Some(m), ..c2 },
        None => c2,
    };
    if let Some(m) = l.subnet_mask {
        lemma_run_push(st, s0, mask_line(m));
        lemma_mask_step(t2, c2, m);
    }
    let t3 = run(st, s1);
    assert(t3.current == Some(c3) && t3.leases == st.leases);

    let s2 = if l.routers.len() > 0 {
        s1.push(list_line("routers"@, l.routers))
    } else {
        s1
    };
    let c4 = if l.routers.len() > 0 {
        LeaseView { routers: l.routers, ..c3 }
    } else {
        c3
    };
    if l.routers.len() > 0 {
        lemma_run_push(st, s1, list_line("routers"@, l.routers));
        lemma_routers_step(t3, c3, l.routers);
    }
    let t4 = run(st, s2);
    assert(t4.current == Some(c4) && t4.leases == st.leases);

    let s3 = if l.dns_servers.len() > 0 {
        s2.push(list_line("domain-name-servers"@, l.dns_servers))
    } else {
        s2
    };
    let c5 = if l.dns_servers.len() > 0 {
        LeaseView { dns_servers: l.dns_servers, ..c4 }
    } else {
        c4
    };
    if l.dns_servers.len() > 0 {
        lemma_run_push(st, s2, list_line("domain-name-servers"@, l.dns_servers));
        lemma_dns_step(t4, c4, l.dns_servers);
    }
    let t5 = run(st, s3);
    assert(t5.current == Some(c5) && t5.leases == st.leases);

    let s4 = match l.domain_name {
        Some(d) => s3.push(quoted_line("domain-name"@, d)),
        None => s3,
    };
    let c6 = match l.domain_name {
        Some(d) => LeaseView { domain_name: Some(d), ..c5 },
        None => c5,
    };
    if let Some(d) = l.domain_name {
        lemma_run_push(st, s3, quoted_line("domain-name"@, d));
        lemma_domain_step(t5, c5, d);
    }
    let t6 = run(st, s4);
    assert(t6.current == Some(c6) && t6.leases == st.leases);

    let s5 = match l.hostname {
        Some(x) => s4.push(quoted_line("host-name"@, x)),
        None => s4,
    };
    let c7 = match l.hostname {
        Some(x) => LeaseView { hostname: Some(x), ..c6 },
        None => c6,
    };
    if let Some(x) = l.hostname {
        lemma_run_push(st, s4, quoted_line("host-name"@, x));
        lemma_host_step(t6, c6, x);
    }
    let t7 = run(st, s5);
    assert(t7.current == Some(c7) && t7.leases == st.leases);
    if l.routers.len() == 0 {
        assert(l.routers =~= Seq::<Seq<char>>::empty());
    }
    if l.dns_servers.len() == 0 {
        assert(l.dns_servers =~= Seq::<Seq<char>>::empty());
    }
    assert(c7 == l);
    lemma_run_push(st, s5, "}"@);
    lemma_close_step(t7, c7);
}

pub proof fn lemma_all_lines(ls: Seq<LeaseView>)
    requires
        forall|i: int| 0 <= i < ls.len() ==> plain_lease(#[trigger] ls[i]),
    ensures
        run(crate::lease::ParseState { leases: Map::empty(), current: None }, all_lines(ls)) == (
        crate::lease::ParseState { leases: leases_of(ls), current: None }),
    decreases ls.len(),
{
    if ls.len() > 0 {
        let init = crate::lease::ParseState { leases: Map::empty(), current: None };
        assert forall|i: int| 0 <= i < ls.drop_last().len() implies plain_lease(
            #[trigger] ls.drop_last()[i],
        ) by {
            assert(ls.drop_last()[i] == ls[i]);
        }
        lemma_all_lines(ls.drop_last());
        lemma_run_concat(init, all_lines(ls.drop_last()), lease_lines(ls.last()));
        assert(plain_lease(ls[ls.len() - 1]));
        lemma_block(run(init, all_lines(ls.drop_last())), ls.last());
    }
}

pub open spec fn no_newline(s: Seq<char>) -> bool {
    forall|i: int| 0 <= i < s.len() ==> s[i] != '\n'
}

proof fn lemma_no_newline_concat(a: Seq<char>, b: Seq<char>)
    requires
        no_newline(a),
        no_newline(b),
    ensures
        no_newline(a + b),
{
    assert forall|i: int| 0 <= i < (a + b).len() implies (a + b)[i] != '\n' by {
        if i < a.len() {
            assert((a + b)[i] == a[i]);
        } else {
            assert((a + b)[i] == b[i - a.len()]);
        }
    }
}

proof fn lemma_token_no_newline(t: Seq<char>)
    requires
        token(t),
    ensures
        no_newline(t),
{
    assert forall|i: int| 0 <= i < t.len() implies t[i] != '\n' by {
        assert(!is_space(t[i]));
    }
}

proof fn lemma_lease_lines_no_newline(l: LeaseView)
    requires
        plain_lease(l),
    ensures
        forall|k: int|
            0 <= k < lease_lines(l).len() ==> no_newline(#[trigger] lease_lines(l)[k]),
{
    reveal_strlit("lease ");
    reveal_strlit(" {");
    reveal_strlit("interface \"");
    reveal_strlit("\";");
    reveal_strlit("fixed-address ");
    reveal_strlit(";");
    reveal_strlit("option subnet-mask ");
    reveal_strlit("option ");
    reveal_strlit(" ");
    reveal_strlit(" \"");
    reveal_strlit("routers");
    reveal_strlit("domain-name-servers");
    reveal_strlit("domain-name");
    reveal_strlit("host-name");
    reveal_strlit("}");
    lemma_token_no_newline(l.address);
    assert(no_newline(l.interface));
    lemma_no_newline_concat("lease "@, l.address);
    lemma_no_newline_concat("lease "@ + l.address, " {"@);
    lemma_no_newline_concat("interface \""@, l.interface);
    lemma_no_newline_concat("interface \""@ + l.interface, "\";"@);
    lemma_no_newline_concat("fixed-address "@, l.address);
    lemma_no_newline_concat("fixed-address "@ + l.address, ";"@);
    if let Some(m) = l.subnet_mask {
        lemma_token_no_newline(m);
        lemma_no_newline_concat("option subnet-mask "@, m);
        lemma_no_newline_concat("option subnet-mask "@ + m, ";"@);
    }
    if l.routers.len() > 0 {
        lemma_list_no_newline("routers"@, l.routers);
    }
    if l.dns_servers.len() > 0 {
        lemma_list_no_newline("domain-name-servers"@, l.dns_servers);
    }
    if let Some(d) = l.domain_name {
        lemma_quoted_no_newline("domain-name"@, d);
    }
    if let Some(h) = l.hostname {
        lemma_quoted_no_newline("host-name"@, h);
    }
    assert(no_newline("}"@));
}

proof fn lemma_list_no_newline(key: Seq<char>, r: Seq<Seq<char>>)
    requires
        item_list(r),
        no_newline(key),
    ensures
        no_newline(list_line(key, r)),
{
    reveal_strlit("option ");
    reveal_strlit(" ");
    reveal_strlit(";");
    lemma_join_chars(r);
    let j = join_with(r, ',');
    assert(no_newline(j)) by {
        assert forall|i: int| 0 <= i < j.len() implies j[i] != '\n' by {
            assert(j[i] == ',' || item_char(j[i]));
        }
    }
    lemma_no_newline_concat("option "@, key);
    lemma_no_newline_concat("option "@ + key, " "@);
    lemma_no_newline_concat("option "@ + key + " "@, j);
    lemma_no_newline_concat("option "@ + key + " "@ + j, ";"@);
}

proof fn lemma_quoted_no_newline(key: Seq<char>, x: Seq<char>)
    requires
        no_newline(key),
        no_newline(x),
    ensures
        no_newline(quoted_line(key, x)),
{
    reveal_strlit("option ");
    reveal_strlit(" \"");
    reveal_strlit("\";");
    lemma_no_newline_concat("option "@, key);
    lemma_no_newline_concat("option "@ + key, " \""@);
    lemma_no_newline_concat("option "@ + key + " \""@, x);
    lemma_no_newline_concat("option "@ + key + " \""@ + x, "\";"@);
}

proof fn lemma_all_lines_no_newline(ls: Seq<LeaseView>)
    requires
        forall|i: int| 0 <= i < ls.len() ==> plain_lease(#[trigger] ls[i]),
    ensures
        forall|k: int| 0 <= k < all_lines(ls).len() ==> no_newline(#[trigger] all_lines(ls)[k]),
    decreases ls.len(),
{
    if ls.len() > 0 {
        assert forall|i: int| 0 <= i < ls.drop_last().len() implies plain_lease(
            #[trigger] ls.drop_last()[i],
        ) by {
            assert(ls.drop_last()[i] == ls[i]);
        }
        lemma_all_lines_no_newline(ls.drop_last());
        assert(plain_lease(ls[ls.len() - 1]));
        lemma_lease_lines_no_newline(ls.last());
        let a = all_lines(ls.drop_last());
        let b = lease_lines(ls.last());
        assert forall|k: int| 0 <= k < all_lines(ls).len() implies no_newline(
            #[trigger] all_lines(ls)[k],
        ) by {
            if k < a.len() {
                assert(all_lines(ls)[k] == a[k]);
            } else {
                assert(all_lines(ls)[k] == b[k - a.len()]);
            }
        }
    }
}

/// Writing plain leases as a lease file and reading it gives them back,
/// by interface.
pub proof fn lease_text_round_trip(ls: Seq<LeaseView>)
    requires
        forall|i: int| 0 <= i < ls.len() ==> plain_lease(#[trigger] ls[i]),
    ensures
        parse_leases(leases_text(ls)) == leases_of(ls),
{
    reveal_strlit("}");
    reveal_strlit("lease");
    let lines = all_lines(ls);
    if ls.len() == 0 {
        assert(leases_text(ls) == Seq::<char>::empty());
        let e = Seq::<char>::empty();
        assert(split_char(e, '\n') == seq![e]);
        assert(seq![e].drop_last() =~= Seq::<Seq<char>>::empty());
        assert(trim(e) == e);
        assert(e != "}"@);
        assert(!starts_with(e, "lease"@));
        let init = crate::lease::ParseState { leases: Map::empty(), current: None };
        assert(parse_lines(Seq::<Seq<char>>::empty()) == init);
        assert(parse_lines(seq![e]) == step(init, trim(e)));
        assert(step(init, e) == init);
        assert(parse_leases(leases_text(ls)) == Map::<Seq<char>, LeaseView>::empty());
        assert(leases_of(ls) == Map::<Seq<char>, LeaseView>::empty());
    } else {
        assert(lines.len() >= 1) by {
            assert(lease_lines(ls.last()).len() >= 1);
            assert(lines.len() == all_lines(ls.drop_last()).len() + lease_lines(ls.last()).len());
        }
        lemma_all_lines_no_newline(ls);
        assert forall|i: int, j: int| 0 <= i < lines.len() && 0 <= j < lines[i].len() implies lines[i][j]
            != '\n' by {
            assert(no_newline(lines[i]));
        }
        lemma_split_join(lines, '\n');
        lemma_parse_lines_run(lines);
        lemma_all_lines(ls);
        assert(split_char(leases_text(ls), '\n') == lines);
        assert(parse_leases(leases_text(ls)) == parse_lines(lines).leases);
    }
}

/// A file of two plain blocks for different interfaces reads as those two
/// leases, each with the address its block gives.
pub proof fn two_block_file(l0: LeaseView, l1: LeaseView)
    requires
        plain_lease(l0),
        plain_lease(l1),
        l0.interface != l1.interface,
    ensures
        ({
            let m = parse_leases(leases_text(seq![l0, l1]));
            &&& m.dom() == set![l0.interface, l1.interface]
            &&& m[l0.interface].address == l0.address
            &&& m[l1.interface].address == l1.address
        }),
{
    let ls = seq![l0, l1];
    assert forall|i: int| 0 <= i < ls.len() implies plain_lease(#[trigger] ls[i]) by {}
    lease_text_round_trip(ls);
    assert(ls.drop_last() =~= seq![l0]);
    assert(seq![l0].drop_last() =~= Seq::<LeaseView>::empty());
    assert(ls.last() == l1);
    assert(seq![l0].last() == l0);
    assert(leases_of(Seq::<LeaseView>::empty()) == Map::<Seq<char>, LeaseView>::empty());
    assert(leases_of(seq![l0]) == Map::<Seq<char>, LeaseView>::empty().insert(l0.interface, l0));
    let m = Map::<Seq<char>, LeaseView>::empty().insert(l0.interface, l0).insert(l1.interface, l1);
    assert(leases_of(ls) == m);
    assert(m.dom() =~= set![l0.interface, l1.interface]);
}

/// The leases of a sequence without two for one interface, by interface.
proof fn lemma_leases_of_map(ls: Seq<Lease>)
    requires
        leases_unique(ls),
    ensures
        leases_of(ls.map_values(|l: Lease| l@)) == leases_map(ls),
    decreases ls.len(),
{
    let vs = ls.map_values(|l: Lease| l@);
    if ls.len() == 0 {
        assert(leases_map(ls) =~= Map::<Seq<char>, LeaseView>::empty());
    } else {
        let t = ls.drop_last();
        assert(leases_unique(t));
        lemma_leases_of_map(t);
        assert(vs.drop_last() =~= t.map_values(|l: Lease| l@));
        let last = ls.last();
        assert forall|k: Seq<char>| #[trigger] leases_map(ls).contains_key(k) == leases_map(t).insert(
            last.interface@,
            last@,
        ).contains_key(k) by {
            if leases_map(t).contains_key(k) {
                let j = choose|j: int| 0 <= j < t.len() && t[j].interface@ == k;
                assert(ls[j].interface@ == k);
            }
            if k == last.interface@ {
                assert(ls[ls.len() - 1].interface@ == k);
            }
            if leases_map(ls).contains_key(k) && k != last.interface@ {
                let j = choose|j: int| 0 <= j < ls.len() && ls[j].interface@ == k;
                assert(t[j].interface@ == k);
            }
        }
        assert forall|k: Seq<char>| #[trigger] leases_map(ls).contains_key(k) implies leases_map(
            ls,
        )[k] == leases_map(t).insert(last.interface@, last@)[k] by {
            let j = choose|j: int| 0 <= j < ls.len() && ls[j].interface@ == k;
            crate::lease::lemma_leases_map_at(ls, j);
            if j < t.len() {
                assert(t[j] == ls[j]);
                crate::lease::lemma_leases_map_at(t, j);
            }
        }
        assert(leases_map(ls) =~= leases_map(t).insert(last.interface@, last@));
    }
}

/// Reading a lease file, writing the leases read as a lease file and
/// reading that again gives the same leases, when every lease read is
/// plain.
pub proof fn lease_file_round_trip(text: Seq<char>, ls: Seq<Lease>)
    requires
        leases_unique(ls),
        leases_map(ls) == parse_leases(text),
        forall|i: int| 0 <= i < ls.len() ==> plain_lease(#[trigger] ls[i]@),
    ensures
        parse_leases(leases_text(ls.map_values(|l: Lease| l@))) == parse_leases(text),
{
    let vs = ls.map_values(|l: Lease| l@);
    assert forall|i: int| 0 <= i < vs.len() implies plain_lease(#[trigger] vs[i]) by {
        assert(vs[i] == ls[i]@);
    }
    lease_text_round_trip(vs);
    lemma_leases_of_map(ls);
}

/// Items joined with commas.
fn join_items(v: &Vec<String>) -> (r: String)
    ensures
        r@ == join_with(strings_view(v@), ','),
{
    let mut r = String::new();
    if v.len() == 0 {
        return r;
    }
    r.append(v[0].as_str());
    let mut k: usize = 1;
    while k < v.len()
        invariant
            1 <= k <= v@.len(),
            r@ == join_with(strings_view(v@.subrange(0, k as int)), ','),
        decreases v.len() - k,
    {
        proof {
            reveal_strlit(",");
        }
        r.append(",");
        r.append(v[k].as_str());
        assert(strings_view(v@.subrange(0, k + 1)).drop_last() =~= strings_view(
            v@.subrange(0, k as int),
        ));
        assert(r@ =~= join_with(strings_view(v@.subrange(0, k + 1)), ','));
        k = k + 1;
    }
    assert(v@.subrange(0, v@.len() as int) =~= v@);
    r
}

fn text3(a: &str, b: &str, c: &str) -> (r: String)
    ensures
        r@ == a@ + b@ + c@,
{
    let mut r = String::from_str(a);
    r.append(b);
    r.append(c);
    r
}

/// The lines that stand for a lease.
fn lease_lines_of(l: &Lease) -> (r: Vec<String>)
    ensures
        strings_view(r@) == lease_lines(l@),
{
    let ghost v = l@;
    let mut r: Vec<String> = Vec::new();
    r.push(text3("lease ", l.address.as_str(), " {"));
    r.push(text3("interface \"", l.interface.as_str(), "\";"));
    r.push(text3("fixed-address ", l.address.as_str(), ";"));
    let ghost s0 = strings_view(r@);
    assert(s0 =~= seq![header_line(v.address), iface_line(v.interface), addr_line(v.address)]);
    match &l.subnet_mask {
        Some(m) => r.push(text3("option subnet-mask ", m.as_str(), ";")),
        None => {},
    }
    let ghost s1 = strings_view(r@);
    if l.routers.len() > 0 {
        let j = join_items(&l.routers);
        let mut line = text3("option ", "routers", " ");
        line.append(j.as_str());
        line.append(";");
        r.push(line);
    }
    let ghost s2 = strings_view(r@);
    if l.dns_servers.len() > 0 {
        let j = join_items(&l.dns_servers);
        let mut line = text3("option ", "domain-name-servers", " ");
        line.append(j.as_str());
        line.append(";");
        r.push(line);
    }
    let ghost s3 = strings_view(r@);
    match &l.domain_name {
        Some(d) => {
            let mut line = text3("option ", "domain-name", " \"");
            line.append(d.as_str());
            line.append("\";");
            r.push(line);
        },
        None => {},
    }
    let ghost s4 = strings_view(r@);
    match &l.hostname {
        Some(h) => {
            let mut line = text3("option ", "host-name", " \"");
            line.append(h.as_str());
            line.append("\";");
            r.push(line);
        },
        None => {},
    }
    r.push(String::from_str("}"));
    assert(strings_view(r@) =~= lease_lines(v));
    r
}

/// Writes leases as a lease file: one block per lease, lines separated by
/// newlines.
pub fn write_lease_file(leases: &Vec<Lease>) -> (r: String)
    ensures
        r@ == leases_text(leases@.map_values(|l: Lease| l@)),
{
    let ghost vs = leases@.map_values(|l: Lease| l@);
    let mut out = String::new();
    let ghost mut lines: Seq<Seq<char>> = Seq::empty();
    let mut started = false;
    let mut i: usize = 0;
    while i < leases.len()
        invariant
            started == (lines.len() > 0),
            i <= leases@.len(),
            vs == leases@.map_values(|l: Lease| l@),
            lines == all_lines(vs.subrange(0, i as int)),
            out@ == join_with(lines, '\n'),
        decreases leases.len() - i,
    {
        let ls = lease_lines_of(&leases[i]);
        let ghost base = lines;
        let mut k: usize = 0;
        while k < ls.len()
            invariant
                started == (lines.len() > 0),
                i < leases@.len(),
                vs == leases@.map_values(|l: Lease| l@),
                k <= ls@.len(),
                strings_view(ls@) == lease_lines(vs[i as int]),
                lines == base + strings_view(ls@).subrange(0, k as int),
                out@ == join_with(lines, '\n'),
            decreases ls.len() - k,
        {
            proof {
                reveal_strlit("\n");
            }
            if started {
                out.append("\n");
            }
            out.append(ls[k].as_str());
            started = true;
            proof {
                let next = lines.push(ls@[k as int]@);
                assert(next.drop_last() =~= lines);
                if lines.len() == 0 {
                    assert(next =~= seq![ls@[k as int]@]);
                }
                assert(out@ =~= join_with(next, '\n'));
                assert(base + strings_view(ls@).subrange(0, k + 1) =~= next);
                lines = next;
            }
            k = k + 1;
        }
        proof {
            assert(strings_view(ls@).subrange(0, ls@.len() as int) =~= lease_lines(vs[i as int]));
            assert(vs.subrange(0, i + 1).drop_last() =~= vs.subrange(0, i as int));
            assert(vs.subrange(0, i + 1).last() == vs[i as int]);
        }
        i = i + 1;
    }
    assert(vs.subrange(0, vs.len() as int) =~= vs);
    out
}

} // verus!
