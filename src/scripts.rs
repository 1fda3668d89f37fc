//! Choosing the scripts of a directory: the regular files with an execute
//! bit, in name order.

use vstd::prelude::*;
use vstd::seq_lib::{to_multiset_build, to_multiset_insert};
use crate::lease::strings_view;
use crate::text::chars_of;

verus! {

/// What is listed of a directory entry.
pub struct ScriptEntry {
    pub name: String,
    pub is_file: bool,
    pub mode: u32,
}

/// A regular file that someone may execute.
pub open spec fn runnable(e: ScriptEntry) -> bool {
    e.is_file && e.mode & 0o111u32 != 0
}

/// Lexicographic order on names, character by character.
pub open spec fn name_le(a: Seq<char>, b: Seq<char>) -> bool
    decreases a.len(),
{
    if a.len() == 0 {
        true
    } else if b.len() == 0 {
        false
    } else if a[0] != b[0] {
        a[0] < b[0]
    } else {
        name_le(a.drop_first(), b.drop_first())
    }
}

pub open spec fn names_sorted(s: Seq<Seq<char>>) -> bool {
    forall|i: int, j: int| 0 <= i < j < s.len() ==> name_le(#[trigger] s[i], #[trigger] s[j])
}

/// The names of the runnable entries, in listing order.
pub open spec fn runnable_names(es: Seq<ScriptEntry>) -> Seq<Seq<char>>
    decreases es.len(),
{
    if es.len() == 0 {
        Seq::empty()
    } else if runnable(es.last()) {
        runnable_names(es.drop_last()).push(es.last().name@)
    } else {
        runnable_names(es.drop_last())
    }
}

proof fn lemma_name_le_total(a: Seq<char>, b: Seq<char>)
    ensures
        name_le(a, b) || name_le(b, a),
    decreases a.len(),
{
    if a.len() > 0 && b.len() > 0 && a[0] == b[0] {
        lemma_name_le_total(a.drop_first(), b.drop_first());
    }
}

proof fn lemma_name_le_trans(a: Seq<char>, b: Seq<char>, c: Seq<char>)
    requires
        name_le(a, b),
        name_le(b, c),
    ensures
        name_le(a, c),
    decreases a.len(),
{
    if a.len() > 0 && b.len() > 0 && c.len() > 0 && a[0] == b[0] && b[0] == c[0] {
        lemma_name_le_trans(a.drop_first(), b.drop_first(), c.drop_first());
    }
}

fn name_le_exec(a: &Vec<char>, b: &Vec<char>) -> (r: bool)
    ensures
        r == name_le(a@, b@),
{
    let mut i: usize = 0;
    assert(a@.subrange(0, a@.len() as int) =~= a@);
    assert(b@.subrange(0, b@.len() as int) =~= b@);
    while i < a.len() && i < b.len() && a[i] == b[i]
        invariant
            i <= a@.len(),
            i <= b@.len(),
            name_le(a@, b@) == name_le(
                a@.subrange(i as int, a@.len() as int),
                b@.subrange(i as int, b@.len() as int),
            ),
        decreases a.len() - i,
    {
        let ghost sa = a@.subrange(i as int, a@.len() as int);
        let ghost sb = b@.subrange(i as int, b@.len() as int);
        assert(sa.drop_first() =~= a@.subrange(i + 1, a@.len() as int));
        assert(sb.drop_first() =~= b@.subrange(i + 1, b@.len() as int));
        i = i + 1;
    }
    if i == a.len() {
        true
    } else if i == b.len() {
        false
    } else {
        a[i] < b[i]
    }
}

/// Puts `x` into sorted `names` after every name not above it.
proof fn lemma_insert_sorted(names: Seq<Seq<char>>, pos: int, x: Seq<char>)
    requires
        names_sorted(names),
        0 <= pos <= names.len(),
        forall|j: int| 0 <= j < pos ==> name_le(#[trigger] names[j], x),
        pos < names.len() ==> !name_le(names[pos], x),
    ensures
        names_sorted(names.insert(pos, x)),
        names.insert(pos, x).to_multiset() == names.to_multiset().insert(x),
{
    let n = names.insert(pos, x);
    if pos < names.len() {
        lemma_name_le_total(names[pos], x);
    }
    assert forall|i: int, j: int| 0 <= i < j < n.len() implies name_le(
        #[trigger] n[i],
        #[trigger] n[j],
    ) by {
        if i < pos && j < pos {
        } else if i < pos && j == pos {
        } else if i < pos {
            assert(n[j] == names[j - 1]);
        } else if i == pos {
            assert(n[j] == names[j - 1]);
            if j - 1 > pos {
                lemma_name_le_trans(x, names[pos], names[j - 1]);
            }
        } else {
            assert(n[i] == names[i - 1] && n[j] == names[j - 1]);
        }
    }
    to_multiset_insert(names, pos, x);
}

/// The names of the runnable entries, sorted: the order in which a
/// directory's scripts run.
pub fn select_scripts(entries: &Vec<ScriptEntry>) -> (r: Vec<String>)
    ensures
        names_sorted(strings_view(r@)),
        strings_view(r@).to_multiset() == runnable_names(entries@).to_multiset(),
{
    let mut r: Vec<String> = Vec::new();
    let mut i: usize = 0;
    assert(strings_view(r@) =~= Seq::<Seq<char>>::empty());
    while i < entries.len()
        invariant
            i <= entries@.len(),
            names_sorted(strings_view(r@)),
            strings_view(r@).to_multiset() == runnable_names(
                entries@.subrange(0, i as int),
            ).to_multiset(),
        decreases entries.len() - i,
    {
        assert(entries@.subrange(0, i + 1).drop_last() =~= entries@.subrange(0, i as int));
        let e = &entries[i];
        if e.is_file && e.mode & 0o111u32 != 0 {
            let x = chars_of(e.name.as_str());
            let ghost names = strings_view(r@);
            let mut pos: usize = 0;
            while pos < r.len() && name_le_exec(&chars_of(r[pos].as_str()), &x)
                invariant
                    pos <= r@.len(),
                    names == strings_view(r@),
                    x@ == e.name@,
                    forall|j: int| 0 <= j < pos ==> name_le(#[trigger] names[j], x@),
                decreases r.len() - pos,
            {
                pos = pos + 1;
            }
            proof {
                if pos < r@.len() {
                    assert(names[pos as int] == r@[pos as int]@);
                }
                lemma_insert_sorted(names, pos as int, x@);
                to_multiset_build(runnable_names(entries@.subrange(0, i as int)), e.name@);
            }
            r.insert(pos, e.name.clone());
            assert(strings_view(r@) =~= names.insert(pos as int, x@));
        }
        i = i + 1;
    }
    assert(entries@.subrange(0, entries@.len() as int) =~= entries@);
    r
}

} // verus!
