//! Lexicographic order of names, character by character.
use vstd::prelude::*;
use crate::models::DuplicateFile;
use crate::names::chars_of;

verus! {

broadcast use vstd::seq_lib::group_seq_properties;

/// `a` comes no later than `b` in character-wise lexicographic order.
pub open spec fn name_le(a: Seq<char>, b: Seq<char>) -> bool
    decreases a.len(),
{
    if a.len() == 0 {
        true
    } else if b.len() == 0 {
        false
    } else if a[0] != b[0] {
        a[0] < b[0]
    } else {
        name_le(a.drop_first(), b.drop_first())
    }
}

/// Files ordered by name, each no later than the next.
pub open spec fn sorted_by_name(s: Seq<DuplicateFile>) -> bool {
    forall|i: int| 0 <= i < s.len() - 1 ==> name_le(#[trigger] s[i].name@, s[i + 1].name@)
}

/// Any two names are ordered one way or the other.
pub proof fn lemma_name_le_total(a: Seq<char>, b: Seq<char>)
    ensures
        name_le(a, b) || name_le(b, a),
    decreases a.len(),
{
    if a.len() > 0 && b.len() > 0 && a[0] == b[0] {
        lemma_name_le_total(a.drop_first(), b.drop_first());
    }
}

/// Whether `a` comes no later than `b`.
pub fn names_le(a: &str, b: &str) -> (r: bool)
    ensures
        r == name_le(a@, b@),
{
    let x = chars_of(a);
    let y = chars_of(b);
    let mut i: usize = 0;
    while i < x.len() && i < y.len() && x[i] == y[i]
        invariant
            i <= x.len(),
            i <= y.len(),
            name_le(a@, b@) == name_le(x@.skip(i as int), y@.skip(i as int)),
        decreases x.len() - i,
    {
        assert(x@.skip(i as int).drop_first() =~= x@.skip(i + 1));
        assert(y@.skip(i as int).drop_first() =~= y@.skip(i + 1));
        i = i + 1;
    }
    if i == x.len() {
        true
    } else if i == y.len() {
        false
    } else {
        x[i] < y[i]
    }
}

/// Sorts `v` by name; the files stay the same, only their order changes.
pub fn sort_by_name(v: Vec<DuplicateFile>) -> (r: Vec<DuplicateFile>)
    ensures
        r@.to_multiset() == v@.to_multiset(),
        sorted_by_name(r@),
{
    let mut out: Vec<DuplicateFile> = Vec::new();
    let mut rest = v;
    let ghost orig = rest@;
    // Take the files out from the back, inserting each into place.
    while rest.len() > 0
        invariant
            out@.to_multiset().add(rest@.to_multiset()) == orig.to_multiset(),
            sorted_by_name(out@),
        decreases rest.len(),
    {
        let ghost rest_before = rest@;
        let f = rest.pop().unwrap();
        proof {
            assert(rest_before =~= rest@.push(f));
            vstd::seq_lib::to_multiset_build(rest@, f);
        }
        let mut p: usize = 0;
        while p < out.len() && names_le(out[p].name.as_str(), f.name.as_str())
            invariant
                p <= out.len(),
                forall|j: int| 0 <= j < p ==> name_le(#[trigger] out@[j].name@, f.name@),
            decreases out.len() - p,
        {
            p = p + 1;
        }
        proof {
            if p < out.len() {
                lemma_name_le_total(out@[p as int].name@, f.name@);
            }
        }
        let ghost before = out@;
        out.insert(p, f);
        proof {
            vstd::seq_lib::to_multiset_insert(before, p as int, f);
            assert(out@.to_multiset().add(rest@.to_multiset()) =~= before.to_multiset().add(
                rest_before.to_multiset(),
            ));
            assert forall|j: int| 0 <= j < out@.len() - 1 implies name_le(
                #[trigger] out@[j].name@,
                out@[j + 1].name@,
            ) by {
                if j + 1 < p {
                    assert(out@[j] == before[j] && out@[j + 1] == before[j + 1]);
                } else if j + 1 == p {
                } else if j == p {
                } else {
                    assert(out@[j] == before[j - 1] && out@[j + 1] == before[j]);
                }
            }
        }
    }
    out
}

} // verus!
