//! What holds of every classification.
use vstd::prelude::*;
use crate::classify::{
    sum_sizes, duplicate_groups_of, exact_groups_of, has_group, is_exact_group, is_numbered_group, key_is,
    members, numbered_file, numbered_groups_of, plain_file, tag_all,
};
use crate::models::{DuplicateGroup, DuplicateType, FileInfo};
use crate::names::base_name;

verus! {

broadcast use vstd::seq_lib::group_seq_properties;

/// `x` and `y` have the same key, the same files (as a multiset) and the same
/// total size.
pub open spec fn same_group(x: DuplicateGroup, y: DuplicateGroup) -> bool {
    &&& x.original_name@ == y.original_name@
    &&& x.files@.to_multiset() == y.files@.to_multiset()
    &&& x.total_size == y.total_size
}

/// Some group of `b` is the same as `g`.
pub open spec fn has_counterpart(b: Seq<DuplicateGroup>, g: DuplicateGroup) -> bool {
    exists|k: int| 0 <= k < b.len() && #[trigger] same_group(b[k], g)
}

/// Every group of `a` has a counterpart in `b`.
pub open spec fn groups_covered(a: Seq<DuplicateGroup>, b: Seq<DuplicateGroup>) -> bool {
    forall|j: int| 0 <= j < a.len() ==> has_counterpart(b, #[trigger] a[j])
}

/// An exact-match group holds only files whose name is, character for character,
/// its key, each marked as an exact duplicate.
pub proof fn lemma_exact_groups_match_literally(files: Seq<FileInfo>, gs: Seq<DuplicateGroup>)
    requires
        exact_groups_of(files, gs),
    ensures
        forall|j: int, k: int|
            0 <= j < gs.len() && 0 <= k < gs[j].files@.len() ==> #[trigger] gs[j].files@[k].name@
                == gs[j].original_name@ && gs[j].files@[k].duplicate_type == DuplicateType::Exact,
{
    assert forall|j: int, k: int| 0 <= j < gs.len() && 0 <= k < gs[j].files@.len() implies
        #[trigger] gs[j].files@[k].name@ == gs[j].original_name@ && gs[j].files@[k].duplicate_type
        == DuplicateType::Exact by {
        assert(is_exact_group(files, gs[j]));
        let m = members(files, gs[j].original_name@, false);
        files.lemma_filter_pred(key_is(gs[j].original_name@, false), k);
        assert(gs[j].files@[k] == crate::models::tagged(m[k], DuplicateType::Exact));
    }
}

/// Two exact-match results for the same files hold the same groups.
proof fn lemma_exact_unique(files: Seq<FileInfo>, a: Seq<DuplicateGroup>, b: Seq<DuplicateGroup>)
    requires
        exact_groups_of(files, a),
        exact_groups_of(files, b),
    ensures
        groups_covered(a, b),
{
    assert forall|j: int| 0 <= j < a.len() implies has_counterpart(b, #[trigger] a[j]) by {
        let key = a[j].original_name@;
        assert(is_exact_group(files, a[j]));
        let p = key_is(key, false);
        files.lemma_filter_pred(p, 0);
        assert(files.filter(p).contains(files.filter(p)[0]));
        files.lemma_filter_contains_rev(p, files.filter(p)[0]);
        let i = choose|i: int| 0 <= i < files.len() && files[i] == files.filter(p)[0];
        assert(files[i].name@ == key);
        assert(members(files, files[i].name@, false).len() >= 2);
        assert(has_group(b, key));
        let k = choose|k: int| 0 <= k < b.len() && #[trigger] b[k].original_name@ == key;
        assert(is_exact_group(files, b[k]));
        assert(b[k].files@ == a[j].files@);
        assert(same_group(b[k], a[j]));
    }
}

/// Two numbered-copy results for the same files hold the same groups.
proof fn lemma_numbered_unique(files: Seq<FileInfo>, a: Seq<DuplicateGroup>, b: Seq<DuplicateGroup>)
    requires
        numbered_groups_of(files, a),
        numbered_groups_of(files, b),
    ensures
        groups_covered(a, b),
{
    assert forall|j: int| 0 <= j < a.len() implies has_counterpart(b, #[trigger] a[j]) by {
        let key = a[j].original_name@;
        assert(is_numbered_group(files, a[j]));
        let m = members(files, key, true);
        let c = m.filter(numbered_file());
        m.lemma_filter_pred(numbered_file(), 0);
        assert(c.contains(c[0]));
        m.lemma_filter_contains_rev(numbered_file(), c[0]);
        let p = key_is(key, true);
        let mi = choose|mi: int| 0 <= mi < m.len() && m[mi] == c[0];
        files.lemma_filter_pred(p, mi);
        assert(m.contains(m[mi]));
        files.lemma_filter_contains_rev(p, m[mi]);
        let i = choose|i: int| 0 <= i < files.len() && files[i] == m[mi];
        assert(base_name(files[i].name@) == key);
        assert(has_group(b, base_name(files[i].name@)));
        let k = choose|k: int| 0 <= k < b.len() && #[trigger] b[k].original_name@ == key;
        assert(is_numbered_group(files, b[k]));
        let n = m.filter(plain_file()).len() as int;
        let fa = a[j].files@;
        let fb = b[k].files@;
        assert(fa =~= fa.take(n) + fa.skip(n));
        assert(fb =~= fb.take(n) + fb.skip(n));
        vstd::seq_lib::lemma_multiset_commutative(fa.take(n), fa.skip(n));
        vstd::seq_lib::lemma_multiset_commutative(fb.take(n), fb.skip(n));
        assert(same_group(b[k], a[j]));
    }
}

/// Classifying the same files twice gives the same groups: each group of one
/// result has a counterpart in the other with the same key, the same files and
/// the same total size. Only the order of the groups may differ.
pub proof fn lemma_classification_repeatable(
    files: Seq<FileInfo>,
    a: Seq<DuplicateGroup>,
    b: Seq<DuplicateGroup>,
)
    requires
        duplicate_groups_of(files, a),
        duplicate_groups_of(files, b),
    ensures
        groups_covered(a, b),
        groups_covered(b, a),
{
    let na = choose|n: int|
        0 <= n <= a.len() && exact_groups_of(files, #[trigger] a.take(n)) && numbered_groups_of(
            files,
            a.skip(n),
        );
    let nb = choose|n: int|
        0 <= n <= b.len() && exact_groups_of(files, #[trigger] b.take(n)) && numbered_groups_of(
            files,
            b.skip(n),
        );
    lemma_exact_unique(files, a.take(na), b.take(nb));
    lemma_exact_unique(files, b.take(nb), a.take(na));
    lemma_numbered_unique(files, a.skip(na), b.skip(nb));
    lemma_numbered_unique(files, b.skip(nb), a.skip(na));
    assert forall|j: int| 0 <= j < a.len() implies has_counterpart(b, #[trigger] a[j]) by {
        if j < na {
            assert(a.take(na)[j] == a[j]);
            assert(has_counterpart(b.take(nb), a.take(na)[j]));
            let k = choose|k: int| 0 <= k < nb && #[trigger] same_group(b.take(nb)[k], a[j]);
            assert(same_group(b[k], a[j]));
        } else {
            assert(a.skip(na)[j - na] == a[j]);
            assert(has_counterpart(b.skip(nb), a.skip(na)[j - na]));
            let k = choose|k: int|
                0 <= k < b.len() - nb && #[trigger] same_group(b.skip(nb)[k], a[j]);
            assert(same_group(b[k + nb], a[j]));
        }
    }
    assert forall|j: int| 0 <= j < b.len() implies has_counterpart(a, #[trigger] b[j]) by {
        if j < nb {
            assert(b.take(nb)[j] == b[j]);
            assert(has_counterpart(a.take(na), b.take(nb)[j]));
            let k = choose|k: int| 0 <= k < na && #[trigger] same_group(a.take(na)[k], b[j]);
            assert(same_group(a[k], b[j]));
        } else {
            assert(b.skip(nb)[j - nb] == b[j]);
            assert(has_counterpart(a.skip(na), b.skip(nb)[j - nb]));
            let k = choose|k: int|
                0 <= k < a.len() - na && #[trigger] same_group(a.skip(na)[k], b[j]);
            assert(same_group(a[k + na], b[j]));
        }
    }
}

/// The role of each file in a group of `gs` was assigned: no file is left unknown.
pub open spec fn roles_assigned(gs: Seq<DuplicateGroup>) -> bool {
    forall|j: int, k: int|
        0 <= j < gs.len() && 0 <= k < gs[j].files@.len() ==> #[trigger] gs[j].files@[k].duplicate_type
            != DuplicateType::Unknown
}

/// Every group of `gs` has two files or more.
pub open spec fn groups_not_single(gs: Seq<DuplicateGroup>) -> bool {
    forall|j: int| 0 <= j < gs.len() ==> #[trigger] gs[j].files@.len() >= 2
}

proof fn lemma_numbered_roles(files: Seq<FileInfo>, g: DuplicateGroup, k: int)
    requires
        is_numbered_group(files, g),
        0 <= k < g.files@.len(),
    ensures
        g.files@[k].duplicate_type != DuplicateType::Unknown,
{
    let m = members(files, g.original_name@, true);
    let n = m.filter(plain_file()).len() as int;
    let tail = g.files@.skip(n);
    if k >= n {
        let x = g.files@[k];
        assert(tail[k - n] == x);
        vstd::seq_lib::to_multiset_contains(tail, x);
        let c = tag_all(m.filter(numbered_file()), DuplicateType::Numbered);
        vstd::seq_lib::to_multiset_contains(c, x);
        let i = choose|i: int| 0 <= i < c.len() && c[i] == x;
        assert(c[i].duplicate_type == DuplicateType::Numbered);
    } else {
        assert(g.files@.take(n)[k] == g.files@[k]);
    }
}

/// Every group that classification returns has two files or more, and every file
/// in it carries the role it was given: none is left unknown.
pub proof fn lemma_groups_well_formed(files: Seq<FileInfo>, gs: Seq<DuplicateGroup>)
    requires
        duplicate_groups_of(files, gs),
    ensures
        groups_not_single(gs),
        roles_assigned(gs),
{
    let n = choose|n: int|
        0 <= n <= gs.len() && exact_groups_of(files, #[trigger] gs.take(n)) && numbered_groups_of(
            files,
            gs.skip(n),
        );
    assert forall|j: int| 0 <= j < gs.len() implies #[trigger] gs[j].files@.len() >= 2 by {
        if j < n {
            assert(gs.take(n)[j] == gs[j]);
            assert(is_exact_group(files, gs.take(n)[j]));
        } else {
            assert(gs.skip(n)[j - n] == gs[j]);
            assert(is_numbered_group(files, gs.skip(n)[j - n]));
        }
    }
    assert forall|j: int, k: int| 0 <= j < gs.len() && 0 <= k < gs[j].files@.len() implies
        #[trigger] gs[j].files@[k].duplicate_type != DuplicateType::Unknown by {
        if j < n {
            assert(gs.take(n)[j] == gs[j]);
            assert(is_exact_group(files, gs.take(n)[j]));
        } else {
            assert(gs.skip(n)[j - n] == gs[j]);
            lemma_numbered_roles(files, gs[j], k);
        }
    }
}

/// Some group of `gs` is keyed `k` and holds every file of `files` named `k`, in
/// their order, each marked as an exact duplicate, with the sum of their sizes.
pub open spec fn holds_exact_group(files: Seq<FileInfo>, gs: Seq<DuplicateGroup>, k: Seq<char>) -> bool {
    exists|j: int|
        0 <= j < gs.len() && #[trigger] gs[j].original_name@ == k && gs[j].files@ == tag_all(
            members(files, k, false),
            DuplicateType::Exact,
        ) && gs[j].total_size == sum_sizes(members(files, k, false))
}

/// Every name that two or more files share, compared character for character, has
/// its exact-match group in the result, with all the files of that name.
pub proof fn lemma_shared_names_grouped(files: Seq<FileInfo>, gs: Seq<DuplicateGroup>)
    requires
        duplicate_groups_of(files, gs),
    ensures
        forall|i: int|
            0 <= i < files.len() && members(files, #[trigger] files[i].name@, false).len() >= 2
                ==> holds_exact_group(files, gs, files[i].name@),
{
    let n = choose|n: int|
        0 <= n <= gs.len() && exact_groups_of(files, #[trigger] gs.take(n)) && numbered_groups_of(
            files,
            gs.skip(n),
        );
    assert forall|i: int|
        0 <= i < files.len() && members(files, #[trigger] files[i].name@, false).len() >= 2
            implies holds_exact_group(files, gs, files[i].name@) by {
        let k = files[i].name@;
        assert(has_group(gs.take(n), k));
        let j = choose|j: int| 0 <= j < gs.take(n).len() && #[trigger] gs.take(n)[j].original_name@ == k;
        assert(gs.take(n)[j] == gs[j]);
        assert(is_exact_group(files, gs.take(n)[j]));
        assert(gs[j].original_name@ == k);
    }
}

} // verus!
