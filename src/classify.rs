//! Finding duplicate files in one directory by name alone: files with the very
//! same name, and numbered copies such as `"report (1).pdf"` of `"report.pdf"`.
use vstd::prelude::*;
use crate::models::{tagged, DuplicateFile, DuplicateGroup, DuplicateType, FileInfo};
use crate::names::{base_name, extract_base_name, is_numbered, is_numbered_duplicate};
use crate::order::{sort_by_name, sorted_by_name};

verus! {

broadcast use vstd::seq_lib::group_seq_properties;

/// The sum of the sizes of the files in `s`.
pub open spec fn sum_sizes(s: Seq<FileInfo>) -> nat
    decreases s.len(),
{
    if s.len() == 0 {
        0
    } else {
        sum_sizes(s.drop_last()) + s.last().size as nat
    }
}

/// The key that groups `f`: its name, or with `by_base` its base name.
pub open spec fn group_key(f: FileInfo, by_base: bool) -> Seq<char> {
    if by_base {
        base_name(f.name@)
    } else {
        f.name@
    }
}

pub open spec fn key_is(k: Seq<char>, by_base: bool) -> spec_fn(FileInfo) -> bool {
    |f: FileInfo| group_key(f, by_base) == k
}

pub open spec fn numbered_file() -> spec_fn(FileInfo) -> bool {
    |f: FileInfo| is_numbered(f.name@)
}

pub open spec fn plain_file() -> spec_fn(FileInfo) -> bool {
    |f: FileInfo| !is_numbered(f.name@)
}

/// The files of `files` under key `k`, in their order.
pub open spec fn members(files: Seq<FileInfo>, k: Seq<char>, by_base: bool) -> Seq<FileInfo> {
    files.filter(key_is(k, by_base))
}

/// Each file of `s` with role `t`.
pub open spec fn tag_all(s: Seq<FileInfo>, t: DuplicateType) -> Seq<DuplicateFile> {
    s.map_values(|f: FileInfo| tagged(f, t))
}

/// `g` is the group of all files named `g.original_name`, of which there are two or more.
pub open spec fn is_exact_group(files: Seq<FileInfo>, g: DuplicateGroup) -> bool {
    let m = members(files, g.original_name@, false);
    &&& m.len() >= 2
    &&& g.files@ == tag_all(m, DuplicateType::Exact)
    &&& g.total_size == sum_sizes(m)
}

/// `g` is the group of all files whose base name is `g.original_name`: two or more,
/// at least one of them a numbered copy. The unmarked files come first, in their
/// order; the numbered copies follow, ordered by name.
pub open spec fn is_numbered_group(files: Seq<FileInfo>, g: DuplicateGroup) -> bool {
    let m = members(files, g.original_name@, true);
    let originals = m.filter(plain_file());
    let copies = m.filter(numbered_file());
    &&& m.len() >= 2
    &&& copies.len() >= 1
    &&& g.files@.len() == m.len()
    &&& g.files@.take(originals.len() as int) == tag_all(originals, DuplicateType::Original)
    &&& g.files@.skip(originals.len() as int).to_multiset() == tag_all(
        copies,
        DuplicateType::Numbered,
    ).to_multiset()
    &&& sorted_by_name(g.files@.skip(originals.len() as int))
    &&& g.total_size == sum_sizes(m)
}

/// No two groups of `gs` share a key.
pub open spec fn keys_distinct(gs: Seq<DuplicateGroup>) -> bool {
    forall|i: int, j: int|
        0 <= i < j < gs.len() ==> #[trigger] gs[i].original_name@ != #[trigger] gs[j].original_name@
}

/// Some group of `gs` has key `k`.
pub open spec fn has_group(gs: Seq<DuplicateGroup>, k: Seq<char>) -> bool {
    exists|j: int| 0 <= j < gs.len() && #[trigger] gs[j].original_name@ == k
}

/// `gs` holds exactly the exact-match groups of `files`, one per shared name.
pub open spec fn exact_groups_of(files: Seq<FileInfo>, gs: Seq<DuplicateGroup>) -> bool {
    &&& forall|j: int| 0 <= j < gs.len() ==> is_exact_group(files, #[trigger] gs[j])
    &&& keys_distinct(gs)
    &&& forall|i: int|
        0 <= i < files.len() && members(files, #[trigger] files[i].name@, false).len() >= 2
            ==> has_group(gs, files[i].name@)
}

/// `gs` holds exactly the numbered groups of `files`, one per base name that two
/// or more files share and some numbered copy has.
pub open spec fn numbered_groups_of(files: Seq<FileInfo>, gs: Seq<DuplicateGroup>) -> bool {
    &&& forall|j: int| 0 <= j < gs.len() ==> is_numbered_group(files, #[trigger] gs[j])
    &&& keys_distinct(gs)
    &&& forall|i: int|
        0 <= i < files.len() && is_numbered(#[trigger] files[i].name@) && members(
            files,
            base_name(files[i].name@),
            true,
        ).len() >= 2 ==> has_group(gs, base_name(files[i].name@))
}

/// The sizes of a subsequence add up to no more than those of the whole.
pub proof fn lemma_sum_filter_le(s: Seq<FileInfo>, p: spec_fn(FileInfo) -> bool)
    ensures
        sum_sizes(s.filter(p)) <= sum_sizes(s),
    decreases s.len(),
{
    if s.len() > 0 {
        lemma_sum_filter_le(s.drop_last(), p);
        assert(s =~= s.drop_last().push(s.last()));
        s.drop_last().lemma_filter_push(s.last(), p);
        let f = s.drop_last().filter(p);
        if p(s.last()) {
            assert(f.push(s.last()).drop_last() =~= f);
        }
    }
}

/// The sizes of a prefix add up to no more than those of the whole.
pub proof fn lemma_sum_take_le(s: Seq<FileInfo>, i: int)
    requires
        0 <= i <= s.len(),
    ensures
        sum_sizes(s.take(i)) <= sum_sizes(s),
    decreases s.len() - i,
{
    if i < s.len() {
        lemma_sum_take_le(s, i + 1);
        assert(s.take(i + 1).drop_last() =~= s.take(i));
    }
}

/// The key of each file, in order.
fn keys_of(files: &Vec<FileInfo>, by_base: bool) -> (r: Vec<String>)
    ensures
        r.len() == files.len(),
        forall|i: int| 0 <= i < r.len() ==> #[trigger] r[i]@ == group_key(files[i], by_base),
{
    let mut r: Vec<String> = Vec::new();
    for i in 0..files.len()
        invariant
            r.len() == i,
            forall|j: int| 0 <= j < i ==> #[trigger] r[j]@ == group_key(files[j], by_base),
    {
        let k = if by_base {
            extract_base_name(files[i].name.as_str())
        } else {
            files[i].name.clone()
        };
        r.push(k);
    }
    r
}

/// The files under key `k`, and the sum of their sizes.
fn collect_members(files: &Vec<FileInfo>, keys: &Vec<String>, k: &String, by_base: bool) -> (r: (
    Vec<FileInfo>,
    u64,
))
    requires
        keys.len() == files.len(),
        forall|i: int| 0 <= i < keys.len() ==> #[trigger] keys[i]@ == group_key(files[i], by_base),
        sum_sizes(files@) <= u64::MAX,
    ensures
        r.0@ == members(files@, k@, by_base),
        r.1 == sum_sizes(r.0@),
{
    let mut m: Vec<FileInfo> = Vec::new();
    let mut total: u64 = 0;
    for i in 0..files.len()
        invariant
            keys.len() == files.len(),
            forall|i: int| 0 <= i < keys.len() ==> #[trigger] keys[i]@ == group_key(files[i], by_base),
            sum_sizes(files@) <= u64::MAX,
            m@ == files@.take(i as int).filter(key_is(k@, by_base)),
            total == sum_sizes(m@),
    {
        proof {
            assert(files@.take(i + 1) =~= files@.take(i as int).push(files@[i as int]));
            files@.take(i as int).lemma_filter_push(files@[i as int], key_is(k@, by_base));
        }
        if keys[i] == *k {
            let f = files[i].copy();
            proof {
                lemma_sum_filter_le(files@.take(i + 1), key_is(k@, by_base));
                lemma_sum_take_le(files@, i + 1);
                assert(m@.push(f).drop_last() =~= m@);
            }
            total = total + f.size;
            m.push(f);
        }
    }
    proof {
        assert(files@.take(files.len() as int) =~= files@);
    }
    (m, total)
}

/// `k` is the key of one of the first `n` strings of `d`.
pub open spec fn key_among(d: Seq<String>, n: int, k: Seq<char>) -> bool {
    exists|t: int| 0 <= t < n && #[trigger] d[t]@ == k
}

/// The keys of `keys`, each once, in order of first appearance.
pub(crate) fn distinct_keys(keys: &Vec<String>) -> (r: Vec<String>)
    ensures
        forall|t: int| 0 <= t < r.len() ==> key_among(keys@, keys.len() as int, #[trigger] r[t]@),
        forall|i: int, j: int| 0 <= i < j < r.len() ==> #[trigger] r[i]@ != #[trigger] r[j]@,
        forall|i: int| 0 <= i < keys.len() ==> key_among(r@, r.len() as int, #[trigger] keys[i]@),
{
    let mut r: Vec<String> = Vec::new();
    for i in 0..keys.len()
        invariant
            forall|a: int, b: int| 0 <= a < b < r.len() ==> #[trigger] r[a]@ != #[trigger] r[b]@,
            forall|a: int| 0 <= a < i ==> key_among(r@, r.len() as int, #[trigger] keys[a]@),
            forall|t: int| 0 <= t < r.len() ==> key_among(keys@, keys.len() as int, #[trigger] r[t]@),
    {
        let mut seen = false;
        let mut j: usize = 0;
        while j < r.len()
            invariant
                i < keys.len(),
                j <= r.len(),
                seen ==> key_among(r@, r.len() as int, keys[i as int]@),
                !seen ==> forall|b: int| 0 <= b < j ==> #[trigger] r[b]@ != keys[i as int]@,
            decreases r.len() - j,
        {
            if r[j] == keys[i] {
                seen = true;
            }
            j = j + 1;
        }
        if !seen {
            let ghost before = r@;
            r.push(keys[i].clone());
            assert(key_among(keys@, keys.len() as int, keys@[i as int]@));
            assert forall|t: int| 0 <= t < r.len() implies key_among(keys@, keys.len() as int, #[trigger] r@[t]@) by {
                if t < before.len() {
                    assert(r@[t] == before[t]);
                }
            }
            assert forall|a: int| 0 <= a <= i implies key_among(r@, r.len() as int, #[trigger] keys[a]@) by {
                if a < i {
                    let t = choose|t: int| 0 <= t < before.len() && #[trigger] before[t]@ == keys[a]@;
                    assert(r@[t] == before[t]);
                } else {
                    assert(r@[r.len() - 1]@ == keys[a]@);
                }
            }
        }
    }
    r
}

/// Each file of `v` with role `t`.
fn tag_vec(v: &Vec<FileInfo>, t: DuplicateType) -> (r: Vec<DuplicateFile>)
    ensures
        r@ == tag_all(v@, t),
{
    let mut r: Vec<DuplicateFile> = Vec::new();
    for i in 0..v.len()
        invariant
            r@ == tag_all(v@.take(i as int), t),
    {
        proof {
            assert(tag_all(v@.take(i + 1), t) =~= tag_all(v@.take(i as int), t).push(
                tagged(v@[i as int], t),
            ));
        }
        r.push(v[i].tag(t));
    }
    assert(v@.take(v.len() as int) =~= v@);
    r
}

/// The groups of files that share their exact name, one per such name.
pub fn exact_match_groups(files: &Vec<FileInfo>) -> (r: Vec<DuplicateGroup>)
    requires
        sum_sizes(files@) <= u64::MAX,
    ensures
        exact_groups_of(files@, r@),
{
    let keys = keys_of(files, false);
    let d = distinct_keys(&keys);
    let mut r: Vec<DuplicateGroup> = Vec::new();
    for t in 0..d.len()
        invariant
            keys.len() == files.len(),
            forall|i: int| 0 <= i < keys.len() ==> #[trigger] keys[i]@ == group_key(files[i], false),
            forall|a: int, b: int| 0 <= a < b < d.len() ==> #[trigger] d[a]@ != #[trigger] d[b]@,
            forall|i: int| 0 <= i < keys.len() ==> key_among(d@, d.len() as int, #[trigger] keys[i]@),
            sum_sizes(files@) <= u64::MAX,
            forall|j: int| 0 <= j < r.len() ==> is_exact_group(files@, #[trigger] r[j]),
            keys_distinct(r@),
            forall|j: int| 0 <= j < r.len() ==> key_among(d@, t as int, #[trigger] r[j].original_name@),
            forall|i: int|
                0 <= i < files.len() && key_among(d@, t as int, #[trigger] files[i].name@) && members(
                    files@,
                    files[i].name@,
                    false,
                ).len() >= 2 ==> has_group(r@, files[i].name@),
    {
        let (m, total) = collect_members(files, &keys, &d[t], false);
        let ghost before = r@;
        if m.len() >= 2 {
            let g = DuplicateGroup {
                original_name: d[t].clone(),
                files: tag_vec(&m, DuplicateType::Exact),
                total_size: total,
            };
            r.push(g);
            assert(r@[r.len() - 1] == g);
        }
        proof {
            assert forall|a: int, b: int| 0 <= a < b < r.len() implies #[trigger] r@[a].original_name@
                != #[trigger] r@[b].original_name@ by {
                if b == r.len() - 1 && r.len() > before.len() {
                    assert(r@[a] == before[a]);
                    let x = choose|x: int| 0 <= x < t && #[trigger] d@[x]@ == before[a].original_name@;
                } else {
                    assert(r@[a] == before[a] && r@[b] == before[b]);
                }
            }
            assert forall|j: int| 0 <= j < r.len() implies key_among(d@, t + 1, #[trigger] r@[j].original_name@) by {
                if j < before.len() {
                    assert(r@[j] == before[j]);
                    let x = choose|x: int| 0 <= x < t && #[trigger] d@[x]@ == before[j].original_name@;
                } else {
                    assert(d@[t as int]@ == r@[j].original_name@);
                }
            }
            assert forall|i: int|
                0 <= i < files.len() && key_among(d@, t + 1, #[trigger] files@[i].name@) && members(
                    files@,
                    files@[i].name@,
                    false,
                ).len() >= 2 implies has_group(r@, files@[i].name@) by {
                let x = choose|x: int| 0 <= x < t + 1 && #[trigger] d@[x]@ == files@[i].name@;
                if x < t {
                    let j = choose|j: int| 0 <= j < before.len() && #[trigger] before[j].original_name@ == files@[i].name@;
                    assert(r@[j] == before[j]);
                } else {
                    assert(r@[r.len() - 1].original_name@ == files@[i].name@);
                }
            }
        }
    }
    proof {
        assert forall|i: int|
            0 <= i < files.len() && members(files@, #[trigger] files@[i].name@, false).len() >= 2
            implies has_group(r@, files@[i].name@) by {
            assert(keys@[i]@ == files@[i].name@);
        }
    }
    r
}

/// Every file is either numbered or not.
pub proof fn lemma_filter_split_len(s: Seq<FileInfo>)
    ensures
        s.filter(plain_file()).len() + s.filter(numbered_file()).len() == s.len(),
    decreases s.len(),
{
    if s.len() > 0 {
        lemma_filter_split_len(s.drop_last());
        assert(s =~= s.drop_last().push(s.last()));
        s.drop_last().lemma_filter_push(s.last(), plain_file());
        s.drop_last().lemma_filter_push(s.last(), numbered_file());
    }
}

/// The members of a numbered group in their final order: the unmarked files as
/// they came, then the numbered copies by name. Also gives the number of copies.
fn arrange_numbered(m: &Vec<FileInfo>) -> (r: (Vec<DuplicateFile>, usize))
    ensures
        r.1 == m@.filter(numbered_file()).len(),
        r.0@.len() == m.len(),
        r.0@.take(m@.filter(plain_file()).len() as int) == tag_all(
            m@.filter(plain_file()),
            DuplicateType::Original,
        ),
        r.0@.skip(m@.filter(plain_file()).len() as int).to_multiset() == tag_all(
            m@.filter(numbered_file()),
            DuplicateType::Numbered,
        ).to_multiset(),
        sorted_by_name(r.0@.skip(m@.filter(plain_file()).len() as int)),
{
    let mut originals: Vec<DuplicateFile> = Vec::new();
    let mut copies: Vec<DuplicateFile> = Vec::new();
    for i in 0..m.len()
        invariant
            originals@ == tag_all(m@.take(i as int).filter(plain_file()), DuplicateType::Original),
            copies@ == tag_all(m@.take(i as int).filter(numbered_file()), DuplicateType::Numbered),
    {
        let ghost prev = m@.take(i as int);
        proof {
            assert(m@.take(i + 1) =~= prev.push(m@[i as int]));
            prev.lemma_filter_push(m@[i as int], plain_file());
            prev.lemma_filter_push(m@[i as int], numbered_file());
        }
        if is_numbered_duplicate(m[i].name.as_str()) {
            let f = m[i].tag(DuplicateType::Numbered);
            proof {
                let c = prev.filter(numbered_file());
                assert(tag_all(c.push(m@[i as int]), DuplicateType::Numbered) =~= tag_all(
                    c,
                    DuplicateType::Numbered,
                ).push(f));
            }
            copies.push(f);
        } else {
            let f = m[i].tag(DuplicateType::Original);
            proof {
                let o = prev.filter(plain_file());
                assert(tag_all(o.push(m@[i as int]), DuplicateType::Original) =~= tag_all(
                    o,
                    DuplicateType::Original,
                ).push(f));
            }
            originals.push(f);
        }
    }
    proof {
        assert(m@.take(m.len() as int) =~= m@);
        lemma_filter_split_len(m@);
    }
    let n = copies.len();
    let mut sorted = sort_by_name(copies);
    proof {
        vstd::seq_lib::to_multiset_len(sorted@);
        vstd::seq_lib::to_multiset_len(tag_all(m@.filter(numbered_file()), DuplicateType::Numbered));
    }
    let ghost head = originals@;
    let ghost tail = sorted@;
    let mut out = originals;
    out.append(&mut sorted);
    proof {
        assert(out@.take(head.len() as int) =~= head);
        assert(out@.skip(head.len() as int) =~= tail);
    }
    (out, n)
}

/// A numbered file gives its group a numbered copy.
proof fn lemma_numbered_member(files: Seq<FileInfo>, i: int)
    requires
        0 <= i < files.len(),
        is_numbered(files[i].name@),
    ensures
        members(files, base_name(files[i].name@), true).filter(numbered_file()).len() >= 1,
{
    let m = members(files, base_name(files[i].name@), true);
    assert(files.contains(files[i]));
    files.lemma_filter_contains_rev(key_is(base_name(files[i].name@), true), files[i]);
    m.lemma_filter_contains_rev(numbered_file(), files[i]);
}

/// The groups of numbered copies, one per base name that two or more files share
/// and at least one numbered copy has.
pub fn numbered_groups(files: &Vec<FileInfo>) -> (r: Vec<DuplicateGroup>)
    requires
        sum_sizes(files@) <= u64::MAX,
    ensures
        numbered_groups_of(files@, r@),
{
    let keys = keys_of(files, true);
    let d = distinct_keys(&keys);
    let mut r: Vec<DuplicateGroup> = Vec::new();
    for t in 0..d.len()
        invariant
            keys.len() == files.len(),
            forall|i: int| 0 <= i < keys.len() ==> #[trigger] keys[i]@ == group_key(files[i], true),
            forall|a: int, b: int| 0 <= a < b < d.len() ==> #[trigger] d[a]@ != #[trigger] d[b]@,
            forall|i: int| 0 <= i < keys.len() ==> key_among(d@, d.len() as int, #[trigger] keys[i]@),
            sum_sizes(files@) <= u64::MAX,
            forall|j: int| 0 <= j < r.len() ==> is_numbered_group(files@, #[trigger] r[j]),
            keys_distinct(r@),
            forall|j: int| 0 <= j < r.len() ==> key_among(d@, t as int, #[trigger] r[j].original_name@),
            forall|i: int|
                0 <= i < files.len() && is_numbered(files[i].name@) && key_among(
                    d@,
                    t as int,
                    #[trigger] base_name(files[i].name@),
                ) && members(files@, base_name(files[i].name@), true).len() >= 2 ==> has_group(
                    r@,
                    base_name(files[i].name@),
                ),
    {
        let (m, total) = collect_members(files, &keys, &d[t], true);
        let ghost before = r@;
        if m.len() >= 2 {
            let (arranged, n_copies) = arrange_numbered(&m);
            if n_copies >= 1 {
                let g = DuplicateGroup {
                    original_name: d[t].clone(),
                    files: arranged,
                    total_size: total,
                };
                r.push(g);
                assert(r@[r.len() - 1] == g);
            }
        }
        proof {
            assert forall|a: int, b: int| 0 <= a < b < r.len() implies #[trigger] r@[a].original_name@
                != #[trigger] r@[b].original_name@ by {
                if b == r.len() - 1 && r.len() > before.len() {
                    assert(r@[a] == before[a]);
                    let x = choose|x: int| 0 <= x < t && #[trigger] d@[x]@ == before[a].original_name@;
                } else {
                    assert(r@[a] == before[a] && r@[b] == before[b]);
                }
            }
            assert forall|j: int| 0 <= j < r.len() implies key_among(d@, t + 1, #[trigger] r@[j].original_name@) by {
                if j < before.len() {
                    assert(r@[j] == before[j]);
                    let x = choose|x: int| 0 <= x < t && #[trigger] d@[x]@ == before[j].original_name@;
                } else {
                    assert(d@[t as int]@ == r@[j].original_name@);
                }
            }
            assert forall|i: int|
                0 <= i < files.len() && is_numbered(files@[i].name@) && key_among(
                    d@,
                    t + 1,
                    #[trigger] base_name(files@[i].name@),
                ) && members(files@, base_name(files@[i].name@), true).len() >= 2 implies has_group(
                    r@,
                    base_name(files@[i].name@),
                ) by {
                let k = base_name(files@[i].name@);
                let x = choose|x: int| 0 <= x < t + 1 && #[trigger] d@[x]@ == k;
                if x < t {
                    let j = choose|j: int| 0 <= j < before.len() && #[trigger] before[j].original_name@ == k;
                    assert(r@[j] == before[j]);
                } else {
                    lemma_numbered_member(files@, i);
                    assert(r@[r.len() - 1].original_name@ == k);
                }
            }
        }
    }
    proof {
        assert forall|i: int|
            0 <= i < files.len() && is_numbered(#[trigger] files@[i].name@) && members(
                files@,
                base_name(files@[i].name@),
                true,
            ).len() >= 2 implies has_group(r@, base_name(files@[i].name@)) by {
            assert(keys@[i]@ == base_name(files@[i].name@));
        }
    }
    r
}

/// `gs` is the exact-match groups of `files` followed by their numbered groups.
pub open spec fn duplicate_groups_of(files: Seq<FileInfo>, gs: Seq<DuplicateGroup>) -> bool {
    exists|n: int|
        0 <= n <= gs.len() && exact_groups_of(files, #[trigger] gs.take(n)) && numbered_groups_of(
            files,
            gs.skip(n),
        )
}

/// All duplicate groups of the files of one directory: first those of files that
/// share their exact name, then those of numbered copies. A file may stand in one
/// group of each kind.
pub fn find_duplicates(files: &Vec<FileInfo>) -> (r: Vec<DuplicateGroup>)
    requires
        sum_sizes(files@) <= u64::MAX,
    ensures
        duplicate_groups_of(files@, r@),
{
    let mut r = exact_match_groups(files);
    let mut numbered = numbered_groups(files);
    let ghost a = r@;
    let ghost b = numbered@;
    r.append(&mut numbered);
    assert(r@.take(a.len() as int) =~= a);
    assert(r@.skip(a.len() as int) =~= b);
    r
}

/// The sum of all sizes, or `None` where it does not fit in a `u64`.
pub fn checked_total_size(files: &Vec<FileInfo>) -> (r: Option<u64>)
    ensures
        r matches Some(t) ==> t == sum_sizes(files@),
        r is None ==> sum_sizes(files@) > u64::MAX,
{
    let mut total: u64 = 0;
    for i in 0..files.len()
        invariant
            total == sum_sizes(files@.take(i as int)),
    {
        proof {
            assert(files@.take(i + 1).drop_last() =~= files@.take(i as int));
        }
        match total.checked_add(files[i].size) {
            Some(t) => total = t,
            None => {
                proof {
                    lemma_sum_take_le(files@, i + 1);
                }
                return None;
            },
        }
    }
    assert(files@.take(files.len() as int) =~= files@);
    Some(total)
}

} // verus!
