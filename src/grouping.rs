//! Sorting a directory's files into groups by extension or by age.
use vstd::prelude::*;
use vstd::string::*;
use crate::models::{FileGroup, FileInfo};
use crate::classify::{distinct_keys, key_among};
use crate::names::chars_of;

verus! {

broadcast use vstd::seq_lib::group_seq_properties;

/// What `str::to_lowercase` makes of `s`.
pub uninterp spec fn lower_of(s: Seq<char>) -> Seq<char>;

/// All characters of `s` are ASCII.
pub open spec fn all_ascii(s: Seq<char>) -> bool {
    forall|i: int| 0 <= i < s.len() ==> (#[trigger] s[i] as u32) < 128
}

/// `r` is `s` with each ASCII capital letter replaced by its small letter.
pub open spec fn ascii_lowered(s: Seq<char>, r: Seq<char>) -> bool {
    &&& r.len() == s.len()
    &&& forall|i: int|
        0 <= i < s.len() ==> if 'A' <= #[trigger] s[i] && s[i] <= 'Z' {
            r[i] as u32 == s[i] as u32 + 32
        } else {
            r[i] == s[i]
        }
}

/// Relies on `str::to_lowercase`: the lowercase form of `s`, which depends on the
/// characters of `s` alone; an empty string stays empty, and on ASCII text only the
/// letters `A` to `Z` change, each to its small letter.
#[verifier::external_body]
fn lowercase(s: &str) -> (r: String)
    ensures
        r@ == lower_of(s@),
        s@.len() == 0 ==> r@.len() == 0,
        all_ascii(s@) ==> ascii_lowered(s@, r@),
{
    s.to_lowercase()
}

/// The last index below `k` that holds a dot.
pub open spec fn last_dot_below(s: Seq<char>, k: int) -> Option<int>
    decreases k,
{
    if k <= 0 {
        None
    } else if s[k - 1] == '.' {
        Some(k - 1)
    } else {
        last_dot_below(s, k - 1)
    }
}

/// The extension of a file name, as `Path::extension` reads it: what follows the
/// last dot, unless that dot is the name's first character or there is none. The
/// name `".."` has none.
pub open spec fn extension(name: Seq<char>) -> Option<Seq<char>> {
    if name == ".."@ {
        None
    } else {
        match last_dot_below(name, name.len() as int) {
            Some(p) => if p > 0 {
                Some(name.skip(p + 1))
            } else {
                None
            },
            None => None,
        }
    }
}

/// The key under which a file is grouped by extension: its extension in lowercase,
/// or `lower_of("unknown")` where it has none.
pub open spec fn extension_key(name: Seq<char>) -> Seq<char> {
    match extension(name) {
        Some(e) => lower_of(e),
        None => lower_of("unknown"@),
    }
}

/// The extension of `name`, if it has one.
pub fn file_extension(name: &str) -> (r: Option<String>)
    ensures
        r matches Some(e) ==> extension(name@) == Some(e@),
        r is None ==> extension(name@) is None,
{
    let s = chars_of(name);
    proof {
        reveal_strlit("..");
    }
    if s.len() == 2 && s[0] == '.' && s[1] == '.' {
        assert(name@ =~= ".."@);
        return None;
    }
    assert(name@ != ".."@) by {
        if name@ == ".."@ {
            assert(name@[0] == '.' && name@[1] == '.');
        }
    }
    let mut k: usize = s.len();
    while k > 0
        invariant
            k <= s.len(),
            s@ == name@,
            name@ != ".."@,
            last_dot_below(name@, name@.len() as int) == last_dot_below(name@, k as int),
        decreases k,
    {
        if s[k - 1] == '.' {
            if k - 1 > 0 {
                proof {
                    assert(name@.subrange(k as int, name@.len() as int) =~= name@.skip(k as int));
                }
                return Some(name.substring_char(k, s.len()).to_owned());
            } else {
                return None;
            }
        }
        k = k - 1;
    }
    None
}

/// The extension key of a file name.
pub fn extension_key_of(name: &str) -> (r: String)
    ensures
        r@ == extension_key(name@),
{
    proof {
        reveal_strlit("unknown");
    }
    match file_extension(name) {
        Some(e) => lowercase(e.as_str()),
        None => lowercase("unknown"),
    }
}

/// The age bucket of a file modified `elapsed` seconds ago; `None` where the time
/// of modification could not be read.
pub open spec fn age_label(elapsed: Option<u64>) -> Seq<char> {
    match elapsed {
        Some(t) => if t < 86400 {
            "Today"@
        } else if t < 7 * 86400 {
            "This Week"@
        } else {
            "Older"@
        },
        None => "Unknown"@,
    }
}

/// The age bucket of a file modified `elapsed` seconds ago.
pub fn age_bucket(elapsed: Option<u64>) -> (r: String)
    ensures
        r@ == age_label(elapsed),
{
    proof {
        reveal_strlit("Today");
        reveal_strlit("This Week");
        reveal_strlit("Older");
        reveal_strlit("Unknown");
    }
    match elapsed {
        Some(t) => if t < 86400 {
            "Today".to_owned()
        } else if t < 7 * 86400 {
            "This Week".to_owned()
        } else {
            "Older".to_owned()
        },
        None => "Unknown".to_owned(),
    }
}

/// The files whose key (the key at the same index of `keys`) is `k`, in order.
pub open spec fn keyed_members(files: Seq<FileInfo>, keys: Seq<Seq<char>>, k: Seq<char>) -> Seq<
    FileInfo,
>
    decreases files.len(),
{
    if files.len() == 0 || keys.len() == 0 {
        Seq::empty()
    } else {
        let rest = keyed_members(files.drop_last(), keys.drop_last(), k);
        if keys.last() == k {
            rest.push(files.last())
        } else {
            rest
        }
    }
}

/// `gs` holds one group per key of `keys`, each with all the files of that key.
pub open spec fn grouped_by(files: Seq<FileInfo>, keys: Seq<Seq<char>>, gs: Seq<FileGroup>) -> bool {
    &&& forall|j: int|
        0 <= j < gs.len() ==> keys.contains(#[trigger] gs[j].key@) && gs[j].files@
            == keyed_members(files, keys, gs[j].key@)
    &&& forall|a: int, b: int| 0 <= a < b < gs.len() ==> #[trigger] gs[a].key@ != #[trigger] gs[b].key@
    &&& forall|i: int| 0 <= i < keys.len() ==> has_key(gs, #[trigger] keys[i])
}

/// Some group of `gs` has key `k`.
pub open spec fn has_key(gs: Seq<FileGroup>, k: Seq<char>) -> bool {
    exists|j: int| 0 <= j < gs.len() && #[trigger] gs[j].key@ == k
}

/// The views of `v`.
pub open spec fn views(v: Seq<String>) -> Seq<Seq<char>> {
    v.map_values(|s: String| s@)
}

/// The files whose key is `k`.
fn collect_keyed(files: &Vec<FileInfo>, keys: &Vec<String>, k: &String) -> (r: Vec<FileInfo>)
    requires
        files.len() == keys.len(),
    ensures
        r@ == keyed_members(files@, views(keys@), k@),
{
    let mut m: Vec<FileInfo> = Vec::new();
    for i in 0..files.len()
        invariant
            files.len() == keys.len(),
            m@ == keyed_members(files@.take(i as int), views(keys@).take(i as int), k@),
    {
        proof {
            assert(files@.take(i + 1).drop_last() =~= files@.take(i as int));
            assert(views(keys@).take(i + 1).drop_last() =~= views(keys@).take(i as int));
        }
        if keys[i] == *k {
            m.push(files[i].copy());
        }
    }
    proof {
        assert(files@.take(files.len() as int) =~= files@);
        assert(views(keys@).take(files.len() as int) =~= views(keys@));
    }
    m
}

/// Groups `files` by the key at the same index of `keys`: one group per key, each
/// with all the files of that key in their order.
pub fn group_by_keys(files: &Vec<FileInfo>, keys: &Vec<String>) -> (r: Vec<FileGroup>)
    requires
        files.len() == keys.len(),
    ensures
        grouped_by(files@, views(keys@), r@),
{
    let d = distinct_keys(keys);
    let mut r: Vec<FileGroup> = Vec::new();
    for t in 0..d.len()
        invariant
            files.len() == keys.len(),
            r.len() == t,
            forall|j: int|
                0 <= j < t ==> (#[trigger] r[j]).key@ == d[j]@ && r[j].files@ == keyed_members(
                    files@,
                    views(keys@),
                    d[j]@,
                ),
    {
        let m = collect_keyed(files, keys, &d[t]);
        let ghost before = r@;
        r.push(FileGroup { key: d[t].clone(), files: m });
        assert forall|j: int| 0 <= j < t + 1 implies (#[trigger] r@[j]).key@ == d@[j]@ && r@[j].files@ == keyed_members(
                    files@,
                    views(keys@),
                    d@[j]@,
                ) by {
            if j < t {
                assert(r@[j] == before[j]);
            }
        }
    }
    proof {
        assert forall|j: int| 0 <= j < r.len() implies views(keys@).contains(#[trigger] r[j].key@)
            by {
            assert(key_among(keys@, keys.len() as int, d@[j]@));
            let i = choose|i: int| 0 <= i < keys.len() && #[trigger] keys@[i]@ == d@[j]@;
            assert(views(keys@)[i] == r[j].key@);
        }
        assert forall|a: int, b: int| 0 <= a < b < r.len() implies #[trigger] r[a].key@
            != #[trigger] r[b].key@ by {
            assert(r[a].key@ == d[a]@ && r[b].key@ == d[b]@);
        }
        assert forall|i: int| 0 <= i < views(keys@).len() implies has_key(
            r@,
            #[trigger] views(keys@)[i],
        ) by {
            assert(key_among(d@, d.len() as int, keys@[i]@));
            let t = choose|t: int| 0 <= t < d.len() && #[trigger] d@[t]@ == keys@[i]@;
            assert(r[t].key@ == views(keys@)[i]);
        }
    }
    r
}

/// The extension key of each file.
pub open spec fn extension_keys(files: Seq<FileInfo>) -> Seq<Seq<char>> {
    files.map_values(|f: FileInfo| extension_key(f.name@))
}

/// Groups `files` by lowercase extension; files without one go under "unknown".
pub fn group_by_extension(files: &Vec<FileInfo>) -> (r: Vec<FileGroup>)
    ensures
        grouped_by(files@, extension_keys(files@), r@),
{
    let mut keys: Vec<String> = Vec::new();
    for i in 0..files.len()
        invariant
            keys.len() == i,
            forall|j: int| 0 <= j < i ==> #[trigger] keys[j]@ == extension_key(files[j].name@),
    {
        keys.push(extension_key_of(files[i].name.as_str()));
    }
    assert(views(keys@) =~= extension_keys(files@));
    group_by_keys(files, &keys)
}

/// The age bucket of each file, from the seconds since its modification.
pub open spec fn age_keys(elapsed: Seq<Option<u64>>) -> Seq<Seq<char>> {
    elapsed.map_values(|e: Option<u64>| age_label(e))
}

/// Groups `files` by age: `elapsed[i]` is the number of seconds since `files[i]`
/// was modified, or `None` where that could not be read.
pub fn group_by_age(files: &Vec<FileInfo>, elapsed: &Vec<Option<u64>>) -> (r: Vec<FileGroup>)
    requires
        files.len() == elapsed.len(),
    ensures
        grouped_by(files@, age_keys(elapsed@), r@),
{
    let mut keys: Vec<String> = Vec::new();
    for i in 0..elapsed.len()
        invariant
            keys.len() == i,
            forall|j: int| 0 <= j < i ==> #[trigger] keys[j]@ == age_label(elapsed[j]),
    {
        keys.push(age_bucket(elapsed[i]));
    }
    assert(views(keys@) =~= age_keys(elapsed@));
    group_by_keys(files, &keys)
}

} // verus!
