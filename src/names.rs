//! Reading the copy marker that file managers append to a name:
//! `"report (2).pdf"` is the second copy of `"report.pdf"`.
use vstd::prelude::*;
use vstd::string::*;

verus! {

pub open spec fn is_digit(c: char) -> bool {
    '0' <= c && c <= '9'
}

/// A space followed by an opening parenthesis starts at index `i`.
pub open spec fn opens_at(s: Seq<char>, i: int) -> bool {
    0 <= i && i + 1 < s.len() && s[i] == ' ' && s[i + 1] == '('
}

/// The last index below `k` at which `" ("` starts.
pub open spec fn last_open_below(s: Seq<char>, k: int) -> Option<int>
    decreases k,
{
    if k <= 0 {
        None
    } else if opens_at(s, k - 1) {
        Some(k - 1)
    } else {
        last_open_below(s, k - 1)
    }
}

/// Where the last `" ("` of `s` starts.
pub open spec fn last_open(s: Seq<char>) -> Option<int> {
    last_open_below(s, s.len() as int)
}

/// After the `" ("` at `p`, `s[p + 2..q]` holds digits only and `s[q]` is the
/// closing parenthesis.
pub open spec fn digits_then_close(s: Seq<char>, p: int, q: int) -> bool {
    &&& p + 2 <= q < s.len()
    &&& s[q] == ')'
    &&& forall|j: int| p + 2 <= j < q ==> is_digit(#[trigger] s[j])
}

/// The name with its trailing `" (<digits>)"` marker, and all that follows it, cut off.
/// The marker needs one or more digits; a name without one is its own base name.
pub open spec fn base_name(s: Seq<char>) -> Seq<char> {
    match last_open(s) {
        Some(p) => if exists|q: int| q > p + 2 && #[trigger] digits_then_close(s, p, q) {
            s.take(p)
        } else {
            s
        },
        None => s,
    }
}

/// The name carries a copy marker: its last `" ("` is followed by one or more
/// digits and then `)`.
pub open spec fn is_numbered(s: Seq<char>) -> bool {
    match last_open(s) {
        Some(p) => exists|q: int| q > p + 2 && #[trigger] digits_then_close(s, p, q),
        None => false,
    }
}

/// The characters of `s`, one by one.
pub fn chars_of(s: &str) -> (r: Vec<char>)
    ensures
        r@ == s@,
{
    let mut v: Vec<char> = Vec::new();
    for c in it: s.chars()
        invariant
            v@ == it.seq().take(it.index() as int),
    {
        v.push(c);
    }
    v
}

fn find_last_open(s: &Vec<char>) -> (r: Option<usize>)
    ensures
        r matches Some(p) ==> last_open(s@) == Some(p as int) && p + 1 < s.len(),
        r is None ==> last_open(s@) is None,
{
    let mut k: usize = s.len();
    while k > 0
        invariant
            k <= s.len(),
            last_open(s@) == last_open_below(s@, k as int),
        decreases k,
    {
        if k < s.len() && s[k - 1] == ' ' && s[k] == '(' {
            return Some(k - 1);
        }
        k = k - 1;
    }
    None
}

/// The index of the `)` that closes a run of digits after the `" ("` at `p`, if the
/// run is followed by one.
fn find_digits_close(s: &Vec<char>, p: usize) -> (r: Option<usize>)
    requires
        p + 1 < s.len(),
    ensures
        r matches Some(q) ==> digits_then_close(s@, p as int, q as int),
        r is None ==> forall|q: int| !#[trigger] digits_then_close(s@, p as int, q),
{
    let from: usize = p + 2;
    let mut j: usize = from;
    while j < s.len() && '0' <= s[j] && s[j] <= '9'
        invariant
            from <= j,
            forall|k: int| from <= k < j && k < s.len() ==> is_digit(#[trigger] s@[k]),
        decreases s.len() - j,
    {
        j = j + 1;
    }
    if j < s.len() && s[j] == ')' {
        Some(j)
    } else {
        assert forall|q: int| !#[trigger] digits_then_close(s@, p as int, q) by {
                if digits_then_close(s@, p as int, q) {
                if q < j {
                    assert(is_digit(s@[q]));
                } else if q > j {
                    assert(is_digit(s@[j as int]));
                }
            }
        }
        None
    }
}

/// The key under which copies of one file are grouped: the name with a trailing
/// `" (<digits>)"` marker and everything after it removed.
pub fn extract_base_name(filename: &str) -> (r: String)
    ensures
        r@ == base_name(filename@),
{
    let s = chars_of(filename);
    if let Some(pos) = find_last_open(&s) {
        if let Some(close) = find_digits_close(&s, pos) {
            assert(digits_then_close(filename@, pos as int, close as int));
            assert(last_open(filename@)->0 == pos as int);
            if close > pos + 2 {
                assert(filename@.take(pos as int) =~= filename@.subrange(0, pos as int));
                return filename.substring_char(0, pos).to_owned();
            }
            assert forall|q: int| #[trigger] digits_then_close(s@, pos as int, q) implies q
                <= pos + 2 by {
                if q > pos + 2 {
                    assert(is_digit(s@[pos + 2]));
                }
            }
        }
    }
    filename.to_owned()
}

/// Whether the name ends in a copy marker `" (<digits>)"` with at least one digit,
/// judged at its last `" ("`.
pub fn is_numbered_duplicate(filename: &str) -> (r: bool)
    ensures
        r == is_numbered(filename@),
{
    let s = chars_of(filename);
    if let Some(pos) = find_last_open(&s) {
        if let Some(close) = find_digits_close(&s, pos) {
            if close == pos + 2 {
                assert forall|q: int| #[trigger] digits_then_close(s@, pos as int, q) implies q
                    <= pos + 2 by {
                    if q > pos + 2 {
                        assert(is_digit(s@[pos + 2]));
                    }
                }
            }
            assert(digits_then_close(filename@, pos as int, close as int));
            assert(last_open(filename@)->0 == pos as int);
            return close > pos + 2;
        }
    }
    false
}

/// One rule decides both: a name differs from its base name exactly when it
/// carries a copy marker, and then the base name is what precedes its last `" ("`.
pub proof fn lemma_base_name_iff_numbered(s: Seq<char>)
    ensures
        (base_name(s) != s) == is_numbered(s),
        is_numbered(s) ==> base_name(s) == s.take(last_open(s)->0),
{
    if let Some(p) = last_open(s) {
        lemma_last_open_in_range(s, s.len() as int);
        if is_numbered(s) {
            assert(base_name(s).len() < s.len());
        }
    }
}

/// Where `" ("` is found, it lies inside the name.
proof fn lemma_last_open_in_range(s: Seq<char>, k: int)
    ensures
        last_open_below(s, k) matches Some(p) ==> 0 <= p < k && p + 1 < s.len(),
    decreases k,
{
    if k > 0 && !opens_at(s, k - 1) {
        lemma_last_open_in_range(s, k - 1);
    }
}

} // verus!
