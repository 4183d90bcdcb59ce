use vstd::prelude::*;

verus! {

/// Whether `pat` occurs in `hay` at byte `i`.
pub open spec fn matches_at(hay: Seq<u8>, pat: Seq<u8>, i: int) -> bool {
    0 <= i && i + pat.len() <= hay.len() && hay.subrange(i, i + pat.len()) == pat
}

/// The first position at or after `i` where `pat` occurs in `hay`.
pub open spec fn find_from(hay: Seq<u8>, pat: Seq<u8>, i: int) -> Option<int>
    decreases hay.len() + 1 - i,
{
    if i < 0 || i + pat.len() > hay.len() {
        None
    } else if hay.subrange(i, i + pat.len()) == pat {
        Some(i)
    } else {
        find_from(hay, pat, i + 1)
    }
}

/// The first position where `pat` occurs in `hay`, as `str::find` reports it.
pub open spec fn first_index(hay: Seq<u8>, pat: Seq<u8>) -> Option<int> {
    find_from(hay, pat, 0)
}

/// Whether `hay` begins with `pat`.
pub open spec fn starts_with(hay: Seq<u8>, pat: Seq<u8>) -> bool {
    pat.len() <= hay.len() && hay.take(pat.len() as int) == pat
}

/// Where a found position lies, and that it is a match.
pub proof fn lemma_find_from_found(hay: Seq<u8>, pat: Seq<u8>, i: int)
    requires
        find_from(hay, pat, i) is Some,
    ensures
        i <= find_from(hay, pat, i)->Some_0,
        matches_at(hay, pat, find_from(hay, pat, i)->Some_0),
    decreases hay.len() + 1 - i,
{
    if i < 0 || i + pat.len() > hay.len() {
    } else if hay.subrange(i, i + pat.len()) == pat {
    } else {
        lemma_find_from_found(hay, pat, i + 1);
    }
}

/// The search finds the first occurrence: whenever `pat` occurs in `hay` at
/// some `j` at or after `i`, the search from `i` stops at an occurrence no
/// later than `j`, with none between `i` and it, however long `hay` is.
pub proof fn lemma_find_from_complete(hay: Seq<u8>, pat: Seq<u8>, i: int, j: int)
    requires
        0 <= i <= j,
        j + pat.len() <= hay.len(),
        hay.subrange(j, j + pat.len()) == pat,
    ensures
        find_from(hay, pat, i) matches Some(k) && i <= k <= j && hay.subrange(k, k + pat.len()) == pat,
        find_from(hay, pat, i) matches Some(k) && forall|m: int| i <= m < k ==> #[trigger] hay.subrange(m, m + pat.len()) != pat,
    decreases j - i,
{
    if hay.subrange(i, i + pat.len()) != pat {
        lemma_find_from_complete(hay, pat, i + 1, j);
    }
}

/// Whether `pat` occurs at byte `i` of `hay`.
fn match_at(hay: &[u8], pat: &[u8], i: usize) -> (r: bool)
    requires
        i + pat@.len() <= hay@.len(),
    ensures
        r == (hay@.subrange(i as int, i + pat@.len()) == pat@),
{
    let n = hay.len();
    let mut k: usize = 0;
    while k < pat.len()
        invariant
            n == hay@.len(),
            i + pat@.len() <= hay@.len(),
            k <= pat@.len(),
            forall|m: int| 0 <= m < k ==> hay@[i + m] == pat@[m],
        decreases pat@.len() - k,
    {
        let h = hay[i + k];
        if h != pat[k] {
            assert(hay@.subrange(i as int, i + pat@.len())[k as int] != pat@[k as int]);
            return false;
        }
        k = k + 1;
    }
    assert(hay@.subrange(i as int, i + pat@.len()) =~= pat@);
    true
}

/// The first position where `pat` occurs in `hay`.
pub fn find_bytes(hay: &[u8], pat: &[u8]) -> (r: Option<usize>)
    ensures
        r matches Some(i) ==> first_index(hay@, pat@) == Some(i as int),
        r is None ==> first_index(hay@, pat@) is None,
{
    if pat.len() > hay.len() {
        return None;
    }
    let last = hay.len() - pat.len();
    let mut i: usize = 0;
    while i <= last
        invariant
            last == hay@.len() - pat@.len(),
            i <= last + 1,
            first_index(hay@, pat@) == find_from(hay@, pat@, i as int),
        decreases last + 1 - i,
    {
        if match_at(hay, pat, i) {
            return Some(i);
        }
        if i == last {
            assert(find_from(hay@, pat@, i + 1) is None);
            return None;
        }
        i = i + 1;
    }
    None
}

/// Whether `hay` begins with `pat`.
pub fn starts_with_bytes(hay: &[u8], pat: &[u8]) -> (r: bool)
    ensures
        r == starts_with(hay@, pat@),
{
    if pat.len() > hay.len() {
        return false;
    }
    let r = match_at(hay, pat, 0);
    assert(hay@.subrange(0, pat@.len() as int) =~= hay@.take(pat@.len() as int));
    r
}

} // verus!
