//! Character-level helpers shared by the extractor.
use vstd::prelude::*;
use vstd::string::StrSliceExecFns;

verus! {

/// `m` stands in `s` at position `i`.
pub open spec fn occurs_at(s: Seq<char>, m: Seq<char>, i: int) -> bool {
    0 <= i && i + m.len() <= s.len() && s.subrange(i, i + m.len()) == m
}

/// Position of the first occurrence of `m` in `s` at or after `i`.
pub open spec fn first_from(s: Seq<char>, m: Seq<char>, i: int) -> Option<int>
    decreases s.len() + 1 - i,
{
    if i < 0 || i + m.len() > s.len() {
        None
    } else if occurs_at(s, m, i) {
        Some(i)
    } else {
        first_from(s, m, i + 1)
    }
}

/// Position of the first occurrence of `m` in `s`.
pub open spec fn first_of(s: Seq<char>, m: Seq<char>) -> Option<int> {
    first_from(s, m, 0)
}

/// What `first_from` finds is an occurrence, and none stands before it.
pub proof fn lemma_first_from(s: Seq<char>, m: Seq<char>, i: int)
    requires
        0 <= i,
    ensures
        match first_from(s, m, i) {
            Some(p) => i <= p && occurs_at(s, m, p) && forall|j: int|
                i <= j < p ==> !occurs_at(s, m, j),
            None => forall|j: int| i <= j ==> !occurs_at(s, m, j),
        },
    decreases s.len() + 1 - i,
{
    if i + m.len() > s.len() {
    } else if occurs_at(s, m, i) {
    } else {
        lemma_first_from(s, m, i + 1);
    }
}

/// The characters of `s`, one per element.
pub fn chars_of(s: &str) -> (r: Vec<char>)
    ensures
        r@ == s@,
{
    let n = s.unicode_len();
    let mut r: Vec<char> = Vec::new();
    let mut i: usize = 0;
    while i < n
        invariant
            n == s@.len(),
            i <= n,
            r@ == s@.take(i as int),
        decreases n - i,
    {
        let c = s.get_char(i);
        r.push(c);
        i = i + 1;
        assert(r@ =~= s@.take(i as int));
    }
    assert(r@ =~= s@);
    r
}

/// Whether `m` stands in `s` at position `i`.
pub(crate) fn matches_at(s: &Vec<char>, m: &Vec<char>, i: usize) -> (r: bool)
    requires
        i + m@.len() <= s@.len(),
    ensures
        r == occurs_at(s@, m@, i as int),
{
    let mut k: usize = 0;
    while k < m.len()
        invariant
            i + m@.len() <= s@.len(),
            k <= m@.len(),
            forall|j: int| 0 <= j < k ==> s@[i + j] == m@[j],
        decreases m@.len() - k,
    {
        assert(i + k < s.len());
        if s[i + k] != m[k] {
            assert(s@.subrange(i as int, i + m@.len())[k as int] != m@[k as int]);
            return false;
        }
        k = k + 1;
    }
    assert(s@.subrange(i as int, i + m@.len()) =~= m@);
    true
}

/// The first position at or after `from` where `m` stands in `s`.
pub fn find_from(s: &Vec<char>, m: &Vec<char>, from: usize) -> (r: Option<usize>)
    ensures
        r is None <==> first_from(s@, m@, from as int) is None,
        r matches Some(p) ==> first_from(s@, m@, from as int) == Some(p as int),
{
    let mut i: usize = from;
    if m.len() > s.len() {
        return None;
    }
    let last = s.len() - m.len();
    while i <= last
        invariant
            last == s@.len() - m@.len(),
            from <= i,
            first_from(s@, m@, from as int) == first_from(s@, m@, i as int),
        decreases last + 1 - i,
    {
        if matches_at(s, m, i) {
            return Some(i);
        }
        if i == last {
            return None;
        }
        i = i + 1;
    }
    None
}

} // verus!
