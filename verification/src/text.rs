//! Small functions on the characters of a string.

use vstd::prelude::*;
use vstd::string::StrSliceExecFns;

verus! {

/// The characters of each of a run of strings, in order.
pub open spec fn string_views(s: Seq<String>) -> Seq<Seq<char>> {
    s.map_values(|x: String| x@)
}

/// Whether `pat` occurs in `s` at position `at`.
pub open spec fn occurs_at(s: Seq<char>, pat: Seq<char>, at: int) -> bool {
    0 <= at && at + pat.len() <= s.len() && s.subrange(at, at + pat.len()) == pat
}

/// Whether `pat` occurs somewhere in `s`.
pub open spec fn occurs_in(s: Seq<char>, pat: Seq<char>) -> bool {
    exists|at: int| occurs_at(s, pat, at)
}

/// Where the last dot-separated segment of `s` starts: behind the last `.`,
/// or at 0 where `s` holds none.
pub open spec fn segment_start(s: Seq<char>) -> int
    decreases s.len(),
{
    if s.len() == 0 {
        0
    } else if s.last() == '.' {
        s.len() as int
    } else {
        segment_start(s.drop_last())
    }
}

/// The last dot-separated segment of `s`.
pub open spec fn last_segment(s: Seq<char>) -> Seq<char> {
    s.skip(segment_start(s))
}

/// Whether `s` holds no `.`.
pub open spec fn dotless(s: Seq<char>) -> bool {
    forall|i: int| 0 <= i < s.len() ==> s[i] != '.'
}

/// The start of the last segment is the one position that has no `.` behind
/// it and either is 0 or has a `.` just before it.
pub proof fn lemma_segment_start(s: Seq<char>, k: int)
    requires
        0 <= k <= s.len(),
        k == 0 || s[k - 1] == '.',
        forall|j: int| k <= j < s.len() ==> s[j] != '.',
    ensures
        segment_start(s) == k,
    decreases s.len(),
{
    if s.len() > 0 && s.last() != '.' {
        lemma_segment_start(s.drop_last(), k);
    }
}

/// The last segment of a prefix that ends in `.` followed by a dotless
/// string is that string.
pub proof fn lemma_last_segment_of_joined(prefix: Seq<char>, id: Seq<char>)
    requires
        prefix.len() > 0,
        prefix.last() == '.',
        dotless(id),
    ensures
        last_segment(prefix + id) == id,
{
    let s = prefix + id;
    assert(s[prefix.len() - 1] == prefix.last());
    assert forall|j: int| prefix.len() <= j < s.len() implies s[j] != '.' by {
        assert(s[j] == id[j - prefix.len()]);
    }
    lemma_segment_start(s, prefix.len() as int);
    assert(s.skip(prefix.len() as int) =~= id);
}

/// Whether `s` is among `items`.
pub fn strings_contain(items: &Vec<String>, s: &String) -> (b: bool)
    ensures
        b == string_views(items@).contains(s@),
{
    let ghost views = string_views(items@);
    let mut i: usize = 0;
    while i < items.len()
        invariant
            i <= items.len(),
            views == string_views(items@),
            forall|j: int| 0 <= j < i ==> views[j] != s@,
        decreases items.len() - i,
    {
        if items[i] == *s {
            assert(views[i as int] == s@);
            return true;
        }
        i += 1;
    }
    false
}

/// The characters of `s`.
pub fn chars_of(s: &str) -> (v: Vec<char>)
    ensures
        v@ == s@,
{
    let n = s.unicode_len();
    let mut v: Vec<char> = Vec::new();
    let mut i: usize = 0;
    while i < n
        invariant
            i <= n,
            n == s@.len(),
            v@ == s@.take(i as int),
        decreases n - i,
    {
        v.push(s.get_char(i));
        assert(v@ =~= s@.take(i + 1));
        i += 1;
    }
    assert(s@.take(n as int) =~= s@);
    v
}

/// Whether `pat` occurs in `text`.
pub fn has_infix(text: &str, pat: &str) -> (found: bool)
    ensures
        found == occurs_in(text@, pat@),
{
    let t = chars_of(text);
    let p = chars_of(pat);
    if p.len() > t.len() {
        assert(!occurs_in(text@, pat@)) by {
            if occurs_in(text@, pat@) {
                let at = choose|at: int| occurs_at(text@, pat@, at);
                assert(occurs_at(text@, pat@, at));
            }
        }
        return false;
    }
    let last = t.len() - p.len();
    let mut at: usize = 0;
    while at <= last
        invariant
            at <= last + 1,
            last == t@.len() - p@.len(),
            t@ == text@,
            p@ == pat@,
            forall|k: int| 0 <= k < at ==> !occurs_at(text@, pat@, k),
        decreases last + 1 - at,
    {
        let mut j: usize = 0;
        while j < p.len() && t[at + j] == p[j]
            invariant
                j <= p.len(),
                at + p.len() <= t.len(),
                forall|k: int| 0 <= k < j ==> t@[at + k] == p@[k],
            decreases p.len() - j,
        {
            j += 1;
        }
        if j == p.len() {
            assert(t@.subrange(at as int, at + p@.len()) =~= p@);
            assert(occurs_at(text@, pat@, at as int));
            return true;
        }
        assert(!occurs_at(text@, pat@, at as int)) by {
            if occurs_at(text@, pat@, at as int) {
                assert(t@.subrange(at as int, at + p@.len())[j as int] == p@[j as int]);
            }
        }
        at += 1;
    }
    assert(!occurs_in(text@, pat@)) by {
        if occurs_in(text@, pat@) {
            let k = choose|k: int| occurs_at(text@, pat@, k);
            assert(occurs_at(text@, pat@, k));
        }
    }
    false
}

/// The part of `s` behind its last `.`, or all of `s` where it holds none.
pub fn last_segment_of(s: &str) -> (seg: String)
    ensures
        seg@ == last_segment(s@),
{
    let n = s.unicode_len();
    let mut start: usize = n;
    while start > 0 && s.get_char(start - 1) != '.'
        invariant
            start <= n,
            n == s@.len(),
            forall|j: int| start <= j < n ==> s@[j] != '.',
        decreases start,
    {
        start -= 1;
    }
    proof {
        lemma_segment_start(s@, start as int);
    }
    s.substring_char(start, n).to_owned()
}

} // verus!
