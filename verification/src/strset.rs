//! Duplicate-free vectors of strings, read as finite sets of character
//! sequences. The registry keeps every alias collection in this form, so the
//! lexicographically least element is always well defined.

use vstd::prelude::*;

use crate::names::{lemma_lex_transitive, lemma_lex_trichotomy, lex_lt, str_eq, str_lt};

verus! {

/// The set of character sequences held by a vector of strings.
pub open spec fn str_set(v: Seq<Seq<char>>) -> Set<Seq<char>> {
    v.to_set()
}

/// No two strings of the vector hold the same characters.
pub open spec fn distinct_strs(v: Seq<Seq<char>>) -> bool {
    v.no_duplicates()
}

/// `x` is the lexicographically least element of `s`.
pub open spec fn is_lex_min(s: Set<Seq<char>>, x: Seq<char>) -> bool {
    s.contains(x) && forall|y: Seq<char>| s.contains(y) ==> x == y || lex_lt(x, y)
}

/// A set has at most one lexicographically least element.
pub proof fn lemma_lex_min_unique(s: Set<Seq<char>>, x: Seq<char>, y: Seq<char>)
    requires
        is_lex_min(s, x),
        is_lex_min(s, y),
    ensures
        x == y,
{
    if x != y {
        lemma_lex_trichotomy(x, y);
    }
}

/// The lexicographically least element of a set, where one exists.
pub open spec fn lex_min_of(s: Set<Seq<char>>) -> Seq<char> {
    choose|x: Seq<char>| is_lex_min(s, x)
}

/// Removing the entry at index `i` of a duplicate-free vector removes exactly
/// its value from the denoted set.
pub proof fn lemma_distinct_remove_to_set(v: Seq<Seq<char>>, i: int)
    requires
        distinct_strs(v),
        0 <= i < v.len(),
    ensures
        distinct_strs(v.remove(i)),
        str_set(v.remove(i)) =~= str_set(v).remove(v[i]),
{
    let t = v.remove(i);
    assert(forall|j: int| 0 <= j < i ==> #[trigger] t[j] == v[j]);
    assert(forall|j: int| i <= j < t.len() ==> #[trigger] t[j] == v[j + 1]);
    assert forall|e: Seq<char>| #[trigger] str_set(t).contains(e)
        implies str_set(v).remove(v[i]).contains(e) by {
        let j = choose|j: int| 0 <= j < t.len() && t[j] == e;
        if j < i {
            assert(v[j] == e);
        } else {
            assert(v[j + 1] == e);
        }
    }
    assert forall|e: Seq<char>| #[trigger] str_set(v).remove(v[i]).contains(e)
        implies str_set(t).contains(e) by {
        let j = choose|j: int| 0 <= j < v.len() && v[j] == e;
        if j < i {
            assert(t[j] == e);
        } else {
            assert(t[j - 1] == e);
        }
    }
}

/// Taking one more element appends it, so the denoted set grows by it.
pub proof fn lemma_take_push(s: Seq<Seq<char>>, i: int)
    requires
        0 <= i < s.len(),
    ensures
        s.take(i + 1) =~= s.take(i).push(s[i]),
        str_set(s.take(i + 1)) =~= str_set(s.take(i)).insert(s[i]),
{
    assert forall|e: Seq<char>| #[trigger] str_set(s.take(i + 1)).contains(e)
        implies str_set(s.take(i)).insert(s[i]).contains(e) by {
        let t = s.take(i + 1);
        let j = choose|j: int| 0 <= j < t.len() && #[trigger] t[j] == e;
        if j < i {
            assert(s.take(i)[j] == e);
        }
    }
    assert forall|e: Seq<char>| str_set(s.take(i)).insert(s[i]).contains(e)
        implies #[trigger] str_set(s.take(i + 1)).contains(e) by {
        if e == s[i] {
            assert(s.take(i + 1)[i] == e);
        } else {
            let j = choose|j: int| 0 <= j < s.take(i).len() && s.take(i)[j] == e;
            assert(s.take(i + 1)[j] == e);
        }
    }
}

/// True when some string of the vector holds the characters of `x`.
pub fn vec_contains_str(v: &Vec<String>, x: &str) -> (r: bool)
    ensures
        r == str_set(v.deep_view()).contains(x@),
{
    let mut i: usize = 0;
    while i < v.len()
        invariant
            i <= v.len(),
            forall|j: int| 0 <= j < i ==> v.deep_view()[j] != x@,
        decreases v.len() - i,
    {
        if str_eq(v[i].as_str(), x) {
            assert(v.deep_view()[i as int] == x@);
            return true;
        }
        i = i + 1;
    }
    false
}

/// Adds `x` unless an equal string is already present.
pub fn push_unique(v: &mut Vec<String>, x: String)
    requires
        distinct_strs(old(v).deep_view()),
    ensures
        distinct_strs(final(v).deep_view()),
        str_set(final(v).deep_view()) =~= str_set(old(v).deep_view()).insert(x@),
{
    if !vec_contains_str(v, x.as_str()) {
        let ghost before = v.deep_view();
        v.push(x);
        proof {
            assert(v.deep_view() =~= before.push(x@));
            assert(forall|j: int| 0 <= j < before.len()
                ==> #[trigger] before.push(x@)[j] == before[j]);
            assert forall|e: Seq<char>| #[trigger] str_set(before.push(x@)).contains(e)
                implies str_set(before).insert(x@).contains(e) by {
                let j = choose|j: int| 0 <= j < before.push(x@).len() && before.push(x@)[j] == e;
                if j < before.len() {
                    assert(before[j] == e);
                }
            }
            assert forall|e: Seq<char>| str_set(before).contains(e)
                implies #[trigger] str_set(before.push(x@)).contains(e) by {
                let j = choose|j: int| 0 <= j < before.len() && #[trigger] before[j] == e;
                assert(before.push(x@)[j] == e);
            }
            assert(before.push(x@)[before.len() as int] == x@);
            assert(str_set(before.push(x@)).contains(x@));
        }
    } else {
        proof {
            assert(str_set(v.deep_view()) =~= str_set(v.deep_view()).insert(x@));
        }
    }
}

/// Returns the vector without any string equal to `x`.
pub fn removed_all(v: &Vec<String>, x: &str) -> (r: Vec<String>)
    requires
        distinct_strs(v.deep_view()),
    ensures
        distinct_strs(r.deep_view()),
        str_set(r.deep_view()) =~= str_set(v.deep_view()).remove(x@),
{
    let mut out: Vec<String> = Vec::new();
    let mut i: usize = 0;
    while i < v.len()
        invariant
            i <= v.len(),
            distinct_strs(v.deep_view()),
            distinct_strs(out.deep_view()),
            str_set(out.deep_view()) =~= str_set(v.deep_view().take(i as int)).remove(x@),
        decreases v.len() - i,
    {
        let ghost all = v.deep_view();
        let ghost pre = out.deep_view();
        let ghost cur = all[i as int];
        proof {
            lemma_take_push(all, i as int);
        }
        if !str_eq(v[i].as_str(), x) {
            proof {
                assert(!str_set(pre).contains(cur)) by {
                    if str_set(pre).contains(cur) {
                        let j = choose|j: int| 0 <= j < all.take(i as int).len()
                            && all.take(i as int)[j] == cur;
                        assert(all[j] == all[i as int]);
                    }
                }
            }
            let copy = v[i].clone();
            out.push(copy);
            proof {
                assert(out.deep_view() =~= pre.push(cur));
                assert(forall|j: int| 0 <= j < pre.len()
                    ==> #[trigger] pre.push(cur)[j] == pre[j]);
                assert forall|e: Seq<char>| #[trigger] str_set(pre.push(cur)).contains(e)
                    implies str_set(pre).insert(cur).contains(e) by {
                    let j = choose|j: int| 0 <= j < pre.push(cur).len() && pre.push(cur)[j] == e;
                    if j < pre.len() {
                        assert(pre[j] == e);
                    }
                }
                assert forall|e: Seq<char>| str_set(pre).contains(e)
                    implies #[trigger] str_set(pre.push(cur)).contains(e) by {
                    let j = choose|j: int| 0 <= j < pre.len() && #[trigger] pre[j] == e;
                    assert(pre.push(cur)[j] == e);
                }
                assert(pre.push(cur)[pre.len() as int] == cur);
                assert(str_set(pre.push(cur)).contains(cur));
                assert(str_set(out.deep_view()) =~= str_set(pre).insert(cur));
                assert(str_set(out.deep_view()) =~= str_set(all.take(i + 1)).remove(x@));
            }
        } else {
            proof {
                assert(str_set(out.deep_view()) =~= str_set(all.take(i + 1)).remove(x@));
            }
        }
        i = i + 1;
    }
    proof {
        assert(v.deep_view().take(v.deep_view().len() as int) =~= v.deep_view());
    }
    out
}

/// The index of the lexicographically least string of a non-empty vector.
pub fn min_index(v: &Vec<String>) -> (r: usize)
    requires
        v.len() > 0,
    ensures
        r < v.len(),
        is_lex_min(str_set(v.deep_view()), v.deep_view()[r as int]),
{
    let mut best: usize = 0;
    let mut i: usize = 1;
    while i < v.len()
        invariant
            best < i <= v.len(),
            i <= v.deep_view().len(),
            forall|j: int| 0 <= j < i ==> v.deep_view()[best as int] == #[trigger] v.deep_view()[j]
                || lex_lt(v.deep_view()[best as int], v.deep_view()[j]),
        decreases v.len() - i,
    {
        let ghost old_best = v.deep_view()[best as int];
        if str_lt(v[i].as_str(), v[best].as_str()) {
            proof {
                assert forall|j: int| 0 <= j < i + 1
                    implies v.deep_view()[i as int] == #[trigger] v.deep_view()[j]
                        || lex_lt(v.deep_view()[i as int], v.deep_view()[j]) by {
                    if j < i && v.deep_view()[j] != v.deep_view()[i as int] {
                        if old_best == v.deep_view()[j] {
                        } else {
                            lemma_lex_transitive(v.deep_view()[i as int], old_best, v.deep_view()[j]);
                        }
                    }
                }
            }
            best = i;
        } else {
            proof {
                lemma_lex_trichotomy(v.deep_view()[i as int], old_best);
            }
        }
        i = i + 1;
    }
    proof {
        assert(str_set(v.deep_view()).contains(v.deep_view()[best as int]));
        assert forall|y: Seq<char>| str_set(v.deep_view()).contains(y)
            implies v.deep_view()[best as int] == y || lex_lt(v.deep_view()[best as int], y) by {
            let j = choose|j: int| 0 <= j < v.deep_view().len() && v.deep_view()[j] == y;
        }
    }
    best
}

} // verus!
