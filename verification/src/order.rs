//! Ordering of texts and sorted lists of names.
//!
//! Texts are ordered character by character, by code point; for UTF-8
//! strings that is the byte order in which `String` compares.

use vstd::prelude::*;

use crate::text::{chars_of, string_views};

verus! {

/// `a` comes strictly before `b` in lexicographic order of code points.
pub open spec fn text_lt(a: Seq<char>, b: Seq<char>) -> bool
    decreases a.len(),
{
    if a.len() == 0 {
        b.len() > 0
    } else if b.len() == 0 {
        false
    } else if a[0] != b[0] {
        (a[0] as int) < (b[0] as int)
    } else {
        text_lt(a.drop_first(), b.drop_first())
    }
}

/// The order is strict: no text comes before itself.
pub proof fn lemma_text_lt_irreflexive(a: Seq<char>)
    ensures
        !text_lt(a, a),
    decreases a.len(),
{
    if a.len() > 0 {
        lemma_text_lt_irreflexive(a.drop_first());
    }
}

/// Any two texts are equal or one comes before the other, and not both.
pub proof fn lemma_text_lt_total(a: Seq<char>, b: Seq<char>)
    ensures
        a == b || text_lt(a, b) || text_lt(b, a),
        !(text_lt(a, b) && text_lt(b, a)),
    decreases a.len(),
{
    if a.len() > 0 && b.len() > 0 && a[0] == b[0] {
        lemma_text_lt_total(a.drop_first(), b.drop_first());
        if a.drop_first() == b.drop_first() {
            assert(a =~= seq![a[0]] + a.drop_first());
            assert(b =~= seq![b[0]] + b.drop_first());
        }
    } else if a.len() == 0 && b.len() == 0 {
        assert(a =~= b);
    }
}

/// The order is transitive.
pub proof fn lemma_text_lt_transitive(a: Seq<char>, b: Seq<char>, c: Seq<char>)
    requires
        text_lt(a, b),
        text_lt(b, c),
    ensures
        text_lt(a, c),
    decreases a.len(),
{
    if a.len() > 0 && b.len() > 0 && c.len() > 0 && a[0] == b[0] && b[0] == c[0] {
        lemma_text_lt_transitive(a.drop_first(), b.drop_first(), c.drop_first());
    }
}

/// Whether `a` comes strictly before `b`.
pub fn text_less(a: &Vec<char>, b: &Vec<char>) -> (r: bool)
    ensures
        r == text_lt(a@, b@),
{
    let mut i: usize = 0;
    assert(a@.skip(0) =~= a@);
    assert(b@.skip(0) =~= b@);
    while i < a.len() && i < b.len() && a[i] == b[i]
        invariant
            i <= a.len(),
            i <= b.len(),
            text_lt(a@, b@) == text_lt(a@.skip(i as int), b@.skip(i as int)),
        decreases a.len() - i,
    {
        assert(a@.skip(i as int).drop_first() =~= a@.skip(i + 1));
        assert(b@.skip(i as int).drop_first() =~= b@.skip(i + 1));
        i = i + 1;
    }
    if i < a.len() {
        assert(a@.skip(i as int)[0] == a@[i as int]);
    }
    if i < b.len() {
        assert(b@.skip(i as int)[0] == b@[i as int]);
    }
    if i == a.len() {
        i < b.len()
    } else if i == b.len() {
        false
    } else {
        a[i] < b[i]
    }
}

/// The texts are in strictly increasing order.
pub open spec fn strictly_sorted(v: Seq<Seq<char>>) -> bool {
    forall|i: int, j: int| 0 <= i < j < v.len() ==> text_lt(#[trigger] v[i], #[trigger] v[j])
}

/// The texts are in non-decreasing order.
pub open spec fn sorted(v: Seq<Seq<char>>) -> bool {
    forall|i: int, j: int| 0 <= i < j < v.len() ==> !text_lt(#[trigger] v[j], #[trigger] v[i])
}

/// Inserts `s` into a strictly sorted list, unless it is already there.
pub fn insert_unique(v: &mut Vec<String>, s: String)
    requires
        strictly_sorted(string_views(old(v)@)),
    ensures
        strictly_sorted(string_views(final(v)@)),
        forall|x: Seq<char>|
            string_views(final(v)@).contains(x) <==> (string_views(old(v)@).contains(x) || x == s@),
{
    let ghost old_views = string_views(v@);
    let sc = chars_of(s.as_str());
    let mut k: usize = 0;
    while k < v.len()
        invariant
            k <= v.len(),
            v@ == old(v)@,
            old_views == string_views(v@),
            sc@ == s@,
            forall|i: int| 0 <= i < k ==> text_lt(#[trigger] old_views[i], s@),
        ensures
            k <= v.len(),
            v@ == old(v)@,
            k < v.len() ==> !text_lt(old_views[k as int], s@),
            forall|i: int| 0 <= i < k ==> text_lt(#[trigger] old_views[i], s@),
        decreases v.len() - k,
    {
        let vc = chars_of(v[k].as_str());
        assert(old_views[k as int] == v@[k as int]@);
        if !text_less(&vc, &sc) {
            break;
        }
        k = k + 1;
    }
    if k < v.len() {
        let vc = chars_of(v[k].as_str());
        assert(old_views[k as int] == v@[k as int]@);
        if !text_less(&sc, &vc) {
            proof {
                lemma_text_lt_total(old_views[k as int], s@);
            }
            assert(old_views[k as int] == s@);
            assert forall|x: Seq<char>|
                string_views(v@).contains(x) <==> (old_views.contains(x) || x == s@) by {
                if x == s@ {
                    assert(old_views[k as int] == x);
                }
            }
            return;
        }
    }
    v.insert(k, s);
    proof {
        let nv = string_views(v@);
        assert(nv =~= old_views.insert(k as int, s@));
        assert forall|i: int, j: int| 0 <= i < j < nv.len() implies text_lt(
            #[trigger] nv[i],
            #[trigger] nv[j],
        ) by {
            if j < k {
            } else if j == k {
            } else if i < k {
                assert(text_lt(nv[i], s@));
                assert(text_lt(s@, old_views[k as int]));
                if j - 1 > k {
                    lemma_text_lt_transitive(s@, old_views[k as int], old_views[j - 1]);
                }
                lemma_text_lt_transitive(nv[i], s@, nv[j]);
            } else if i == k {
                if j - 1 > k {
                    lemma_text_lt_transitive(s@, old_views[k as int], old_views[j - 1]);
                }
            } else {
                assert(nv[i] == old_views[i - 1]);
            }
        }
        assert forall|x: Seq<char>| nv.contains(x) <==> (old_views.contains(x) || x == s@) by {
            if old_views.contains(x) {
                let t = choose|t: int| 0 <= t < old_views.len() && old_views[t] == x;
                if t < k {
                    assert(nv[t] == x);
                } else {
                    assert(nv[t + 1] == x);
                }
            }
            if x == s@ {
                assert(nv[k as int] == x);
            }
            if nv.contains(x) {
                let t = choose|t: int| 0 <= t < nv.len() && nv[t] == x;
                if t < k {
                    assert(old_views[t] == x);
                } else if t > k {
                    assert(old_views[t - 1] == x);
                }
            }
        }
    }
}

/// Inserts `s` into a sorted list after the texts that do not come after
/// it, keeping any equal texts already there.
pub fn insert_sorted(v: &mut Vec<String>, s: String)
    requires
        sorted(string_views(old(v)@)),
    ensures
        sorted(string_views(final(v)@)),
        string_views(final(v)@).to_multiset() == string_views(old(v)@).to_multiset().insert(s@),
{
    let ghost old_views = string_views(v@);
    let sc = chars_of(s.as_str());
    let mut k: usize = 0;
    while k < v.len()
        invariant
            k <= v.len(),
            v@ == old(v)@,
            old_views == string_views(v@),
            sc@ == s@,
            forall|i: int| 0 <= i < k ==> !text_lt(s@, #[trigger] old_views[i]),
        ensures
            k <= v.len(),
            v@ == old(v)@,
            k < v.len() ==> text_lt(s@, old_views[k as int]),
            forall|i: int| 0 <= i < k ==> !text_lt(s@, #[trigger] old_views[i]),
        decreases v.len() - k,
    {
        let vc = chars_of(v[k].as_str());
        assert(old_views[k as int] == v@[k as int]@);
        if text_less(&sc, &vc) {
            break;
        }
        k = k + 1;
    }
    v.insert(k, s);
    proof {
        let nv = string_views(v@);
        assert(nv =~= old_views.insert(k as int, s@));
        assert forall|i: int, j: int| 0 <= i < j < nv.len() implies !text_lt(
            #[trigger] nv[j],
            #[trigger] nv[i],
        ) by {
            if j < k {
            } else if j == k {
            } else if i < k {
                // nv[i] <= s < old_views[k] <= nv[j]
                lemma_text_lt_total(nv[i], s@);
                lemma_text_lt_total(nv[j], s@);
                if text_lt(nv[j], nv[i]) {
                    if text_lt(nv[i], s@) {
                        lemma_text_lt_transitive(nv[j], nv[i], s@);
                    }
                    // nv[j] comes before s, yet old_views[k] comes after s
                    if j - 1 > k {
                        assert(!text_lt(old_views[j - 1], old_views[k as int]));
                        lemma_text_lt_total(old_views[j - 1], old_views[k as int]);
                        if old_views[j - 1] != old_views[k as int] {
                            lemma_text_lt_transitive(s@, old_views[k as int], old_views[j - 1]);
                        }
                    }
                    lemma_text_lt_total(s@, nv[j]);
                }
            } else if i == k {
                if j - 1 > k {
                    assert(!text_lt(old_views[j - 1], old_views[k as int]));
                    lemma_text_lt_total(old_views[j - 1], old_views[k as int]);
                    if old_views[j - 1] != old_views[k as int] {
                        lemma_text_lt_transitive(s@, old_views[k as int], old_views[j - 1]);
                    }
                }
                lemma_text_lt_total(s@, nv[j]);
            } else {
                assert(nv[i] == old_views[i - 1]);
            }
        }
        assert(nv.remove(k as int) =~= old_views);
        nv.to_multiset_ensures();
        assert(nv.to_multiset() =~= old_views.to_multiset().insert(s@));
    }
}

} // verus!
