//! The order of recently used sessions: directory base names, the most recently active last.
use vstd::prelude::*;

verus! {

/// The position of the first name in `v` equal to `x`, or `-1` if there is none.
pub open spec fn position_of(v: Seq<String>, x: Seq<char>) -> int
    decreases v.len(),
{
    if v.len() == 0 {
        -1
    } else if v[0]@ == x {
        0
    } else {
        let p = position_of(v.drop_first(), x);
        if p < 0 {
            -1
        } else {
            p + 1
        }
    }
}

/// `v` without its first name equal to `x`.
pub open spec fn without_first(v: Seq<String>, x: Seq<char>) -> Seq<String> {
    let p = position_of(v, x);
    if p < 0 {
        v
    } else {
        v.remove(p)
    }
}

/// `v` after `name` became the most recently used: its earlier occurrence removed, then
/// appended at the end.
pub open spec fn promoted(v: Seq<String>, name: String) -> Seq<String> {
    without_first(v, name@).push(name)
}

/// No two names in `v` are equal.
pub open spec fn distinct_names(v: Seq<String>) -> bool {
    forall|i: int, j: int| 0 <= i < v.len() && 0 <= j < v.len() && i != j ==> v[i]@ != v[j]@
}

/// Whether `v` holds a name equal to `x`.
pub open spec fn has_name(v: Seq<String>, x: Seq<char>) -> bool {
    exists|i: int| 0 <= i < v.len() && #[trigger] v[i]@ == x
}

/// `position_of` is the first matching position.
pub proof fn lemma_position_of(v: Seq<String>, x: Seq<char>)
    ensures
        position_of(v, x) < 0 <==> !has_name(v, x),
        position_of(v, x) >= 0 ==> {
            &&& position_of(v, x) < v.len()
            &&& v[position_of(v, x)]@ == x
            &&& forall|j: int| 0 <= j < position_of(v, x) ==> v[j]@ != x
        },
        position_of(v, x) >= -1,
    decreases v.len(),
{
    if v.len() > 0 {
        lemma_position_of(v.drop_first(), x);
        let p = position_of(v, x);
        if v[0]@ != x {
            if has_name(v, x) {
                let i = choose|i: int| 0 <= i < v.len() && #[trigger] v[i]@ == x;
                assert(v.drop_first()[i - 1]@ == x);
            }
            if has_name(v.drop_first(), x) {
                let i = choose|i: int| 0 <= i < v.len() - 1 && #[trigger] v.drop_first()[i]@ == x;
                assert(v[i + 1]@ == x);
            }
            assert forall|j: int| 0 <= j < p implies v[j]@ != x by {
                if j > 0 {
                    assert(v[j] == v.drop_first()[j - 1]);
                }
            }
        } else {
            assert(v[0]@ == x);
        }
    }
}

/// Removes the first string equal to `to_remove`; tells whether there was one.
pub fn remove_from_vec(vec: &mut Vec<String>, to_remove: &String) -> (r: bool)
    ensures
        r == has_name(old(vec)@, to_remove@),
        final(vec)@ == without_first(old(vec)@, to_remove@),
{
    proof {
        lemma_position_of(vec@, to_remove@);
    }
    let mut i: usize = 0;
    while i < vec.len()
        invariant
            i <= vec.len(),
            vec@ == old(vec)@,
            forall|j: int| 0 <= j < i ==> vec@[j]@ != to_remove@,
            position_of(vec@, to_remove@) < 0 <==> !has_name(vec@, to_remove@),
            position_of(vec@, to_remove@) >= 0 ==> {
                &&& position_of(vec@, to_remove@) < vec@.len()
                &&& vec@[position_of(vec@, to_remove@)]@ == to_remove@
                &&& forall|j: int| 0 <= j < position_of(vec@, to_remove@) ==> vec@[j]@ != to_remove@
            },
        decreases vec.len() - i,
    {
        if vec[i] == *to_remove {
            let ghost p = position_of(vec@, to_remove@);
            assert(p == i) by {
                assert(has_name(vec@, to_remove@));
                if p < i {
                    assert(vec@[p]@ != to_remove@);
                } else if p > i {
                    assert(vec@[i as int]@ != to_remove@);
                }
            }
            vec.remove(i);
            return true;
        }
        i = i + 1;
    }
    false
}

/// Moves `name` to the end of the recently used order.
pub fn promote(vec: &mut Vec<String>, name: String)
    ensures
        final(vec)@ == promoted(old(vec)@, name),
{
    remove_from_vec(vec, &name);
    vec.push(name);
}

/// Removing the first occurrence keeps names distinct and, from distinct names, removes
/// every occurrence.
pub proof fn lemma_without_first_distinct(v: Seq<String>, x: Seq<char>)
    requires
        distinct_names(v),
    ensures
        distinct_names(without_first(v, x)),
        !has_name(without_first(v, x), x),
        forall|k: int|
            0 <= k < without_first(v, x).len() ==> has_name(v, #[trigger] without_first(v, x)[k]@),
{
    lemma_position_of(v, x);
    let p = position_of(v, x);
    let w = without_first(v, x);
    if p >= 0 {
        assert forall|k: int| 0 <= k < w.len() implies #[trigger] w[k] == v[if k < p { k } else { k + 1 }] by {
        }
        assert forall|i: int, j: int| 0 <= i < w.len() && 0 <= j < w.len() && i != j implies w[i]@
            != w[j]@ by {
            assert(w[i] == v[if i < p { i } else { i + 1 }]);
            assert(w[j] == v[if j < p { j } else { j + 1 }]);
        }
        assert forall|k: int| 0 <= k < w.len() implies w[k]@ != x by {
            assert(w[k] == v[if k < p { k } else { k + 1 }]);
        }
        assert forall|k: int| 0 <= k < w.len() implies has_name(v, #[trigger] w[k]@) by {
            let j = if k < p { k } else { k + 1 };
            assert(w[k] == v[j]);
            assert(v[j]@ == w[k]@);
        }
    } else {
        assert forall|k: int| 0 <= k < w.len() implies has_name(v, #[trigger] w[k]@) by {
            assert(v[k]@ == w[k]@);
        }
    }
}

/// Removing the first occurrence of `x` keeps every other name.
pub proof fn lemma_without_first_keeps(v: Seq<String>, x: Seq<char>, y: Seq<char>)
    requires
        has_name(v, y),
        y != x,
    ensures
        has_name(without_first(v, x), y),
{
    lemma_position_of(v, x);
    let p = position_of(v, x);
    let i = choose|i: int| 0 <= i < v.len() && #[trigger] v[i]@ == y;
    if p >= 0 {
        let w = v.remove(p);
        if i < p {
            assert(w[i] == v[i]);
        } else {
            assert(i != p);
            assert(w[i - 1] == v[i]);
        }
    }
}

/// Promoting keeps names distinct.
pub proof fn lemma_promoted_distinct(v: Seq<String>, name: String)
    requires
        distinct_names(v),
    ensures
        distinct_names(promoted(v, name)),
        promoted(v, name).last() == name,
{
    lemma_without_first_distinct(v, name@);
    let w = without_first(v, name@);
    let r = promoted(v, name);
    assert forall|i: int, j: int| 0 <= i < r.len() && 0 <= j < r.len() && i != j implies r[i]@
        != r[j]@ by {
        if i < w.len() && j < w.len() {
            assert(r[i] == w[i] && r[j] == w[j]);
        } else if i < w.len() {
            assert(r[i] == w[i]);
            assert(w[i]@ != name@);
        } else if j < w.len() {
            assert(r[j] == w[j]);
            assert(w[j]@ != name@);
        }
    }
}

/// After promoting `a` and then `b`, the order ends with `a`, `b`, and neither occurs
/// anywhere else.
pub proof fn lemma_promote_twice(v: Seq<String>, a: String, b: String)
    requires
        distinct_names(v),
        a@ != b@,
    ensures
        ({
            let r = promoted(promoted(v, a), b);
            &&& r.len() >= 2
            &&& r[r.len() - 2] == a
            &&& r[r.len() - 1] == b
            &&& forall|k: int| 0 <= k < r.len() - 2 ==> r[k]@ != a@ && r[k]@ != b@
            &&& distinct_names(r)
        }),
{
    let v1 = promoted(v, a);
    lemma_promoted_distinct(v, a);
    lemma_promoted_distinct(v1, b);
    lemma_position_of(v1, b@);
    lemma_without_first_distinct(v1, b@);
    let p = position_of(v1, b@);
    let w = without_first(v1, b@);
    let r = promoted(v1, b);
    assert(v1[v1.len() - 1] == a);
    if p >= 0 {
        assert(p != v1.len() - 1);
        assert(w[w.len() - 1] == v1[v1.len() - 1]);
    }
    assert(r[r.len() - 2] == w[w.len() - 1]);
    assert forall|k: int| 0 <= k < r.len() - 2 implies r[k]@ != a@ && r[k]@ != b@ by {
        assert(r[k] == w[k]);
        assert(w[k]@ != b@);
        assert(r[k]@ != r[r.len() - 2]@);
    }
}

} // verus!
