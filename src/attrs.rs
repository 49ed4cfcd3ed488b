use vstd::prelude::*;
use vstd::pervasive::VecAdditionalExecFns;
use crate::model::attrs_view;

verus! {

/// `i` is the first position of key `k` in `a`.
pub open spec fn is_first_key(a: Seq<(Seq<char>, Seq<char>)>, k: Seq<char>, i: int) -> bool {
    &&& 0 <= i < a.len()
    &&& a[i].0 == k
    &&& forall|j: int| 0 <= j < i ==> a[j].0 != k
}

/// `a` with key `k` bound to `v`: the value is replaced in place where the
/// key is present, else the pair is appended.
pub open spec fn set_attr(a: Seq<(Seq<char>, Seq<char>)>, k: Seq<char>, v: Seq<char>) -> Seq<(Seq<char>, Seq<char>)> {
    if exists|i: int| is_first_key(a, k, i) {
        a.update(choose|i: int| is_first_key(a, k, i), (k, v))
    } else {
        a.push((k, v))
    }
}

/// No key occurs twice in `a`.
pub open spec fn keys_unique(a: Seq<(Seq<char>, Seq<char>)>) -> bool {
    forall|i: int, j: int| 0 <= i < a.len() && 0 <= j < a.len() && i != j ==> a[i].0 != a[j].0
}

/// Binding a key keeps the keys unique.
pub proof fn lemma_set_attr_unique(a: Seq<(Seq<char>, Seq<char>)>, k: Seq<char>, v: Seq<char>)
    requires
        keys_unique(a),
    ensures
        keys_unique(set_attr(a, k, v)),
{
    if exists|i: int| is_first_key(a, k, i) {
        let i = choose|i: int| is_first_key(a, k, i);
        let r = set_attr(a, k, v);
        assert forall|x: int, y: int| 0 <= x < r.len() && 0 <= y < r.len() && x != y implies r[x].0 != r[y].0 by {
            if x != i && y != i {
                assert(r[x] == a[x] && r[y] == a[y]);
            }
        }
    } else {
        let r = set_attr(a, k, v);
        assert forall|x: int, y: int| 0 <= x < r.len() && 0 <= y < r.len() && x != y implies r[x].0 != r[y].0 by {
            if x < a.len() && y < a.len() {
                assert(r[x] == a[x] && r[y] == a[y]);
            } else if x == a.len() {
                assert(!is_first_key(a, k, y));
            } else {
                assert(!is_first_key(a, k, x));
            }
        }
    }
}

/// Binds key `k` to `v` in `attrs`.
pub fn set_attribute(attrs: &mut Vec<(String, String)>, k: String, v: String)
    ensures
        attrs_view(final(attrs)@) == set_attr(attrs_view(old(attrs)@), k@, v@),
{
    let ghost a = attrs_view(attrs@);
    let mut i: usize = 0;
    while i < attrs.len()
        invariant
            i <= attrs@.len(),
            *attrs == *old(attrs),
            a == attrs_view(attrs@),
            forall|j: int| 0 <= j < i ==> a[j].0 != k@,
        decreases attrs@.len() - i,
    {
        if attrs[i].0 == k {
            proof {
                assert(is_first_key(a, k@, i as int));
                let c = choose|c: int| is_first_key(a, k@, c);
                assert(c == i);
            }
            attrs.set(i, (k, v));
            assert(attrs_view(attrs@) =~= set_attr(a, k@, v@));
            return;
        }
        i = i + 1;
    }
    attrs.push((k, v));
    assert(attrs_view(attrs@) =~= set_attr(a, k@, v@));
}

} // verus!
