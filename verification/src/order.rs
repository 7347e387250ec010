use vstd::prelude::*;

verus! {

/// `v` stands somewhere in `order`.
pub open spec fn occurs_in(order: Seq<usize>, v: int) -> bool {
    exists|p: int| 0 <= p < order.len() && order[p] == v
}

/// `order` lists the positions `0..keys.len()`, each once, by key, with
/// positions of equal keys in their original order: the outcome of a stable
/// sort by key.
pub open spec fn is_stable_order(keys: Seq<i128>, order: Seq<usize>) -> bool {
    &&& order.len() == keys.len()
    &&& forall|p: int| 0 <= p < order.len() ==> #[trigger] order[p] < keys.len()
    &&& forall|v: int| 0 <= v < keys.len() ==> #[trigger] occurs_in(order, v)
    &&& forall|p: int, q: int| 0 <= p < q < order.len() ==> #[trigger] order[p] != #[trigger] order[q]
    &&& forall|p: int, q: int|
        0 <= p < q < order.len() ==> keys[#[trigger] order[p] as int] <= keys[#[trigger] order[q] as int]
    &&& forall|p: int, q: int|
        0 <= p < q < order.len() && keys[#[trigger] order[p] as int] == keys[#[trigger] order[q] as int]
            ==> order[p] < order[q]
}

/// The positions of `keys` in stable sorted order.
pub fn stable_order(keys: &Vec<i128>) -> (order: Vec<usize>)
    ensures
        is_stable_order(keys@, order@),
{
    let n = keys.len();
    let mut order: Vec<usize> = Vec::new();
    let mut idx: usize = 0;
    while idx < n
        invariant
            n == keys.len(),
            idx <= n,
            order.len() == idx,
            forall|p: int| 0 <= p < order.len() ==> #[trigger] order@[p] < idx,
            forall|v: int| 0 <= v < idx ==> #[trigger] occurs_in(order@, v),
            forall|p: int, q: int| 0 <= p < q < order.len() ==> #[trigger] order@[p] != #[trigger] order@[q],
            forall|p: int, q: int|
                0 <= p < q < order.len() ==> keys@[#[trigger] order@[p] as int] <= keys@[#[trigger] order@[q] as int],
            forall|p: int, q: int|
                0 <= p < q < order.len() && keys@[#[trigger] order@[p] as int] == keys@[#[trigger] order@[q] as int]
                    ==> order@[p] < order@[q],
        decreases n - idx,
    {
        let key = keys[idx];
        let mut pos: usize = 0;
        while pos < order.len() && keys[order[pos]] <= key
            invariant
                n == keys.len(),
                idx < n,
                key == keys@[idx as int],
                order.len() == idx,
                pos <= order.len(),
                forall|p: int| 0 <= p < order.len() ==> #[trigger] order@[p] < idx,
                forall|p: int| 0 <= p < pos ==> keys@[#[trigger] order@[p] as int] <= key,
            decreases order.len() - pos,
        {
            pos = pos + 1;
        }
        let ghost before = order@;
        order.insert(pos, idx);
        proof {
            assert(order@ =~= before.insert(pos as int, idx));
            assert forall|p: int| 0 <= p < order.len() implies #[trigger] order@[p] < idx + 1 by {
                if p < pos {
                    assert(order@[p] == before[p]);
                } else if p > pos {
                    assert(order@[p] == before[p - 1]);
                }
            }
            assert forall|v: int| 0 <= v < idx + 1 implies #[trigger] occurs_in(order@, v) by {
                if v == idx {
                    assert(order@[pos as int] == v);
                } else {
                    assert(occurs_in(before, v));
                    let p0 = choose|p: int| 0 <= p < before.len() && before[p] == v;
                    if p0 < pos {
                        assert(order@[p0] == v);
                    } else {
                        assert(order@[p0 + 1] == v);
                    }
                }
            }
            assert forall|p: int, q: int| 0 <= p < q < order.len() implies #[trigger] order@[p]
                != #[trigger] order@[q] by {
                if p < pos && q < pos {
                    assert(before[p] != before[q]);
                } else if p < pos && q > pos {
                    assert(before[p] != before[q - 1]);
                } else if p > pos && q > pos {
                    assert(before[p - 1] != before[q - 1]);
                } else if p == pos {
                    assert(before[q - 1] < idx);
                } else {
                    assert(before[p] < idx);
                }
            }
            assert forall|p: int, q: int| 0 <= p < q < order.len() implies keys@[
                #[trigger] order@[p] as int] <= keys@[#[trigger] order@[q] as int] && (keys@[
                order@[p] as int] == keys@[order@[q] as int] ==> order@[p] < order@[q]) by {
                if p < pos && q < pos {
                    assert(order@[p] == before[p] && order@[q] == before[q]);
                } else if p < pos && q == pos {
                    assert(order@[p] == before[p]);
                    assert(keys@[before[p] as int] <= key);
                    assert(before[p] < idx);
                } else if p < pos && q > pos {
                    assert(order@[p] == before[p] && order@[q] == before[q - 1]);
                } else if p == pos {
                    assert(order@[q] == before[q - 1]);
                    assert(keys@[before[pos as int] as int] > key);
                    if q - 1 > pos {
                        assert(keys@[before[pos as int] as int] <= keys@[before[q - 1] as int]);
                    }
                } else {
                    assert(order@[p] == before[p - 1] && order@[q] == before[q - 1]);
                }
            }
        }
        idx = idx + 1;
    }
    order
}


/// Position `a` goes before position `b` in a stable sort by `keys`.
pub open spec fn goes_before(keys: Seq<i128>, a: int, b: int) -> bool {
    keys[a] < keys[b] || (keys[a] == keys[b] && a < b)
}

/// Each entry of `s` goes before every later one.
pub open spec fn ranked(keys: Seq<i128>, s: Seq<usize>) -> bool {
    forall|p: int, q: int| 0 <= p < q < s.len() ==> goes_before(keys, #[trigger] s[p] as int, #[trigger] s[q] as int)
}

proof fn lemma_ranked_unique(keys: Seq<i128>, s: Seq<usize>, t: Seq<usize>)
    requires
        ranked(keys, s),
        ranked(keys, t),
        forall|v: int| #[trigger] occurs_in(s, v) <==> occurs_in(t, v),
    ensures
        s == t,
    decreases s.len(),
{
    if s.len() == 0 {
        if t.len() > 0 {
            assert(occurs_in(t, t[0] as int));
            assert(occurs_in(s, t[0] as int));
        }
        assert(s =~= t);
    } else {
        if t.len() == 0 {
            assert(occurs_in(s, s[0] as int));
        }
        assert(occurs_in(s, s[0] as int));
        assert(occurs_in(t, s[0] as int));
        assert(occurs_in(t, t[0] as int));
        assert(occurs_in(s, t[0] as int));
        let q = choose|q: int| 0 <= q < t.len() && t[q] == s[0] as int;
        let p = choose|p: int| 0 <= p < s.len() && s[p] == t[0] as int;
        if q > 0 && p > 0 {
            assert(goes_before(keys, t[0] as int, t[q] as int));
            assert(goes_before(keys, s[0] as int, s[p] as int));
        }
        assert(s[0] == t[0]);
        let s1 = s.drop_first();
        let t1 = t.drop_first();
        assert forall|p: int, q: int| 0 <= p < q < s1.len() implies goes_before(
            keys,
            #[trigger] s1[p] as int,
            #[trigger] s1[q] as int,
        ) by {
            assert(s1[p] == s[p + 1] && s1[q] == s[q + 1]);
        }
        assert forall|p: int, q: int| 0 <= p < q < t1.len() implies goes_before(
            keys,
            #[trigger] t1[p] as int,
            #[trigger] t1[q] as int,
        ) by {
            assert(t1[p] == t[p + 1] && t1[q] == t[q + 1]);
        }
        assert forall|v: int| #[trigger] occurs_in(s1, v) <==> occurs_in(t1, v) by {
            if occurs_in(s1, v) {
                let p = choose|p: int| 0 <= p < s1.len() && s1[p] == v;
                assert(s[p + 1] == v);
                assert(occurs_in(s, v));
                assert(goes_before(keys, s[0] as int, s[p + 1] as int));
                assert(occurs_in(t, v));
                let q = choose|q: int| 0 <= q < t.len() && t[q] == v;
                assert(q != 0);
                assert(t1[q - 1] == v);
            }
            if occurs_in(t1, v) {
                let q = choose|q: int| 0 <= q < t1.len() && t1[q] == v;
                assert(t[q + 1] == v);
                assert(occurs_in(t, v));
                assert(goes_before(keys, t[0] as int, t[q + 1] as int));
                assert(occurs_in(s, v));
                let p = choose|p: int| 0 <= p < s.len() && s[p] == v;
                assert(p != 0);
                assert(s1[p - 1] == v);
            }
        }
        lemma_ranked_unique(keys, s1, t1);
        assert(s =~= seq![s[0]] + s1);
        assert(t =~= seq![t[0]] + t1);
    }
}

/// A stable sort by key has one outcome only: two orders that both meet
/// `is_stable_order` are the same.
pub proof fn lemma_stable_order_unique(keys: Seq<i128>, a: Seq<usize>, b: Seq<usize>)
    requires
        is_stable_order(keys, a),
        is_stable_order(keys, b),
    ensures
        a == b,
{
    assert forall|p: int, q: int| 0 <= p < q < a.len() implies goes_before(
        keys,
        #[trigger] a[p] as int,
        #[trigger] a[q] as int,
    ) by {
        assert(keys[a[p] as int] <= keys[a[q] as int]);
        assert(a[p] != a[q]);
    }
    assert forall|p: int, q: int| 0 <= p < q < b.len() implies goes_before(
        keys,
        #[trigger] b[p] as int,
        #[trigger] b[q] as int,
    ) by {
        assert(keys[b[p] as int] <= keys[b[q] as int]);
        assert(b[p] != b[q]);
    }
    assert forall|v: int| #[trigger] occurs_in(a, v) <==> occurs_in(b, v) by {
        if occurs_in(a, v) {
            let p = choose|p: int| 0 <= p < a.len() && a[p] == v;
            assert(a[p] < keys.len());
            assert(occurs_in(b, v));
        }
        if occurs_in(b, v) {
            let p = choose|p: int| 0 <= p < b.len() && b[p] == v;
            assert(b[p] < keys.len());
            assert(occurs_in(a, v));
        }
    }
    lemma_ranked_unique(keys, a, b);
}

} // verus!
