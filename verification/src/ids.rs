use vstd::prelude::*;
use vstd::string::StrSliceExecFns;

verus! {

/// Lexicographic order on commit ids, by character value: the order in
/// which a reduced commit's parent list is kept.
pub open spec fn id_lt(a: Seq<char>, b: Seq<char>) -> bool
    decreases a.len(),
{
    if b.len() == 0 {
        false
    } else if a.len() == 0 {
        true
    } else if a[0] != b[0] {
        (a[0] as int) < (b[0] as int)
    } else {
        id_lt(a.drop_first(), b.drop_first())
    }
}

/// `id_lt` is a strict total order: any two ids are comparable, and the
/// order is irreflexive and asymmetric.
pub proof fn lemma_id_order_total(a: Seq<char>, b: Seq<char>)
    ensures
        id_lt(a, b) || id_lt(b, a) || a == b,
        !(id_lt(a, b) && id_lt(b, a)),
        id_lt(a, b) ==> a != b,
    decreases a.len(),
{
    if b.len() == 0 {
        if a.len() == 0 {
            assert(a =~= b);
        }
    } else if a.len() == 0 {
        assert(a.len() != b.len());
    } else if a[0] != b[0] {
        assert(a != b);
    } else {
        lemma_id_order_total(a.drop_first(), b.drop_first());
        if a.drop_first() == b.drop_first() {
            assert forall|i: int| 0 <= i < a.len() implies a[i] == b[i] by {
                if i > 0 {
                    assert(a.drop_first()[i - 1] == b.drop_first()[i - 1]);
                }
            }
            assert(a =~= b);
        }
    }
}

/// `id_lt` is transitive.
pub proof fn lemma_id_lt_trans(a: Seq<char>, b: Seq<char>, c: Seq<char>)
    requires
        id_lt(a, b),
        id_lt(b, c),
    ensures
        id_lt(a, c),
    decreases a.len(),
{
    if a.len() > 0 {
        if a[0] == b[0] && b[0] == c[0] {
            lemma_id_lt_trans(a.drop_first(), b.drop_first(), c.drop_first());
        }
    }
}

/// Runtime lexicographic comparison of two id strings.
pub fn id_less(a: &String, b: &String) -> (r: bool)
    ensures
        r == id_lt(a@, b@),
{
    let alen = a.as_str().unicode_len();
    let blen = b.as_str().unicode_len();
    let mut i: usize = 0;
    proof {
        assert(a@.skip(0) =~= a@);
        assert(b@.skip(0) =~= b@);
    }
    while i < alen && i < blen
        invariant
            alen == a@.len(),
            blen == b@.len(),
            i <= alen,
            i <= blen,
            id_lt(a@, b@) == id_lt(a@.skip(i as int), b@.skip(i as int)),
        decreases alen - i,
    {
        let ca = a.as_str().get_char(i);
        let cb = b.as_str().get_char(i);
        if ca != cb {
            proof {
                assert(a@.skip(i as int)[0] == a@[i as int]);
                assert(b@.skip(i as int)[0] == b@[i as int]);
            }
            return ca < cb;
        }
        proof {
            assert(a@.skip(i as int)[0] == a@[i as int]);
            assert(b@.skip(i as int)[0] == b@[i as int]);
            assert(a@.skip(i as int).drop_first() =~= a@.skip(i + 1));
            assert(b@.skip(i as int).drop_first() =~= b@.skip(i + 1));
        }
        i = i + 1;
    }
    proof {
        if i >= alen {
            assert(a@.skip(i as int).len() == 0);
        } else {
            assert(b@.skip(i as int).len() == 0);
        }
    }
    alen < blen
}

/// A strictly ascending sequence of ids, the shape of every reduced
/// parent list: sorted, and — being strict — free of duplicates.
pub open spec fn strictly_sorted_ids(s: Seq<Seq<char>>) -> bool {
    forall|i: int, j: int| 0 <= i < j < s.len() ==> id_lt(s[i], s[j])
}

/// A strictly ascending id sequence holds no value twice.
pub proof fn lemma_sorted_ids_distinct(s: Seq<Seq<char>>)
    requires
        strictly_sorted_ids(s),
    ensures
        forall|i: int, j: int| 0 <= i < j < s.len() ==> s[i] != s[j],
{
    assert forall|i: int, j: int| 0 <= i < j < s.len() implies s[i] != s[j] by {
        lemma_id_order_total(s[i], s[j]);
    }
}

/// Sorting is what makes the reduced parent lists deterministic: two
/// strictly ascending id sequences holding the same set of ids are the
/// same sequence.
pub proof fn lemma_sorted_ids_unique(a: Seq<Seq<char>>, b: Seq<Seq<char>>)
    requires
        strictly_sorted_ids(a),
        strictly_sorted_ids(b),
        a.to_set() == b.to_set(),
    ensures
        a == b,
    decreases a.len(),
{
    if a.len() == 0 {
        if b.len() > 0 {
            assert(b.contains(b[0]));
            assert(a.to_set().contains(b[0]));
            assert(false);
        }
        assert(a =~= b);
    } else if b.len() == 0 {
        assert(a.contains(a[0]));
        assert(b.to_set().contains(a[0]));
        assert(false);
    } else {
        assert(a.contains(a[0]));
        assert(b.to_set().contains(a[0]));
        let jb = choose|jb: int| 0 <= jb < b.len() && b[jb] == a[0];
        assert(b.contains(b[0]));
        assert(a.to_set().contains(b[0]));
        let ja = choose|ja: int| 0 <= ja < a.len() && a[ja] == b[0];
        if jb > 0 {
            if ja > 0 {
                lemma_id_order_total(a[0], b[0]);
                assert(false);
            } else {
                lemma_id_order_total(a[0], b[jb]);
                assert(false);
            }
        }
        assert(a[0] == b[0]);
        let at = a.drop_first();
        let bt = b.drop_first();
        assert forall|p: int, q: int| 0 <= p < q < at.len() implies id_lt(at[p], at[q]) by {
            assert(at[p] == a[p + 1]);
            assert(at[q] == a[q + 1]);
        }
        assert forall|p: int, q: int| 0 <= p < q < bt.len() implies id_lt(bt[p], bt[q]) by {
            assert(bt[p] == b[p + 1]);
            assert(bt[q] == b[q + 1]);
        }
        assert forall|x: Seq<char>| #[trigger] at.to_set().contains(x) implies bt.to_set().contains(
            x,
        ) by {
            let p = choose|p: int| 0 <= p < at.len() && at[p] == x;
            assert(a[p + 1] == x);
            lemma_id_order_total(a[0], x);
            assert(x != b[0]);
            assert(a.contains(x));
            assert(b.to_set().contains(x));
            let q = choose|q: int| 0 <= q < b.len() && b[q] == x;
            assert(q != 0);
            assert(bt[q - 1] == x);
            assert(bt.contains(x));
        }
        assert forall|x: Seq<char>| #[trigger] bt.to_set().contains(x) implies at.to_set().contains(
            x,
        ) by {
            let p = choose|p: int| 0 <= p < bt.len() && bt[p] == x;
            assert(b[p + 1] == x);
            lemma_id_order_total(b[0], x);
            assert(x != a[0]);
            assert(b.contains(x));
            assert(a.to_set().contains(x));
            let q = choose|q: int| 0 <= q < a.len() && a[q] == x;
            assert(q != 0);
            assert(at[q - 1] == x);
            assert(at.contains(x));
        }
        assert(at.to_set() =~= bt.to_set());
        lemma_sorted_ids_unique(at, bt);
        assert forall|i: int| 0 <= i < a.len() implies a[i] == b[i] by {
            if i > 0 {
                assert(at[i - 1] == bt[i - 1]);
            }
        }
        assert(a =~= b);
    }
}

/// Insert an id into a strictly sorted list, keeping it sorted and
/// dropping the id when it is already present.
pub(crate) fn insert_id(v: &mut Vec<String>, id: String)
    requires
        strictly_sorted_ids(old(v).deep_view()),
    ensures
        strictly_sorted_ids(final(v).deep_view()),
        final(v).deep_view().to_set() == old(v).deep_view().to_set().insert(id@),
{
    let ghost dv0 = v.deep_view();
    let mut i: usize = 0;
    loop
        invariant
            v.deep_view() == dv0,
            strictly_sorted_ids(dv0),
            i <= v.len(),
            v.len() == dv0.len(),
            forall|k: int| 0 <= k < i ==> id_lt(dv0[k], id@),
        ensures
            v.deep_view() == dv0,
            i <= v.len(),
            v.len() == dv0.len(),
            forall|k: int| 0 <= k < i ==> id_lt(dv0[k], id@),
            i >= v.len() || !id_lt(dv0[i as int], id@),
        decreases v.len() - i,
    {
        if i >= v.len() {
            break;
        }
        if !id_less(&v[i], &id) {
            proof {
                assert(dv0[i as int] == v@[i as int]@);
            }
            break;
        }
        i = i + 1;
    }
    if i < v.len() && v[i] == id {
        proof {
            assert(dv0[i as int] == id@);
            assert(dv0.contains(id@));
            assert(dv0.to_set() =~= dv0.to_set().insert(id@));
        }
        return ;
    }
    proof {
        if i < dv0.len() {
            assert(!id_lt(dv0[i as int], id@));
            assert(dv0[i as int] != id@);
            lemma_id_order_total(id@, dv0[i as int]);
            assert(id_lt(id@, dv0[i as int]));
        }
    }
    v.insert(i, id);
    proof {
        let dv1 = v.deep_view();
        assert(dv1 =~= dv0.take(i as int) + seq![id@] + dv0.skip(i as int)) by {
            assert(v@ == old(v)@.insert(i as int, id));
            assert forall|k: int| 0 <= k < dv1.len() implies dv1[k] == (dv0.take(i as int)
                + seq![id@] + dv0.skip(i as int))[k] by {
                old(v)@.insert_ensures(i as int, id);
            }
        }
        assert forall|p: int, q: int| 0 <= p < q < dv1.len() implies id_lt(dv1[p], dv1[q]) by {
            if p == i && q > i + 1 {
                lemma_id_lt_trans(id@, dv0[i as int], dv0[q - 1]);
            }
        }
        assert forall|x: Seq<char>| #[trigger] dv1.to_set().contains(x) implies dv0.to_set().insert(
            id@,
        ).contains(x) by {
            let k = choose|k: int| 0 <= k < dv1.len() && dv1[k] == x;
            if k < i {
                assert(dv0[k] == x);
                assert(dv0.contains(x));
            } else if k > i {
                assert(dv0[k - 1] == x);
                assert(dv0.contains(x));
            }
        }
        assert forall|x: Seq<char>| #[trigger] dv0.to_set().insert(id@).contains(x) implies dv1.to_set().contains(
            x,
        ) by {
            if x == id@ {
                assert(dv1[i as int] == x);
                assert(dv1.contains(x));
            } else {
                let k = choose|k: int| 0 <= k < dv0.len() && dv0[k] == x;
                if k < i {
                    assert(dv1[k] == x);
                } else {
                    assert(dv1[k + 1] == x);
                }
                assert(dv1.contains(x));
            }
        }
        assert(dv1.to_set() =~= dv0.to_set().insert(id@));
    }
}

} // verus!
